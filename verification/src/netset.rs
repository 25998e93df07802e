//! Sets of networks, kept as lists in ascending order.

use vstd::prelude::*;

use crate::net::{all_truncated, all_wf, ascending, net_lt, Family, IpNet};
use crate::outside::{key_le, sort_keys, NetKey};

verus! {

/// Whether `a` comes before `b` in the order of networks.
pub fn net_before(a: &IpNet, b: &IpNet) -> (before: bool)
    ensures
        before == net_lt(*a, *b),
{
    match (a.family, b.family) {
        (Family::V4, Family::V6) => true,
        (Family::V6, Family::V4) => false,
        _ => a.addr < b.addr || a.addr == b.addr && a.prefix_len < b.prefix_len,
    }
}

spec fn key_of(net: IpNet) -> NetKey {
    (
        match net.family {
            Family::V4 => 0u8,
            Family::V6 => 1u8,
        },
        net.addr,
        net.prefix_len,
    )
}

fn net_key(net: &IpNet) -> (key: NetKey)
    ensures
        key == key_of(*net),
{
    (
        match net.family {
            Family::V4 => 0,
            Family::V6 => 1,
        },
        net.addr,
        net.prefix_len,
    )
}

fn key_net(key: &NetKey) -> (net: IpNet)
    ensures
        key.0 <= 1 ==> key_of(net) == *key,
{
    IpNet {
        family: if key.0 == 0 {
            Family::V4
        } else {
            Family::V6
        },
        addr: key.1,
        prefix_len: key.2,
    }
}

/// The networks stand in ascending order.
spec fn weakly_ascending(nets: Seq<IpNet>) -> bool {
    forall|i: int, j: int|
        0 <= i < j < nets.len() ==> net_lt(#[trigger] nets[i], #[trigger] nets[j]) || nets[i] == nets[j]
}

/// The given networks in ascending order.
fn sorted(nets: &Vec<IpNet>) -> (list: Vec<IpNet>)
    ensures
        weakly_ascending(list@),
        forall|net: IpNet| #[trigger] list@.contains(net) <==> nets@.contains(net),
{
    let mut keys: Vec<NetKey> = Vec::new();
    let mut i: usize = 0;
    while i < nets.len()
        invariant
            i <= nets@.len(),
            keys@.len() == i,
            forall|k: int| 0 <= k < i ==> #[trigger] keys@[k] == key_of(nets@[k]),
        decreases nets@.len() - i,
    {
        keys.push(net_key(&nets[i]));
        i += 1;
    }
    let ghost unsorted = keys@;
    sort_keys(&mut keys);
    let ghost same = |key: NetKey| keys@.contains(key) <==> unsorted.contains(key);
    proof {
        assert forall|key: NetKey| #[trigger] same(key) by {
            broadcast use vstd::seq_lib::group_to_multiset_ensures;
            assert(keys@.contains(key) <==> keys@.to_multiset().count(key) > 0);
            assert(unsorted.contains(key) <==> unsorted.to_multiset().count(key) > 0);
        }
        assert forall|k: int| 0 <= k < keys@.len() implies (#[trigger] keys@[k]).0 <= 1 by {
            assert(keys@.contains(keys@[k]));
            assert(same(keys@[k]));
        }
    }
    let mut list: Vec<IpNet> = Vec::new();
    let mut j: usize = 0;
    while j < keys.len()
        invariant
            j <= keys@.len(),
            list@.len() == j,
            forall|k: int| 0 <= k < keys@.len() ==> (#[trigger] keys@[k]).0 <= 1,
            forall|k: int| 0 <= k < j ==> key_of(#[trigger] list@[k]) == keys@[k],
        decreases keys@.len() - j,
    {
        list.push(key_net(&keys[j]));
        j += 1;
    }
    proof {
        assert forall|k: int, l: int| 0 <= k < l < list@.len() implies net_lt(#[trigger] list@[k], #[trigger] list@[l]) || list@[k] == list@[l] by {
            assert(key_le(keys@[k], keys@[l]));
        }
        assert forall|net: IpNet| #[trigger] list@.contains(net) <==> nets@.contains(net) by {
            if list@.contains(net) {
                let m = list@.index_of(net);
                assert(keys@.contains(keys@[m]));
                assert(same(keys@[m]));
                let k = unsorted.index_of(keys@[m]);
                assert(key_of(nets@[k]) == key_of(net));
                assert(nets@[k] == net);
            }
            if nets@.contains(net) {
                let k = nets@.index_of(net);
                assert(unsorted[k] == key_of(net));
                assert(same(key_of(net)));
                let m = keys@.index_of(key_of(net));
                assert(key_of(list@[m]) == key_of(net));
                assert(list@[m] == net);
            }
        }
    }
    list
}

/// The given networks in ascending order, each once.
pub fn sorted_set(nets: &Vec<IpNet>) -> (set: Vec<IpNet>)
    ensures
        ascending(set@),
        forall|net: IpNet| #[trigger] set@.contains(net) <==> nets@.contains(net),
{
    let list: Vec<IpNet> = sorted(nets);
    let mut set: Vec<IpNet> = Vec::new();
    let mut i: usize = 0;
    while i < list.len()
        invariant
            i <= list@.len(),
            weakly_ascending(list@),
            ascending(set@),
            i > 0 ==> set@.len() > 0 && set@.last() == list@[i - 1],
            i == 0 ==> set@.len() == 0,
            forall|net: IpNet| #[trigger] set@.contains(net) <==> list@.take(i as int).contains(net),
        decreases list@.len() - i,
    {
        let net: IpNet = list[i];
        let ghost before = set@;
        proof {
            assert(list@.take(i + 1) == list@.take(i as int).push(net));
            assert forall|n: IpNet| #[trigger] list@.take(i + 1).contains(n) <==> list@.take(i as int).contains(n) || n == net by {
                lemma_push_contains(list@.take(i as int), net, n);
            }
        }
        if set.len() == 0 || net_before(&set[set.len() - 1], &net) {
            set.push(net);
            proof {
                assert forall|n: IpNet| #[trigger] set@.contains(n) <==> before.contains(n) || n == net by {
                    lemma_push_contains(before, net, n);
                }
                assert forall|k: int, l: int| 0 <= k < l < set@.len() implies net_lt(#[trigger] set@[k], #[trigger] set@[l]) by {
                    if l == before.len() && k < before.len() - 1 {
                        assert(net_lt(before[k], before[before.len() - 1]));
                    }
                }
            }
        } else {
            proof {
                assert(list@[i - 1] == net);
                assert(before.contains(net));
            }
        }
        i += 1;
    }
    assert(list@.take(list@.len() as int) == list@);
    set
}

/// The networks of `from` that are not in `without`, in ascending order.
pub fn difference(from: &Vec<IpNet>, without: &Vec<IpNet>) -> (rest: Vec<IpNet>)
    requires
        ascending(from@),
        ascending(without@),
    ensures
        rest@ == minus(from@, without@),
        ascending(rest@),
        forall|net: IpNet| #[trigger] rest@.contains(net) <==> from@.contains(net) && !without@.contains(net),
{
    let mut rest: Vec<IpNet> = Vec::new();
    let mut i: usize = 0;
    let mut j: usize = 0;
    while i < from.len()
        invariant
            ascending(from@),
            ascending(without@),
            ascending(rest@),
            i <= from@.len(),
            j <= without@.len(),
            forall|l: int, k: int| 0 <= l < j && i <= k < from@.len() ==> net_lt(#[trigger] without@[l], #[trigger] from@[k]),
            forall|m: int, k: int| 0 <= m < rest@.len() && i <= k < from@.len() ==> net_lt(#[trigger] rest@[m], #[trigger] from@[k]),
            forall|net: IpNet| #[trigger] rest@.contains(net) <==> from@.take(i as int).contains(net) && !without@.contains(net),
        decreases from@.len() - i,
    {
        let net: IpNet = from[i];
        let ghost before = rest@;
        while j < without.len() && net_before(&without[j], &net)
            invariant
                ascending(without@),
                j <= without@.len(),
                forall|l: int| 0 <= l < j ==> net_lt(#[trigger] without@[l], net),
            decreases without@.len() - j,
        {
            j += 1;
        }
        let found: bool = j < without.len() && without[j] == net;
        proof {
            if without@.contains(net) && !found {
                let l = without@.index_of(net);
                if l > j {
                    assert(net_lt(without@[j as int], without@[l]));
                }
            }
            if found {
                assert(without@.contains(net));
            }
            assert(from@.take(i + 1) == from@.take(i as int).push(net));
            assert forall|n: IpNet| #[trigger] from@.take(i + 1).contains(n) <==> from@.take(i as int).contains(n) || n == net by {
                lemma_push_contains(from@.take(i as int), net, n);
            }
            assert forall|l: int, k: int| 0 <= l < j && i + 1 <= k < from@.len() implies net_lt(#[trigger] without@[l], #[trigger] from@[k]) by {
                assert(net_lt(from@[i as int], from@[k]));
            }
        }
        if !found {
            rest.push(net);
            proof {
                assert forall|n: IpNet| #[trigger] rest@.contains(n) <==> before.contains(n) || n == net by {
                    lemma_push_contains(before, net, n);
                }
            }
        }
        i += 1;
    }
    assert(from@.take(from@.len() as int) == from@);
    proof {
        lemma_listed(rest@, |net: IpNet| from@.contains(net) && !without@.contains(net));
    }
    rest
}

/// What a list holds after one more item.
pub proof fn lemma_push_contains<T>(s: Seq<T>, item: T, x: T)
    ensures
        s.push(item).contains(x) <==> s.contains(x) || x == item,
{
    if s.contains(x) {
        let i = s.index_of(x);
        assert(s.push(item)[i] == x);
    }
    if x == item {
        assert(s.push(item)[s.len() as int] == x);
    }
    if s.push(item).contains(x) {
        let i = s.push(item).index_of(x);
        if i < s.len() {
            assert(s[i] == x);
        }
    }
}

/// A list in ascending order is settled by what it holds.
pub proof fn lemma_ascending_unique(a: Seq<IpNet>, b: Seq<IpNet>)
    requires
        ascending(a),
        ascending(b),
        forall|net: IpNet| #[trigger] a.contains(net) <==> b.contains(net),
    ensures
        a == b,
    decreases a.len(),
{
    if a.len() == 0 {
        if b.len() > 0 {
            assert(b.contains(b[0]));
            assert(a.contains(b[0]));
        }
        assert(a =~= b);
    } else if b.len() == 0 {
        assert(a.contains(a[0]));
    } else {
        let x = a.last();
        let y = b.last();
        assert(a.contains(x) && b.contains(y));
        assert(a.contains(y));
        let i = b.index_of(x);
        let j = a.index_of(y);
        if x != y {
            assert(net_lt(x, y));
            assert(net_lt(y, x));
        }
        assert forall|net: IpNet| #[trigger] a.drop_last().contains(net) <==> b.drop_last().contains(net) by {
            assert(a == a.drop_last().push(x));
            assert(b == b.drop_last().push(x));
            lemma_push_contains(a.drop_last(), x, net);
            lemma_push_contains(b.drop_last(), x, net);
            if net == x {
                if a.drop_last().contains(x) {
                    let k = a.drop_last().index_of(x);
                    assert(net_lt(a[k], a.last()));
                }
                if b.drop_last().contains(x) {
                    let k = b.drop_last().index_of(x);
                    assert(net_lt(b[k], b.last()));
                }
            }
        }
        lemma_ascending_unique(a.drop_last(), b.drop_last());
        assert(a == a.drop_last().push(x));
        assert(b == b.drop_last().push(x));
    }
}

/// The networks with a property, in ascending order. There is at most one such list.
pub open spec fn listed(property: spec_fn(IpNet) -> bool) -> Seq<IpNet> {
    choose|nets: Seq<IpNet>| #[trigger] is_listed(nets, property)
}

/// The list has exactly the networks with the property, in ascending order.
pub open spec fn is_listed(nets: Seq<IpNet>, property: spec_fn(IpNet) -> bool) -> bool {
    &&& ascending(nets)
    &&& forall|net: IpNet| #[trigger] nets.contains(net) <==> property(net)
}

/// A list that has exactly the networks with the property is the list of them.
pub proof fn lemma_listed(nets: Seq<IpNet>, property: spec_fn(IpNet) -> bool)
    requires
        is_listed(nets, property),
    ensures
        listed(property) == nets,
{
    assert(is_listed(listed(property), property));
    assert forall|net: IpNet| #[trigger] listed(property).contains(net) <==> nets.contains(net) by {
        assert(nets.contains(net) <==> property(net));
    }
    lemma_ascending_unique(listed(property), nets);
}

/// The networks of one list that are not in another.
pub open spec fn minus(from: Seq<IpNet>, without: Seq<IpNet>) -> Seq<IpNet> {
    listed(|net: IpNet| from.contains(net) && !without.contains(net))
}

/// Some network of the list, named by its lowest address, is `net`.
pub open spec fn names(nets: Seq<IpNet>, net: IpNet) -> bool {
    exists|i: int| 0 <= i < nets.len() && (#[trigger] nets[i]).truncated() == net
}

/// The networks of a list, each named by its lowest address, in ascending order and each once.
pub open spec fn normalized(nets: Seq<IpNet>) -> Seq<IpNet> {
    listed(|net: IpNet| names(nets, net))
}

/// The networks of a list, each named by its lowest address, in ascending order and each once.
pub fn normalize(nets: &Vec<IpNet>) -> (set: Vec<IpNet>)
    requires
        all_wf(nets@),
    ensures
        set@ == normalized(nets@),
        ascending(set@),
        all_wf(set@),
        all_truncated(set@),
        forall|net: IpNet| #[trigger] set@.contains(net) <==> names(nets@, net),
{
    let mut short: Vec<IpNet> = Vec::new();
    let mut i: usize = 0;
    while i < nets.len()
        invariant
            i <= nets@.len(),
            all_wf(nets@),
            short@.len() == i,
            forall|k: int| 0 <= k < i ==> #[trigger] short@[k] == nets@[k].truncated() && short@[k].wf()
                && short@[k].is_truncated(),
        decreases nets@.len() - i,
    {
        short.push(nets[i].trunc());
        i += 1;
    }
    let set: Vec<IpNet> = sorted_set(&short);
    proof {
        assert forall|net: IpNet| #[trigger] set@.contains(net) <==> names(nets@, net) by {
            if set@.contains(net) {
                let k = short@.index_of(net);
                assert(nets@[k].truncated() == net);
            }
            if names(nets@, net) {
                let k = choose|k: int| 0 <= k < nets@.len() && (#[trigger] nets@[k]).truncated() == net;
                assert(short@[k] == net);
            }
        }
        assert forall|k: int| 0 <= k < set@.len() implies (#[trigger] set@[k]).wf() && set@[k].is_truncated() by {
            assert(set@.contains(set@[k]));
            let j = short@.index_of(set@[k]);
            assert(short@[j].wf());
        }
        lemma_listed(set@, |net: IpNet| names(nets@, net));
    }
    set
}

/// Puts a network into its place in a list in ascending order.
proof fn lemma_insert(nets: Seq<IpNet>, item: IpNet) -> (out: Seq<IpNet>)
    requires
        ascending(nets),
    ensures
        ascending(out),
        forall|net: IpNet| #[trigger] out.contains(net) <==> nets.contains(net) || net == item,
    decreases nets.len(),
{
    if nets.len() == 0 || net_lt(nets.last(), item) {
        let out = nets.push(item);
        assert forall|net: IpNet| #[trigger] out.contains(net) <==> nets.contains(net) || net == item by {
            lemma_push_contains(nets, item, net);
        }
        assert forall|i: int, j: int| 0 <= i < j < out.len() implies net_lt(#[trigger] out[i], #[trigger] out[j]) by {
            if j == nets.len() && i < nets.len() - 1 {
                assert(net_lt(nets[i], nets.last()));
            }
        }
        out
    } else if nets.last() == item {
        assert(nets.contains(item));
        nets
    } else {
        let last = nets.last();
        let front = nets.drop_last();
        let part = lemma_insert(front, item);
        let out = part.push(last);
        assert(nets == front.push(last));
        assert forall|net: IpNet| #[trigger] out.contains(net) <==> nets.contains(net) || net == item by {
            lemma_push_contains(front, last, net);
            lemma_push_contains(part, last, net);
        }
        assert forall|i: int, j: int| 0 <= i < j < out.len() implies net_lt(#[trigger] out[i], #[trigger] out[j]) by {
            if j == part.len() {
                assert(part.contains(part[i]));
                if part[i] != item {
                    let k = front.index_of(part[i]);
                    assert(net_lt(nets[k], nets[nets.len() - 1]));
                }
            }
        }
        out
    }
}

/// Networks that all stand in some list can be listed.
pub proof fn lemma_listed_exists(nets: Seq<IpNet>, property: spec_fn(IpNet) -> bool)
    requires
        forall|net: IpNet| #[trigger] property(net) ==> nets.contains(net),
    ensures
        is_listed(listed(property), property),
{
    let out = lemma_sort(nets, property);
    assert(is_listed(out, property));
}

/// The networks of a list with a property, in ascending order.
proof fn lemma_sort(nets: Seq<IpNet>, property: spec_fn(IpNet) -> bool) -> (out: Seq<IpNet>)
    ensures
        ascending(out),
        forall|net: IpNet| #[trigger] out.contains(net) <==> nets.contains(net) && property(net),
    decreases nets.len(),
{
    if nets.len() == 0 {
        Seq::empty()
    } else {
        let last = nets.last();
        let front = nets.drop_last();
        assert(nets == front.push(last));
        let part = lemma_sort(front, property);
        assert forall|net: IpNet| #[trigger] nets.contains(net) <==> front.contains(net) || net == last by {
            lemma_push_contains(front, last, net);
        }
        if property(last) {
            let out = lemma_insert(part, last);
            assert forall|net: IpNet| #[trigger] out.contains(net) <==> nets.contains(net) && property(net) by {
                assert(nets.contains(net) <==> front.contains(net) || net == last);
            }
            out
        } else {
            assert forall|net: IpNet| #[trigger] part.contains(net) <==> nets.contains(net) && property(net) by {
                assert(nets.contains(net) <==> front.contains(net) || net == last);
            }
            part
        }
    }
}

/// What one list has and another lacks.
pub proof fn lemma_minus(from: Seq<IpNet>, without: Seq<IpNet>)
    ensures
        ascending(minus(from, without)),
        forall|net: IpNet| #[trigger] minus(from, without).contains(net) <==> from.contains(net) && !without.contains(net),
{
    lemma_listed_exists(from, |net: IpNet| from.contains(net) && !without.contains(net));
}

/// What a normalized list has.
pub proof fn lemma_normalized(nets: Seq<IpNet>)
    ensures
        ascending(normalized(nets)),
        forall|net: IpNet| #[trigger] normalized(nets).contains(net) <==> names(nets, net),
{
    let short = nets.map_values(|net: IpNet| net.truncated());
    let property = |net: IpNet| names(nets, net);
    assert forall|net: IpNet| #[trigger] property(net) implies short.contains(net) by {
        let i = choose|i: int| 0 <= i < nets.len() && (#[trigger] nets[i]).truncated() == net;
        assert(short[i] == net);
    }
    lemma_listed_exists(short, property);
}

/// What one list has and another lacks is what the difference holds, each once and in order.
pub proof fn law_difference(from: Seq<IpNet>, without: Seq<IpNet>, net: IpNet, i: int, j: int)
    ensures
        minus(from, without).contains(net) <==> (exists|k: int| 0 <= k < from.len() && #[trigger] from[k] == net) && (
        forall|k: int| 0 <= k < without.len() ==> #[trigger] without[k] != net),
        0 <= i < j < minus(from, without).len() ==> net_lt(minus(from, without)[i], minus(from, without)[j]),
{
    lemma_minus(from, without);
    assert(minus(from, without).contains(net) <==> from.contains(net) && !without.contains(net));
    if from.contains(net) {
        let k = from.index_of(net);
        assert(from[k] == net);
    }
    if exists|k: int| 0 <= k < without.len() && #[trigger] without[k] == net {
        assert(without.contains(net));
    }
}

/// A normalized list holds every network of the list, named by its lowest address, and nothing
/// else, each once and in order.
pub proof fn law_normal_form(nets: Seq<IpNet>, net: IpNet, i: int, j: int)
    ensures
        normalized(nets).contains(net) <==> exists|k: int| 0 <= k < nets.len() && (#[trigger] nets[k]).truncated() == net,
        0 <= i < j < normalized(nets).len() ==> net_lt(normalized(nets)[i], normalized(nets)[j]),
{
    lemma_normalized(nets);
    assert(normalized(nets).contains(net) <==> names(nets, net));
}

} // verus!
