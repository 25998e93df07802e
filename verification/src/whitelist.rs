//! The commands that renew the whitelists.

use vstd::prelude::*;

use crate::blocks::lemma_nested;
use crate::ipset::{named_network, parse_network};
use crate::listing::{is_readable, text_reads};
use crate::net::{
    all_truncated, all_wf, ascending, covered, law_enclosure, law_truncation, lemma_truncated, lies_in, net_lt, Family,
    IpNet,
};
use crate::netset::{
    is_listed, lemma_listed, lemma_listed_exists, lemma_normalized, lemma_push_contains, listed, names, normalize,
    normalized,
};
use crate::objects::{
    all_read_back, element_commands, flush_set_command, named_element_command, object_views, set_view, ListObjectView,
    NfFamily, NfObject, ObjectView, SetType, GITHUB_WHITELIST_IPV4_SET, GITHUB_WHITELIST_IPV6_SET, WHITELIST_IPV4_SET,
    WHITELIST_IPV6_SET,
};

verus! {

/// A network of the family is in the list, named by its lowest address.
pub open spec fn names_in(nets: Seq<IpNet>, family: Family, net: IpNet) -> bool {
    names(nets, net) && net.family == family
}

/// `net` is a network of the family in the list, and no larger one of them encloses it.
pub open spec fn is_outermost(nets: Seq<IpNet>, family: Family, net: IpNet) -> bool {
    &&& names_in(nets, family, net)
    &&& forall|outer: IpNet| #[trigger]
        names_in(nets, family, outer) && outer.prefix_len < net.prefix_len ==> !outer.encloses(net)
}

/// The networks of the family in the list that no larger one of them encloses, in ascending order.
pub open spec fn outermost(nets: Seq<IpNet>, family: Family) -> Seq<IpNet> {
    listed(|net: IpNet| is_outermost(nets, family, net))
}

/// The element type of a set of the family.
pub open spec fn family_type(family: Family) -> SetType {
    match family {
        Family::V4 => SetType::Ipv4Addr,
        Family::V6 => SetType::Ipv6Addr,
    }
}

/// The commands that replace the elements of a whitelist: it is emptied and filled again.
pub open spec fn whitelist_commands(name: Seq<char>, nets: Seq<IpNet>, family: Family) -> Seq<ObjectView> {
    seq![ObjectView::Flush(set_view(name, family_type(family), false))] + element_commands(
        name,
        outermost(nets, family),
        true,
    )
}

/// The family that a flag stands for.
pub open spec fn flag_family(ipv4: bool) -> Family {
    if ipv4 {
        Family::V4
    } else {
        Family::V6
    }
}

/// Of several networks with the property that enclose `net`, the largest is enclosed by none.
proof fn lemma_outermost_encloser(nets: Seq<IpNet>, family: Family, net: IpNet, outer: IpNet) -> (top: IpNet)
    requires
        all_wf(nets),
        names_in(nets, family, outer),
        outer.encloses(net),
        outer.prefix_len < net.prefix_len,
    ensures
        is_outermost(nets, family, top),
        top.encloses(net),
        top.prefix_len < net.prefix_len,
    decreases outer.prefix_len,
{
    if exists|wider: IpNet| #[trigger] names_in(nets, family, wider) && wider.prefix_len < outer.prefix_len && wider.encloses(outer) {
        let wider = choose|wider: IpNet| #[trigger] names_in(nets, family, wider) && wider.prefix_len < outer.prefix_len && wider.encloses(outer);
        lemma_outermost_encloser(nets, family, net, wider)
    } else {
        outer
    }
}

/// A larger network that encloses another stands before it.
proof fn lemma_encloser_first(outer: IpNet, inner: IpNet)
    requires
        outer.wf(),
        inner.wf(),
        outer.is_truncated(),
        inner.is_truncated(),
        outer.encloses(inner),
        outer.prefix_len < inner.prefix_len,
    ensures
        net_lt(outer, inner),
{
}

/// A listed network is valid and named by its lowest address.
pub proof fn lemma_named_valid(nets: Seq<IpNet>, net: IpNet)
    requires
        all_wf(nets),
        names(nets, net),
    ensures
        net.wf(),
        net.is_truncated(),
{
    let i = choose|i: int| 0 <= i < nets.len() && (#[trigger] nets[i]).truncated() == net;
    lemma_truncated(nets[i]);
}

/// The outermost networks can be listed.
pub proof fn lemma_outermost(nets: Seq<IpNet>, family: Family)
    ensures
        is_listed(outermost(nets, family), |net: IpNet| is_outermost(nets, family, net)),
        forall|net: IpNet| #[trigger] outermost(nets, family).contains(net) <==> is_outermost(nets, family, net),
{
    let property = |net: IpNet| is_outermost(nets, family, net);
    lemma_normalized(nets);
    assert forall|net: IpNet| #[trigger] property(net) implies normalized(nets).contains(net) by {
        assert(names(nets, net));
    }
    lemma_listed_exists(normalized(nets), property);
}

/// The networks of the family that no larger one of them encloses, in ascending order.
pub fn outermost_networks(networks: &Vec<IpNet>, family: Family) -> (kept: Vec<IpNet>)
    requires
        all_wf(networks@),
    ensures
        kept@ == outermost(networks@, family),
        ascending(kept@),
        all_wf(kept@),
        all_truncated(kept@),
        forall|net: IpNet| #[trigger] kept@.contains(net) <==> is_outermost(networks@, family, net),
{
    let all: Vec<IpNet> = normalize(networks);
    let mut kept: Vec<IpNet> = Vec::new();
    let mut i: usize = 0;
    while i < all.len()
        invariant
            i <= all@.len(),
            all_wf(networks@),
            ascending(all@),
            all_wf(all@),
            all_truncated(all@),
            forall|net: IpNet| #[trigger] all@.contains(net) <==> names(networks@, net),
            ascending(kept@),
            all_wf(kept@),
            all_truncated(kept@),
            forall|m: int, k: int| 0 <= m < kept@.len() && i <= k < all@.len() ==> net_lt(#[trigger] kept@[m], #[trigger] all@[k]),
            forall|net: IpNet| #[trigger]
                kept@.contains(net) <==> all@.take(i as int).contains(net) && is_outermost(networks@, family, net),
        decreases all@.len() - i,
    {
        let candidate: IpNet = all[i];
        let ghost before = kept@;
        proof {
            assert(all@.contains(candidate));
            assert(all@.take(i + 1) == all@.take(i as int).push(candidate));
            assert forall|n: IpNet| #[trigger] all@.take(i + 1).contains(n) <==> all@.take(i as int).contains(n) || n == candidate by {
                lemma_push_contains(all@.take(i as int), candidate, n);
            }
        }
        if candidate.family == family {
            let mut enclosed: bool = false;
            let mut j: usize = 0;
            while j < kept.len()
                invariant
                    j <= kept@.len(),
                    candidate.wf(),
                    all_wf(kept@),
                    enclosed == exists|k: int|
                        0 <= k < j && (#[trigger] kept@[k]).prefix_len < candidate.prefix_len && kept@[k].encloses(candidate),
                decreases kept@.len() - j,
            {
                if kept[j].prefix_len < candidate.prefix_len && kept[j].contains(&candidate) {
                    enclosed = true;
                }
                j += 1;
            }
            proof {
                if enclosed {
                    let k = choose|k: int| 0 <= k < j && (#[trigger] kept@[k]).prefix_len < candidate.prefix_len && kept@[k].encloses(candidate);
                    assert(kept@.contains(kept@[k]));
                    assert(names_in(networks@, family, kept@[k]));
                    assert(!is_outermost(networks@, family, candidate));
                } else if !is_outermost(networks@, family, candidate) {
                    let outer = choose|outer: IpNet| #[trigger] names_in(networks@, family, outer) && outer.prefix_len < candidate.prefix_len && outer.encloses(candidate);
                    let top = lemma_outermost_encloser(networks@, family, candidate, outer);
                    assert(names_in(networks@, family, top));
                    lemma_named_valid(networks@, top);
                    lemma_encloser_first(top, candidate);
                    assert(all@.contains(top));
                    let k = all@.index_of(top);
                    if k >= i {
                        if k > i {
                            assert(net_lt(all@[i as int], all@[k]));
                        }
                    }
                    assert(k < i);
                    assert(all@.take(i as int)[k] == top);
                    assert(all@.take(i as int).contains(top));
                    assert(kept@.contains(top));
                    let m = kept@.index_of(top);
                    assert(kept@[m].prefix_len < candidate.prefix_len && kept@[m].encloses(candidate));
                }
            }
            if !enclosed {
                kept.push(candidate);
                proof {
                    assert forall|n: IpNet| #[trigger] kept@.contains(n) <==> before.contains(n) || n == candidate by {
                        lemma_push_contains(before, candidate, n);
                    }
                }
            }
        }
        i += 1;
    }
    proof {
        assert(all@.take(all@.len() as int) == all@);
        assert forall|net: IpNet| #[trigger] kept@.contains(net) <==> is_outermost(networks@, family, net) by {
            if is_outermost(networks@, family, net) {
                assert(all@.contains(net));
            }
        }
        lemma_listed(kept@, |net: IpNet| is_outermost(networks@, family, net));
    }
    kept
}

/// Appends the commands that replace the elements of a whitelist by the networks of one family.
/// A network inside a larger one is left out.
pub fn append_whitelist_networks(commands: &mut Vec<NfObject>, name: &str, networks: &Vec<IpNet>, ipv4: bool)
    requires
        all_wf(networks@),
    ensures
        object_views(final(commands)@) == object_views(old(commands)@) + whitelist_commands(
            name@,
            networks@,
            flag_family(ipv4),
        ),
        all_read_back(outermost(networks@, flag_family(ipv4))),
{
    let family: Family = if ipv4 {
        Family::V4
    } else {
        Family::V6
    };
    let desired: Vec<IpNet> = outermost_networks(networks, family);
    let set_type: SetType = match family {
        Family::V4 => SetType::Ipv4Addr,
        Family::V6 => SetType::Ipv6Addr,
    };
    commands.push(flush_set_command(name, set_type));
    if let Some(command) = named_element_command(name, &desired, true) {
        commands.push(command);
    }
    assert(object_views(commands@) =~= object_views(old(commands)@) + whitelist_commands(name@, networks@, family));
}

/// Every value names a network.
pub open spec fn all_named(values: Seq<String>) -> bool {
    forall|i: int| 0 <= i < values.len() ==> named_network((#[trigger] values[i])@) is Some
}

/// The networks that the values name.
pub open spec fn named_networks(values: Seq<String>) -> Seq<IpNet> {
    values.map_values(|value: String| named_network(value@)->0)
}

/// The value at `i` is the first that names no network.
pub open spec fn first_unnamed(values: Seq<String>, i: int) -> bool {
    &&& 0 <= i < values.len()
    &&& named_network(values[i]@) is None
    &&& all_named(values.take(i))
}

/// Appends the commands that replace the elements of a whitelist by those of the named networks
/// that are of one family. A value that names no network is handed back, and nothing is appended.
pub fn append_whitelist_set(commands: &mut Vec<NfObject>, name: &str, networks: &Vec<String>, ipv4: bool) -> (result: Result<(), String>)
    ensures
        result is Ok <==> all_named(networks@),
        result is Ok ==> object_views(final(commands)@) == object_views(old(commands)@) + whitelist_commands(
            name@,
            named_networks(networks@),
            flag_family(ipv4),
        ),
        result is Ok ==> all_read_back(outermost(named_networks(networks@), flag_family(ipv4))),
        result matches Err(value) ==> final(commands)@ == old(commands)@ && exists|i: int| #[trigger]
            first_unnamed(networks@, i) && value@ == networks@[i]@,
{
    let mut parsed: Vec<IpNet> = Vec::new();
    let mut i: usize = 0;
    while i < networks.len()
        invariant
            i <= networks@.len(),
            commands@ == old(commands)@,
            parsed@.len() == i,
            all_wf(parsed@),
            forall|k: int| 0 <= k < i ==> named_network(networks@[k]@) == Some(#[trigger] parsed@[k]),
        decreases networks@.len() - i,
    {
        match parse_network(networks[i].as_str()) {
            Some(net) => {
                parsed.push(net);
            },
            None => {
                proof {
                    assert forall|k: int| 0 <= k < i implies named_network((#[trigger] networks@.take(i as int)[k])@) is Some by {
                        assert(named_network(networks@[k]@) == Some(parsed@[k]));
                    }
                    assert(first_unnamed(networks@, i as int));
                    assert(named_network(networks@[i as int]@) is None);
                }
                return Err(networks[i].clone());
            },
        }
        i += 1;
    }
    proof {
        assert forall|k: int| 0 <= k < networks@.len() implies named_network((#[trigger] networks@[k])@) is Some by {
            assert(named_network(networks@[k]@) == Some(parsed@[k]));
        }
        assert(parsed@ =~= named_networks(networks@));
    }
    append_whitelist_networks(commands, name, &parsed, ipv4);
    Ok(())
}

/// The commands for a configured whitelist; none if it is not given.
pub open spec fn configured_commands(name: Seq<char>, values: Option<Seq<String>>, family: Family) -> Seq<ObjectView> {
    match values {
        Some(values) => whitelist_commands(name, named_networks(values), family),
        None => Seq::empty(),
    }
}

/// The commands for the whitelists of GitHub; none if they are not given.
pub open spec fn github_commands(nets: Option<Seq<IpNet>>) -> Seq<ObjectView> {
    match nets {
        Some(nets) => whitelist_commands(GITHUB_WHITELIST_IPV4_SET@, nets, Family::V4) + whitelist_commands(
            GITHUB_WHITELIST_IPV6_SET@,
            nets,
            Family::V6,
        ),
        None => Seq::empty(),
    }
}

/// The commands for the whitelists that are given; one that is not given is left as it is.
pub open spec fn whitelist_updates(
    ipv4: Option<Seq<String>>,
    ipv6: Option<Seq<String>>,
    github: Option<Seq<IpNet>>,
) -> Seq<ObjectView> {
    configured_commands(WHITELIST_IPV4_SET@, ipv4, Family::V4) + configured_commands(
        WHITELIST_IPV6_SET@,
        ipv6,
        Family::V6,
    ) + github_commands(github)
}

/// The values of an optional list.
pub open spec fn given<T>(list: Option<Vec<T>>) -> Option<Seq<T>> {
    match list {
        Some(values) => Some(values@),
        None => None,
    }
}

/// Every value of an optional list names a network.
pub open spec fn given_named(list: Option<Vec<String>>) -> bool {
    list matches Some(values) ==> all_named(values@)
}

/// A value of the list is the first that names no network.
pub open spec fn is_first_unnamed(list: Option<Vec<String>>, value: Seq<char>) -> bool {
    list matches Some(values) && exists|i: int| #[trigger] first_unnamed(values@, i) && value == values@[i]@
}

/// The elements of a configured whitelist are read back.
pub open spec fn configured_read_back(values: Option<Seq<String>>, family: Family) -> bool {
    values matches Some(list) ==> all_read_back(outermost(named_networks(list), family))
}

/// The elements of the whitelists are read back as their networks.
pub open spec fn whitelists_read_back(
    ipv4: Option<Seq<String>>,
    ipv6: Option<Seq<String>>,
    github: Option<Seq<IpNet>>,
) -> bool {
    &&& configured_read_back(ipv4, Family::V4)
    &&& configured_read_back(ipv6, Family::V6)
    &&& github matches Some(nets) ==> all_read_back(outermost(nets, Family::V4)) && all_read_back(
        outermost(nets, Family::V6),
    )
}

/// Appends the commands for a configured whitelist, if it is given.
fn append_configured(commands: &mut Vec<NfObject>, name: &str, networks: &Option<Vec<String>>, ipv4: bool) -> (result: Result<(), String>)
    ensures
        result is Ok <==> given_named(*networks),
        result is Ok ==> object_views(final(commands)@) == object_views(old(commands)@) + configured_commands(
            name@,
            given(*networks),
            flag_family(ipv4),
        ),
        result is Ok ==> configured_read_back(given(*networks), flag_family(ipv4)),
        result matches Err(value) ==> final(commands)@ == old(commands)@ && is_first_unnamed(*networks, value@),
{
    match networks {
        Some(values) => append_whitelist_set(commands, name, values, ipv4),
        None => {
            assert(object_views(commands@) =~= object_views(commands@) + Seq::<ObjectView>::empty());
            Ok(())
        },
    }
}

/// Appends the commands for the whitelists that are given: those of the configuration, and that
/// of GitHub for both families. The first value that names no network is handed back.
pub fn append_whitelist(
    commands: &mut Vec<NfObject>,
    ipv4_networks: &Option<Vec<String>>,
    ipv6_networks: &Option<Vec<String>>,
    github_networks: &Option<Vec<IpNet>>,
) -> (result: Result<(), String>)
    requires
        github_networks matches Some(nets) ==> all_wf(nets@),
    ensures
        result is Ok <==> given_named(*ipv4_networks) && given_named(*ipv6_networks),
        result is Ok ==> object_views(final(commands)@) == object_views(old(commands)@) + whitelist_updates(
            given(*ipv4_networks),
            given(*ipv6_networks),
            given(*github_networks),
        ),
        result is Ok ==> whitelists_read_back(given(*ipv4_networks), given(*ipv6_networks), given(*github_networks)),
        result matches Err(value) ==> if !given_named(*ipv4_networks) {
            final(commands)@ == old(commands)@ && is_first_unnamed(*ipv4_networks, value@)
        } else {
            &&& object_views(final(commands)@) == object_views(old(commands)@) + configured_commands(
                WHITELIST_IPV4_SET@,
                given(*ipv4_networks),
                Family::V4,
            )
            &&& is_first_unnamed(*ipv6_networks, value@)
        },
{
    let ghost start = object_views(commands@);
    let ghost ipv4 = configured_commands(WHITELIST_IPV4_SET@, given(*ipv4_networks), Family::V4);
    let ghost ipv6 = configured_commands(WHITELIST_IPV6_SET@, given(*ipv6_networks), Family::V6);
    match append_configured(commands, WHITELIST_IPV4_SET, ipv4_networks, true) {
        Ok(()) => {},
        Err(value) => return Err(value),
    }
    match append_configured(commands, WHITELIST_IPV6_SET, ipv6_networks, false) {
        Ok(()) => {},
        Err(value) => return Err(value),
    }
    if let Some(nets) = github_networks {
        append_whitelist_networks(commands, GITHUB_WHITELIST_IPV4_SET, nets, true);
        append_whitelist_networks(commands, GITHUB_WHITELIST_IPV6_SET, nets, false);
    }
    proof {
        let github = github_commands(given(*github_networks));
        assert(object_views(commands@) =~= start + ipv4 + ipv6 + github);
        assert(start + ipv4 + ipv6 + github =~= start + (ipv4 + ipv6 + github));
    }
    Ok(())
}

/// Leaving out enclosed networks keeps the addresses of the family.
pub proof fn law_outermost_keeps_addresses(nets: Seq<IpNet>, family: Family, kept: Seq<IpNet>, a: int)
    requires
        all_wf(nets),
        forall|net: IpNet| #[trigger] kept.contains(net) <==> is_outermost(nets, family, net),
    ensures
        covered(kept, family, a) <==> covered(nets, family, a),
{
    if covered(nets, family, a) {
        let i = choose|i: int| 0 <= i < nets.len() && (#[trigger] nets[i]).family == family && nets[i].has(a);
        let net = nets[i].truncated();
        lemma_truncated(nets[i]);
        assert(names_in(nets, family, net));
        assert(net.has(a));
        if is_outermost(nets, family, net) {
            assert(kept.contains(net));
            let k = kept.index_of(net);
            assert(kept[k].has(a));
        } else {
            let outer = choose|outer: IpNet| #[trigger] names_in(nets, family, outer) && outer.prefix_len < net.prefix_len && outer.encloses(net);
            let top = lemma_outermost_encloser(nets, family, net, outer);
            assert(kept.contains(top));
            let k = kept.index_of(top);
            assert(kept[k].has(a));
        }
    }
    if covered(kept, family, a) {
        let k = choose|k: int| 0 <= k < kept.len() && (#[trigger] kept[k]).family == family && kept[k].has(a);
        assert(kept.contains(kept[k]));
        let i = choose|i: int| 0 <= i < nets.len() && (#[trigger] nets[i]).truncated() == kept[k];
        lemma_truncated(nets[i]);
        assert(nets[i].has(a));
    }
}

/// The elements of a whitelist do not overlap: no address lies in two of them.
pub proof fn law_outermost_disjoint(nets: Seq<IpNet>, family: Family, x: IpNet, y: IpNet, a: int)
    requires
        all_wf(nets),
        is_outermost(nets, family, x),
        is_outermost(nets, family, y),
        x.has(a),
        y.has(a),
    ensures
        x == y,
{
    lemma_named_valid(nets, x);
    lemma_named_valid(nets, y);
    assert(names_in(nets, family, x) && names_in(nets, family, y));
    if x.prefix_len <= y.prefix_len {
        lemma_nested(x, y, a);
    }
    if y.prefix_len <= x.prefix_len {
        lemma_nested(y, x, a);
    }
}

/// Every value counts: a list is refused for the first value that is neither a network nor an
/// address, and else each value brings what it is read as.
pub proof fn law_every_value_counts(values: Seq<String>, i: int)
    requires
        0 <= i < values.len(),
    ensures
        all_named(values) <==> forall|k: int| 0 <= k < values.len() ==> is_readable((#[trigger] values[k])@),
        first_unnamed(values, i) <==> !is_readable(values[i]@) && forall|k: int|
            0 <= k < i ==> is_readable((#[trigger] values[k])@),
        named_networks(values).len() == values.len(),
        is_readable(values[i]@) ==> text_reads(values[i]@, named_networks(values)[i]),
{
    assert forall|text: Seq<char>| #[trigger] is_readable(text) <==> named_network(text) is Some by {
        if named_network(text) is Some {
            assert(text_reads(text, named_network(text)->0));
        }
    }
    let front = values.take(i);
    if all_named(front) {
        assert forall|k: int| 0 <= k < i implies is_readable((#[trigger] values[k])@) by {
            assert(named_network(front[k]@) is Some);
        }
    }
    if forall|k: int| 0 <= k < i ==> is_readable((#[trigger] values[k])@) {
        assert forall|k: int| 0 <= k < front.len() implies named_network((#[trigger] front[k])@) is Some by {
            assert(is_readable(values[k]@));
        }
    }
}

/// What a whitelist holds: each of its networks of the family, by its lowest address, unless all
/// addresses of it lie in a larger one of them. The order is ascending.
pub proof fn law_outermost_are_not_enclosed(nets: Seq<IpNet>, family: Family, net: IpNet, i: int, j: int)
    requires
        all_wf(nets),
    ensures
        outermost(nets, family).contains(net) <==> {
            &&& net.family == family
            &&& exists|k: int| 0 <= k < nets.len() && (#[trigger] nets[k]).truncated() == net
            &&& forall|k: int|
                0 <= k < nets.len() && (#[trigger] nets[k]).family == family && nets[k].prefix_len < net.prefix_len
                    ==> exists|a: int| lies_in(a, net) && !lies_in(a, nets[k])
        },
        0 <= i < j < outermost(nets, family).len() ==> net_lt(outermost(nets, family)[i], outermost(nets, family)[j]),
{
    lemma_outermost(nets, family);
    if net.family == family && names(nets, net) {
        lemma_named_valid(nets, net);
        assert forall|k: int|
            0 <= k < nets.len() && (#[trigger] nets[k]).family == family && nets[k].prefix_len < net.prefix_len implies (
        !nets[k].truncated().encloses(net) <==> exists|a: int| lies_in(a, net) && !lies_in(a, nets[k])) by {
            lemma_truncated(nets[k]);
            law_truncation(nets[k]);
            law_enclosure(nets[k].truncated(), net);
            if !nets[k].truncated().encloses(net) {
                let a = choose|a: int| #[trigger] lies_in(a, net) && !lies_in(a, nets[k].truncated());
                assert(lies_in(a, nets[k].truncated()) <==> lies_in(a, nets[k]));
                assert(lies_in(a, net) && !lies_in(a, nets[k]));
            }
            if exists|a: int| lies_in(a, net) && !lies_in(a, nets[k]) {
                let a = choose|a: int| lies_in(a, net) && !lies_in(a, nets[k]);
                assert(lies_in(a, nets[k].truncated()) <==> lies_in(a, nets[k]));
            }
        }
        if is_outermost(nets, family, net) {
            assert forall|k: int|
                0 <= k < nets.len() && (#[trigger] nets[k]).family == family && nets[k].prefix_len < net.prefix_len implies exists|a: int|
                lies_in(a, net) && !lies_in(a, nets[k]) by {
                assert(names_in(nets, family, nets[k].truncated()));
            }
        } else {
            let outer = choose|outer: IpNet| #[trigger]
                names_in(nets, family, outer) && outer.prefix_len < net.prefix_len && outer.encloses(net);
            let k = choose|k: int| 0 <= k < nets.len() && (#[trigger] nets[k]).truncated() == outer;
            assert(nets[k].family == family);
        }
    }
}

/// The commands for the whitelists go to the four sets of their own: each is emptied, and then has
/// the outermost networks of its family. A whitelist that is not given has no commands.
pub proof fn law_whitelists_go_to_their_sets(
    ipv4: Option<Seq<String>>,
    ipv6: Option<Seq<String>>,
    github: Option<Seq<IpNet>>,
    name: Seq<char>,
    nets: Seq<IpNet>,
)
    ensures
        whitelist_updates(ipv4, ipv6, github) == (match ipv4 {
            Some(values) => whitelist_commands("firehol_whitelist_ipv4"@, named_networks(values), Family::V4),
            None => Seq::empty(),
        }) + (match ipv6 {
            Some(values) => whitelist_commands("firehol_whitelist_ipv6"@, named_networks(values), Family::V6),
            None => Seq::empty(),
        }) + (match github {
            Some(ranges) => whitelist_commands("GithubWhitelistIPv4"@, ranges, Family::V4) + whitelist_commands(
                "GithubWhitelistIPv6"@,
                ranges,
                Family::V6,
            ),
            None => Seq::empty(),
        }),
        whitelist_commands(name, nets, Family::V4) == seq![
            ObjectView::Flush(
                ListObjectView::NetSet {
                    family: NfFamily::INet,
                    table: "firehol"@,
                    name,
                    set_type: SetType::Ipv4Addr,
                    interval: false,
                },
            ),
        ] + element_commands(name, outermost(nets, Family::V4), true),
        whitelist_commands(name, nets, Family::V6) == seq![
            ObjectView::Flush(
                ListObjectView::NetSet {
                    family: NfFamily::INet,
                    table: "firehol"@,
                    name,
                    set_type: SetType::Ipv6Addr,
                    interval: false,
                },
            ),
        ] + element_commands(name, outermost(nets, Family::V6), true),
        flag_family(true) == Family::V4,
        flag_family(false) == Family::V6,
{
}

} // verus!
