//! Laws of merging networks into blocks.

use vstd::arithmetic::div_mod::{lemma_fundamental_div_mod, lemma_fundamental_div_mod_converse, lemma_mod_bound};
use vstd::arithmetic::power2::{lemma_pow2_adds, pow2};
use vstd::prelude::*;

use crate::net::{
    all_wf, covered, inside, is_aggregate, is_block, law_network_addresses, law_truncation, lemma_covered,
    lemma_range_fits, lemma_truncated, lies_in, lies_in_some, net_lt, Family, IpNet,
};
use crate::netset::{lemma_ascending_unique, lemma_listed, listed};

verus! {

/// Two lists cover the same addresses.
pub open spec fn same_coverage(a: Seq<IpNet>, b: Seq<IpNet>) -> bool {
    forall|family: Family, x: int| #[trigger] covered(a, family, x) <==> covered(b, family, x)
}

/// The lowest address of a network that holds `a`, from `a` alone.
proof fn lemma_first_from_member(net: IpNet, a: int)
    requires
        net.wf(),
        net.has(a),
    ensures
        net.first() == a - a % net.size() as int,
        a % net.size() as int >= 0,
{
    let d = net.size() as int;
    let x = net.addr as int;
    lemma_range_fits(net);
    lemma_fundamental_div_mod(x, d);
    lemma_fundamental_div_mod_converse(a, d, x / d, a - net.first());
}

/// A multiple of `d` that is not above `a` is not above the last multiple before `a`, and one
/// that is above `a` is above the whole stretch around `a`.
proof fn lemma_multiples(a: int, d: int, q: int)
    requires
        d > 0,
    ensures
        d * q <= a ==> d * q <= a - a % d,
        d * q > a ==> d * q >= a - a % d + d,
{
    lemma_fundamental_div_mod(a, d);
    lemma_mod_bound(a, d);
    let p = a / d;
    assert(a - a % d == d * p);
    assert(q <= p ==> d * q <= d * p) by (nonlinear_arith)
        requires
            d > 0,
    ;
    assert(q > p ==> d * q >= d * p + d) by (nonlinear_arith)
        requires
            d > 0,
    ;
}

/// Of two networks that share an address, the one with the shorter prefix encloses the other.
pub proof fn lemma_nested(outer: IpNet, inner: IpNet, a: int)
    requires
        outer.wf(),
        inner.wf(),
        outer.family == inner.family,
        outer.prefix_len <= inner.prefix_len,
        outer.has(a),
        inner.has(a),
    ensures
        outer.encloses(inner),
{
    let big = outer.size() as int;
    let small = inner.size() as int;
    let width = outer.family.width();
    let k = pow2((inner.prefix_len - outer.prefix_len) as nat) as int;
    lemma_range_fits(outer);
    lemma_range_fits(inner);
    lemma_pow2_adds((width - inner.prefix_len) as nat, (inner.prefix_len - outer.prefix_len) as nat);
    assert(big == small * k);
    lemma_first_from_member(outer, a);
    lemma_first_from_member(inner, a);
    lemma_fundamental_div_mod(a, big);
    let q = a / big;
    assert(outer.first() == big * q);
    assert(big * q == small * (k * q)) by (nonlinear_arith)
        requires
            big == small * k,
    ;
    assert(big * q + big == small * (k * q + k)) by (nonlinear_arith)
        requires
            big == small * k,
    ;
    lemma_multiples(a, small, k * q);
    lemma_multiples(a, small, k * q + k);
}

/// The parent of a network is valid and encloses it.
proof fn lemma_parent(net: IpNet)
    requires
        net.wf(),
        net.prefix_len > 0,
    ensures
        net.parent().wf(),
        net.parent().is_truncated(),
        net.parent().family == net.family,
        net.parent().prefix_len == net.prefix_len - 1,
        net.parent().encloses(net),
{
    let wide = IpNet { prefix_len: (net.prefix_len - 1) as u8, ..net };
    assert(wide.wf());
    lemma_truncated(wide);
    lemma_truncated(net);
    lemma_range_fits(wide);
    lemma_range_fits(net);
    lemma_mod_bound(net.addr as int, wide.size() as int);
    lemma_mod_bound(net.addr as int, net.size() as int);
    assert(wide.has(net.addr as int));
    assert(net.has(net.addr as int));
    lemma_nested(wide, net, net.addr as int);
}

/// Every network that the list fills lies in one of the largest blocks.
proof fn lemma_climb(net: IpNet, nets: Seq<IpNet>) -> (block: IpNet)
    requires
        net.wf(),
        net.is_truncated(),
        inside(net, nets),
    ensures
        is_block(block, nets),
        block.encloses(net),
    decreases net.prefix_len,
{
    if net.prefix_len > 0 && inside(net.parent(), nets) {
        lemma_parent(net);
        lemma_climb(net.parent(), nets)
    } else {
        net
    }
}

/// The network of the single address `a` of `family`.
spec fn single(family: Family, a: int) -> IpNet {
    IpNet { family, addr: a as u128, prefix_len: family.width() as u8 }
}

proof fn lemma_single(family: Family, a: int)
    requires
        0 <= a < pow2(family.width()),
        pow2(family.width()) <= u128::MAX + 1,
    ensures
        single(family, a).wf(),
        single(family, a).is_truncated(),
        forall|x: int| #[trigger] single(family, a).has(x) <==> x == a,
{
    vstd::arithmetic::power2::lemma2_to64();
    assert(single(family, a).size() == 1);
    assert(a % 1 == 0);
}

/// An address that the list covers lies in one of its blocks.
proof fn lemma_block_of_address(nets: Seq<IpNet>, family: Family, a: int) -> (block: IpNet)
    requires
        all_wf(nets),
        covered(nets, family, a),
    ensures
        is_block(block, nets),
        block.family == family,
        block.has(a),
{
    let i = choose|i: int| 0 <= i < nets.len() && (#[trigger] nets[i]).family == family && nets[i].has(a);
    lemma_range_fits(nets[i]);
    lemma_single(family, a);
    let start = single(family, a);
    assert(start.has(a));
    lemma_climb(start, nets)
}

/// Merging keeps the addresses: the blocks cover exactly what the networks covered.
pub proof fn law_aggregate_keeps_addresses(nets: Seq<IpNet>, blocks: Seq<IpNet>)
    requires
        all_wf(nets),
        is_aggregate(nets, blocks),
    ensures
        same_coverage(nets, blocks),
{
    assert forall|family: Family, a: int| #[trigger] covered(nets, family, a) <==> covered(blocks, family, a) by {
        if covered(nets, family, a) {
            let block = lemma_block_of_address(nets, family, a);
            assert(blocks.contains(block));
            let i = blocks.index_of(block);
            assert(blocks[i] == block);
        }
        if covered(blocks, family, a) {
            let i = choose|i: int| 0 <= i < blocks.len() && (#[trigger] blocks[i]).family == family && blocks[i].has(a);
            assert(blocks.contains(blocks[i]));
            assert(is_block(blocks[i], nets));
        }
    }
}

/// Two of the largest blocks that share an address are the same block.
proof fn lemma_blocks_share_nothing(x: IpNet, y: IpNet, nets: Seq<IpNet>, a: int)
    requires
        is_block(x, nets),
        is_block(y, nets),
        x.family == y.family,
        x.has(a),
        y.has(a),
    ensures
        x == y,
{
    lemma_no_larger_block(x, y, nets, a);
    lemma_no_larger_block(y, x, nets, a);
    lemma_nested(x, y, a);
    lemma_nested(y, x, a);
}

/// A block is at least as large as any other block that shares an address with it.
proof fn lemma_no_larger_block(x: IpNet, y: IpNet, nets: Seq<IpNet>, a: int)
    requires
        is_block(x, nets),
        is_block(y, nets),
        x.family == y.family,
        x.has(a),
        y.has(a),
    ensures
        y.prefix_len <= x.prefix_len,
{
    if x.prefix_len < y.prefix_len {
        lemma_parent(y);
        let p = y.parent();
        assert(p.has(a));
        lemma_nested(x, p, a);
        assert forall|b: int| #[trigger] p.has(b) implies covered(nets, p.family, b) by {
            assert(x.has(b));
        }
    }
}

/// No address lies in two blocks of an aggregate.
pub proof fn law_blocks_disjoint(nets: Seq<IpNet>, blocks: Seq<IpNet>, i: int, j: int, a: int)
    requires
        is_aggregate(nets, blocks),
        0 <= i < blocks.len(),
        0 <= j < blocks.len(),
        blocks[i].family == blocks[j].family,
        blocks[i].has(a),
        blocks[j].has(a),
    ensures
        i == j,
{
    assert(blocks.contains(blocks[i]));
    assert(blocks.contains(blocks[j]));
    lemma_blocks_share_nothing(blocks[i], blocks[j], nets, a);
    if i < j {
        assert(crate::net::net_lt(blocks[i], blocks[j]));
    }
    if j < i {
        assert(crate::net::net_lt(blocks[j], blocks[i]));
    }
}

/// Lists that cover the same addresses have the same aggregate, whatever their order and however
/// often a network occurs.
pub proof fn law_aggregate_is_canonical(a: Seq<IpNet>, b: Seq<IpNet>, blocks_a: Seq<IpNet>, blocks_b: Seq<IpNet>)
    requires
        same_coverage(a, b),
        is_aggregate(a, blocks_a),
        is_aggregate(b, blocks_b),
    ensures
        blocks_a == blocks_b,
{
    assert forall|net: IpNet| #[trigger] inside(net, a) <==> inside(net, b) by {
        if inside(net, a) {
            assert forall|x: int| #[trigger] net.has(x) implies covered(b, net.family, x) by {
                assert(covered(a, net.family, x));
            }
        }
        if inside(net, b) {
            assert forall|x: int| #[trigger] net.has(x) implies covered(a, net.family, x) by {
                assert(covered(b, net.family, x));
                assert(covered(a, net.family, x) <==> covered(b, net.family, x));
            }
        }
    }
    assert forall|net: IpNet| #[trigger] blocks_a.contains(net) <==> blocks_b.contains(net) by {
        assert(is_block(net, a) <==> is_block(net, b)) by {
            assert(inside(net, a) <==> inside(net, b));
            assert(inside(net.parent(), a) <==> inside(net.parent(), b));
        }
    }
    lemma_ascending_unique(blocks_a, blocks_b);
}

/// Merging blocks again changes nothing.
pub proof fn law_aggregate_is_idempotent(nets: Seq<IpNet>, blocks: Seq<IpNet>, again: Seq<IpNet>)
    requires
        all_wf(nets),
        is_aggregate(nets, blocks),
        is_aggregate(blocks, again),
    ensures
        again == blocks,
{
    law_aggregate_keeps_addresses(nets, blocks);
    law_aggregate_is_canonical(nets, blocks, blocks, again);
}

/// The place in `others` of a network that lies in the block at `i`.
spec fn part_of(others: Seq<IpNet>, block: IpNet, j: int) -> bool {
    &&& 0 <= j < others.len()
    &&& block.encloses(others[j])
}

/// An aggregate is as short as can be: every list that covers the same addresses has at least as
/// many networks.
pub proof fn law_aggregate_is_shortest(nets: Seq<IpNet>, blocks: Seq<IpNet>, others: Seq<IpNet>)
    requires
        all_wf(nets),
        is_aggregate(nets, blocks),
        all_wf(others),
        same_coverage(nets, others),
    ensures
        blocks.len() <= others.len(),
{
    assert forall|i: int| 0 <= i < blocks.len() implies exists|j: int| part_of(others, #[trigger] blocks[i], j) by {
        let block = blocks[i];
        assert(blocks.contains(block));
        lemma_range_fits(block);
        let a = block.first();
        assert(block.has(a));
        assert(covered(nets, block.family, a));
        assert(covered(others, block.family, a));
        let j = choose|j: int| 0 <= j < others.len() && (#[trigger] others[j]).family == block.family && others[j].has(a);
        let net = others[j].truncated();
        lemma_truncated(others[j]);
        assert forall|x: int| #[trigger] net.has(x) implies covered(nets, net.family, x) by {
            assert(others[j].has(x));
            assert(covered(others, net.family, x));
            assert(covered(nets, net.family, x) <==> covered(others, net.family, x));
        }
        let outer = lemma_climb(net, nets);
        assert(outer.has(a));
        lemma_blocks_share_nothing(outer, block, nets, a);
        assert(part_of(others, block, j));
    }
    let places = Seq::new(blocks.len(), |i: int| choose|j: int| part_of(others, blocks[i], j));
    assert forall|i: int| 0 <= i < blocks.len() implies part_of(others, blocks[i], #[trigger] places[i]) by {
        let block = blocks[i];
        assert(exists|j: int| part_of(others, block, j));
    }
    assert forall|i: int, k: int| 0 <= i < places.len() && 0 <= k < places.len() && i != k implies #[trigger] places[i] != #[trigger] places[k] by {
        if places[i] == places[k] {
            let net = others[places[i]];
            assert(part_of(others, blocks[i], places[i]));
            assert(part_of(others, blocks[k], places[k]));
            lemma_range_fits(net);
            assert(blocks[i].has(net.first()));
            assert(blocks[k].has(net.first()));
            law_blocks_disjoint(nets, blocks, i, k, net.first());
        }
    }
    assert(places.no_duplicates());
    places.unique_seq_to_set();
    let range = vstd::set_lib::set_int_range(0, others.len() as int);
    vstd::set_lib::lemma_int_range(0, others.len() as int);
    assert(places.to_set().subset_of(range)) by {
        assert forall|j: int| #[trigger] places.to_set().contains(j) implies range.contains(j) by {
            let i = places.index_of(j);
            assert(part_of(others, blocks[i], places[i]));
        }
    }
    vstd::set_lib::lemma_len_subset(places.to_set(), range);
}

/// The aggregate of a list: the largest blocks that its addresses fill, in ascending order.
pub open spec fn aggregate_of(nets: Seq<IpNet>) -> Seq<IpNet> {
    listed(|net: IpNet| is_block(net, nets))
}

/// There is one aggregate.
pub proof fn lemma_aggregate_of(nets: Seq<IpNet>, blocks: Seq<IpNet>)
    requires
        is_aggregate(nets, blocks),
    ensures
        aggregate_of(nets) == blocks,
{
    lemma_listed(blocks, |net: IpNet| is_block(net, nets));
}

/// No networks fill no block.
pub proof fn lemma_aggregate_of_nothing()
    ensures
        is_aggregate(Seq::empty(), Seq::empty()),
{
    assert forall|net: IpNet| !is_block(net, Seq::empty()) by {
        if net.wf() {
            lemma_range_fits(net);
            assert(net.has(net.first()));
            assert(!covered(Seq::empty(), net.family, net.first()));
        }
    }
}

/// The network that is twice as large, with the same bits in front but one.
pub open spec fn wider(net: IpNet) -> IpNet {
    IpNet { prefix_len: (net.prefix_len - 1) as u8, ..net }
}

/// The networks are named by their lowest addresses, and none of them could be larger: of the
/// network twice as large, an address lies in none of them.
pub open spec fn are_largest(nets: Seq<IpNet>) -> bool {
    forall|k: int| 0 <= k < nets.len() ==> (#[trigger] nets[k]).truncated() == nets[k] && (nets[k].prefix_len > 0
        ==> exists|a: int| #[trigger] lies_in(a, wider(nets[k])) && !lies_in_some(a, nets[k].family, nets))
}

/// The blocks of an aggregate are as large as they can be, each is there once, and they are in
/// ascending order.
pub proof fn law_blocks_are_the_largest(nets: Seq<IpNet>, blocks: Seq<IpNet>)
    requires
        all_wf(nets),
        is_aggregate(nets, blocks),
    ensures
        are_largest(blocks),
        forall|i: int, j: int| 0 <= i < j < blocks.len() ==> net_lt(#[trigger] blocks[i], #[trigger] blocks[j]),
{
    assert forall|k: int| 0 <= k < blocks.len() implies (#[trigger] blocks[k]).wf() by {
        assert(blocks.contains(blocks[k]));
    }
    law_aggregate_keeps_addresses(nets, blocks);
    assert forall|k: int| 0 <= k < blocks.len() implies (#[trigger] blocks[k]).truncated() == blocks[k] && (
    blocks[k].prefix_len > 0 ==> exists|a: int| #[trigger]
        lies_in(a, wider(blocks[k])) && !lies_in_some(a, blocks[k].family, blocks)) by {
        let net = blocks[k];
        assert(blocks.contains(net));
        law_truncation(net);
        if net.prefix_len > 0 {
            lemma_parent(net);
            let a = choose|a: int| #[trigger] net.parent().has(a) && !covered(nets, net.family, a);
            let wide = wider(net);
            assert(wide.wf());
            law_truncation(wide);
            law_network_addresses(net.parent(), a);
            assert(lies_in(a, wide.truncated()) <==> lies_in(a, wide));
            assert(covered(nets, net.family, a) <==> covered(blocks, net.family, a));
            lemma_covered(blocks, net.family, a);
            assert(lies_in(a, wider(blocks[k])) && !lies_in_some(a, blocks[k].family, blocks));
        }
    }
}

} // verus!
