//! IP networks: their addresses, their order, and the blocks that they fill.

use vstd::arithmetic::power2::pow2;
use vstd::prelude::*;

verus! {

/// The two address families.
#[derive(Clone, Copy, Debug, PartialEq, Eq, Structural)]
pub enum Family {
    V4,
    V6,
}

impl Family {
    /// The number of bits of an address.
    pub open spec fn width(self) -> nat {
        match self {
            Family::V4 => 32,
            Family::V6 => 128,
        }
    }

    /// The position of the family in the order of networks.
    pub open spec fn rank(self) -> int {
        match self {
            Family::V4 => 0,
            Family::V6 => 1,
        }
    }

    /// The number of bits of an address.
    pub fn bits(self) -> (bits: u8)
        ensures
            bits == self.width(),
    {
        match self {
            Family::V4 => 32,
            Family::V6 => 128,
        }
    }
}

/// An address with a prefix length. The address may have bits set behind the prefix.
#[derive(Clone, Copy, Debug, PartialEq, Eq, Structural)]
pub struct IpNet {
    pub family: Family,
    pub addr: u128,
    pub prefix_len: u8,
}

impl IpNet {
    /// The address and the prefix length fit the family.
    pub open spec fn wf(self) -> bool {
        &&& self.prefix_len <= self.family.width()
        &&& self.addr < pow2(self.family.width())
    }

    /// How many addresses the network holds.
    pub open spec fn size(self) -> nat {
        pow2((self.family.width() - self.prefix_len) as nat)
    }

    /// The lowest address of the network.
    pub open spec fn first(self) -> int {
        self.addr as int - self.addr as int % self.size() as int
    }

    /// The network holds the address `a` of its own family.
    pub open spec fn has(self, a: int) -> bool {
        self.first() <= a < self.first() + self.size()
    }

    /// The address has no bit set behind the prefix.
    pub open spec fn is_truncated(self) -> bool {
        self.addr == self.first()
    }

    /// The same network, named by its lowest address.
    pub open spec fn truncated(self) -> IpNet {
        IpNet { addr: self.first() as u128, ..self }
    }

    /// Every address of `other` is an address of this network.
    pub open spec fn encloses(self, other: IpNet) -> bool {
        &&& self.family == other.family
        &&& self.first() <= other.first()
        &&& other.first() + other.size() <= self.first() + self.size()
    }

    /// The network that is twice as large and encloses this one.
    pub open spec fn parent(self) -> IpNet {
        (IpNet { prefix_len: (self.prefix_len - 1) as u8, ..self }).truncated()
    }

    /// The number of addresses of the network, less one.
    fn host_mask(&self) -> (mask: u128)
        requires
            self.wf(),
        ensures
            mask == self.size() - 1,
    {
        let host: u8 = self.family.bits() - self.prefix_len;
        if host == 0 {
            proof {
                lemma_pow2_values();
            }
            return 0;
        }
        let shift: u128 = (128 - host) as u128;
        proof {
            lemma_top_bits(host as nat);
            vstd::bits::lemma_u128_shr_is_div(u128::MAX, shift);
        }
        u128::MAX >> shift
    }

    /// The lowest address of the network.
    pub fn network(&self) -> (addr: u128)
        requires
            self.wf(),
        ensures
            addr == self.first(),
    {
        let mask: u128 = self.host_mask();
        proof {
            lemma_pow2_values();
            vstd::arithmetic::power2::lemma_pow2_pos((self.family.width() - self.prefix_len) as nat);
            vstd::arithmetic::div_mod::lemma_mod_bound(self.addr as int, self.size() as int);
        }
        if mask == u128::MAX {
            proof {
                vstd::arithmetic::div_mod::lemma_small_mod(self.addr as nat, self.size());
            }
            return 0;
        }
        let size: u128 = mask + 1;
        proof {
            vstd::arithmetic::div_mod::lemma_mod_decreases(self.addr as nat, size as nat);
        }
        self.addr - self.addr % size
    }

    /// The same network, named by its lowest address.
    pub fn trunc(&self) -> (net: IpNet)
        requires
            self.wf(),
        ensures
            net == self.truncated(),
            net.wf(),
            net.is_truncated(),
    {
        proof {
            lemma_truncated(*self);
        }
        IpNet { family: self.family, addr: self.network(), prefix_len: self.prefix_len }
    }

    /// Whether every address of `other` is an address of this network.
    pub fn contains(&self, other: &IpNet) -> (inside: bool)
        requires
            self.wf(),
            other.wf(),
        ensures
            inside == self.encloses(*other),
    {
        if self.family != other.family {
            return false;
        }
        let low: u128 = self.network();
        let other_low: u128 = other.network();
        proof {
            lemma_range_fits(*self);
            lemma_range_fits(*other);
        }
        low <= other_low && other_low + other.host_mask() <= low + self.host_mask()
    }
}

/// `a` comes before `b`: by family, then by address, then by prefix length.
pub open spec fn net_lt(a: IpNet, b: IpNet) -> bool {
    ||| a.family.rank() < b.family.rank()
    ||| a.family == b.family && a.addr < b.addr
    ||| a.family == b.family && a.addr == b.addr && a.prefix_len < b.prefix_len
}

/// The networks stand in ascending order, and none occurs twice.
pub open spec fn ascending(nets: Seq<IpNet>) -> bool {
    forall|i: int, j: int| 0 <= i < j < nets.len() ==> net_lt(#[trigger] nets[i], #[trigger] nets[j])
}

/// Every network is valid.
pub open spec fn all_wf(nets: Seq<IpNet>) -> bool {
    forall|i: int| 0 <= i < nets.len() ==> (#[trigger] nets[i]).wf()
}

/// Every network is named by its lowest address.
pub open spec fn all_truncated(nets: Seq<IpNet>) -> bool {
    forall|i: int| 0 <= i < nets.len() ==> (#[trigger] nets[i]).is_truncated()
}

/// Some network of the list holds the address `a` of `family`.
pub open spec fn covered(nets: Seq<IpNet>, family: Family, a: int) -> bool {
    exists|i: int| 0 <= i < nets.len() && (#[trigger] nets[i]).family == family && nets[i].has(a)
}

/// Every address of `net` is held by some network of the list.
pub open spec fn inside(net: IpNet, nets: Seq<IpNet>) -> bool {
    forall|a: int| #[trigger] net.has(a) ==> covered(nets, net.family, a)
}

/// `net` is one of the largest blocks that the addresses of the list fill.
pub open spec fn is_block(net: IpNet, nets: Seq<IpNet>) -> bool {
    &&& net.wf()
    &&& net.is_truncated()
    &&& inside(net, nets)
    &&& net.prefix_len > 0 ==> !inside(net.parent(), nets)
}

/// `blocks` is the aggregate of `nets`: all of the largest blocks, in ascending order.
pub open spec fn is_aggregate(nets: Seq<IpNet>, blocks: Seq<IpNet>) -> bool {
    &&& ascending(blocks)
    &&& forall|net: IpNet| #[trigger] blocks.contains(net) <==> is_block(net, nets)
}

/// The powers of two that bound the two families.
proof fn lemma_pow2_values()
    ensures
        pow2(0) == 1,
        pow2(32) == 0x1_0000_0000,
        pow2(64) == 0x1_0000_0000_0000_0000,
        pow2(128) == u128::MAX + 1,
{
    vstd::arithmetic::power2::lemma2_to64();
    vstd::arithmetic::power2::lemma_pow2_adds(64, 64);
    assert(0x1_0000_0000_0000_0000int * 0x1_0000_0000_0000_0000int == u128::MAX + 1)
        by (nonlinear_arith);
}

/// The `host` low bits of the widest address, all set.
proof fn lemma_top_bits(host: nat)
    requires
        0 < host <= 128,
    ensures
        u128::MAX as int / pow2((128 - host) as nat) as int == pow2(host) - 1,
{
    lemma_pow2_values();
    let d = pow2((128 - host) as nat) as int;
    let q = pow2(host) as int;
    vstd::arithmetic::power2::lemma_pow2_pos((128 - host) as nat);
    vstd::arithmetic::power2::lemma_pow2_adds(host, (128 - host) as nat);
    assert(u128::MAX as int == d * (q - 1) + (d - 1)) by (nonlinear_arith)
        requires
            q * d == u128::MAX + 1,
    ;
    vstd::arithmetic::div_mod::lemma_fundamental_div_mod_converse_div(
        u128::MAX as int,
        d,
        q - 1,
        d - 1,
    );
}

/// A network and its truncation hold the same addresses.
pub proof fn lemma_truncated(net: IpNet)
    requires
        net.wf(),
    ensures
        net.truncated().wf(),
        net.truncated().is_truncated(),
        net.truncated().first() == net.first(),
        net.truncated().size() == net.size(),
        0 <= net.first() <= net.addr,
{
    let d = net.size() as int;
    let a = net.addr as int;
    lemma_pow2_values();
    vstd::arithmetic::power2::lemma_pow2_pos((net.family.width() - net.prefix_len) as nat);
    vstd::arithmetic::div_mod::lemma_mod_bound(a, d);
    vstd::arithmetic::div_mod::lemma_mod_decreases(a as nat, d as nat);
    vstd::arithmetic::div_mod::lemma_fundamental_div_mod(a, d);
    vstd::arithmetic::div_mod::lemma_mod_multiples_basic(a / d, d);
    assert(net.first() == (a / d) * d) by (nonlinear_arith)
        requires
            a == d * (a / d) + a % d,
            net.first() == a - a % d,
    ;
}

/// The addresses of a network lie within its family.
pub proof fn lemma_range_fits(net: IpNet)
    requires
        net.wf(),
    ensures
        0 <= net.first(),
        net.first() + net.size() <= pow2(net.family.width()),
        pow2(net.family.width()) <= u128::MAX + 1,
        net.size() >= 1,
{
    let d = net.size() as int;
    let a = net.addr as int;
    let host = (net.family.width() - net.prefix_len) as nat;
    let w = pow2(net.family.width()) as int;
    lemma_pow2_values();
    lemma_truncated(net);
    vstd::arithmetic::power2::lemma_pow2_pos(host);
    vstd::arithmetic::power2::lemma_pow2_pos(net.prefix_len as nat);
    vstd::arithmetic::power2::lemma_pow2_adds(host, net.prefix_len as nat);
    vstd::arithmetic::div_mod::lemma_fundamental_div_mod(a, d);
    let q = a / d;
    let p = pow2(net.prefix_len as nat) as int;
    assert(d * p == w);
    assert(net.first() == d * q);
    vstd::arithmetic::div_mod::lemma_multiply_divide_lt(a, d, p);
    assert(d * q + d <= d * p) by (nonlinear_arith)
        requires
            q < p,
            d > 0,
    ;
}

/// The address `a` lies in the network: it has the same bits in front as the network's address.
pub open spec fn lies_in(a: int, net: IpNet) -> bool {
    match net.family {
        Family::V4 => {
            &&& 0 <= a
            &&& a / pow2((32 - net.prefix_len) as nat) as int == net.addr as int / pow2((32 - net.prefix_len) as nat) as int
        },
        Family::V6 => {
            &&& 0 <= a
            &&& a / pow2((128 - net.prefix_len) as nat) as int == net.addr as int / pow2(
                (128 - net.prefix_len) as nat,
            ) as int
        },
    }
}

/// A network is valid if its prefix length and its address fit in 32 bits or in 128 bits. Its
/// addresses are those with the same bits in front.
pub proof fn law_network_addresses(net: IpNet, a: int)
    ensures
        net.wf() <==> match net.family {
            Family::V4 => net.prefix_len <= 32 && net.addr <= 0xffff_ffff,
            Family::V6 => net.prefix_len <= 128,
        },
        net.wf() ==> (net.has(a) <==> lies_in(a, net)),
{
    lemma_pow2_values();
    if net.wf() {
        let d = net.size() as int;
        let x = net.addr as int;
        lemma_range_fits(net);
        lemma_truncated(net);
        vstd::arithmetic::div_mod::lemma_fundamental_div_mod(x, d);
        let q = x / d;
        assert(net.first() == d * q);
        if net.has(a) {
            vstd::arithmetic::div_mod::lemma_fundamental_div_mod_converse(a, d, q, a - d * q);
        }
        if 0 <= a && a / d == q {
            vstd::arithmetic::div_mod::lemma_fundamental_div_mod(a, d);
            vstd::arithmetic::div_mod::lemma_mod_bound(a, d);
        }
    }
}

/// A network named by its lowest address keeps its family and its prefix length, and of its
/// address the bits in front. The rest of the address is zero.
pub proof fn law_truncation(net: IpNet)
    requires
        net.wf(),
    ensures
        net.truncated().family == net.family,
        net.truncated().prefix_len == net.prefix_len,
        match net.family {
            Family::V4 => net.truncated().addr == net.addr - net.addr as int % pow2(
                (32 - net.prefix_len) as nat,
            ) as int,
            Family::V6 => net.truncated().addr == net.addr - net.addr as int % pow2(
                (128 - net.prefix_len) as nat,
            ) as int,
        },
        net.is_truncated() <==> net.truncated() == net,
        forall|a: int| #[trigger] lies_in(a, net.truncated()) <==> lies_in(a, net),
{
    lemma_truncated(net);
    lemma_range_fits(net);
    assert forall|a: int| #[trigger] lies_in(a, net.truncated()) <==> lies_in(a, net) by {
        law_network_addresses(net, a);
        law_network_addresses(net.truncated(), a);
    }
}

/// A network encloses another exactly if they are of one family and it holds every address of
/// the other.
pub proof fn law_enclosure(outer: IpNet, inner: IpNet)
    requires
        outer.wf(),
        inner.wf(),
    ensures
        outer.encloses(inner) <==> outer.family == inner.family && forall|a: int| #[trigger]
            lies_in(a, inner) ==> lies_in(a, outer),
{
    lemma_range_fits(outer);
    lemma_range_fits(inner);
    if outer.encloses(inner) {
        assert forall|a: int| #[trigger] lies_in(a, inner) implies lies_in(a, outer) by {
            law_network_addresses(outer, a);
            law_network_addresses(inner, a);
        }
    }
    if outer.family == inner.family && forall|a: int| #[trigger] lies_in(a, inner) ==> lies_in(a, outer) {
        let low = inner.first();
        let high = inner.first() + inner.size() - 1;
        law_network_addresses(inner, low);
        law_network_addresses(outer, low);
        law_network_addresses(inner, high);
        law_network_addresses(outer, high);
        assert(inner.has(low) && inner.has(high));
        assert(lies_in(low, inner) && lies_in(high, inner));
    }
}

/// Networks are in a total order: all of IPv4 before all of IPv6, then lower addresses, then
/// shorter prefixes.
pub proof fn law_order_of_networks(a: IpNet, b: IpNet, c: IpNet)
    ensures
        a.family is V4 && b.family is V6 ==> net_lt(a, b) && !net_lt(b, a),
        a.family == b.family && a.addr < b.addr ==> net_lt(a, b) && !net_lt(b, a),
        a.family == b.family && a.addr == b.addr && a.prefix_len < b.prefix_len ==> net_lt(a, b) && !net_lt(b, a),
        net_lt(a, b) || net_lt(b, a) || a == b,
        !net_lt(a, a),
        net_lt(a, b) && net_lt(b, c) ==> net_lt(a, c),
{
}

/// The address `a` of the family lies in one of the networks.
pub open spec fn lies_in_some(a: int, family: Family, nets: Seq<IpNet>) -> bool {
    exists|k: int| 0 <= k < nets.len() && (#[trigger] nets[k]).family == family && lies_in(a, nets[k])
}

/// Valid networks cover an address exactly if it lies in one of them.
pub proof fn lemma_covered(nets: Seq<IpNet>, family: Family, a: int)
    requires
        all_wf(nets),
    ensures
        covered(nets, family, a) <==> lies_in_some(a, family, nets),
{
    assert forall|k: int| 0 <= k < nets.len() implies ((#[trigger] nets[k]).has(a) <==> lies_in(a, nets[k])) by {
        law_network_addresses(nets[k], a);
    }
    if covered(nets, family, a) {
        let k = choose|k: int| 0 <= k < nets.len() && (#[trigger] nets[k]).family == family && nets[k].has(a);
        assert(nets[k].family == family && lies_in(a, nets[k]));
    }
    if lies_in_some(a, family, nets) {
        let k = choose|k: int| 0 <= k < nets.len() && (#[trigger] nets[k]).family == family && lies_in(a, nets[k]);
        assert(nets[k].family == family && nets[k].has(a));
    }
}

} // verus!
