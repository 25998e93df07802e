//! The calls into `ipnet` and `std` that the library makes, with what it relies on.

use ipnet::{Ipv4Net, Ipv6Net};
use vstd::arithmetic::power2::pow2;
use vstd::prelude::*;

use crate::net::{all_wf, is_aggregate, Family, IpNet};
use crate::text::{split_lines, text_le, texts, trimmed};

verus! {

/// What `str::parse::<ipnet::IpNet>` reads in a text: a network in CIDR notation, its
/// address as written, or nothing.
pub uninterp spec fn parsed_network(text: Seq<char>) -> Option<IpNet>;

/// What `str::parse::<IpAddr>` of `std` reads in a text: an address, or nothing.
pub uninterp spec fn parsed_address(text: Seq<char>) -> Option<(Family, u128)>;

/// How `std` writes an address (`Display` of `Ipv4Addr` and `Ipv6Addr`).
pub uninterp spec fn address_text(family: Family, addr: u128) -> Seq<char>;

/// Calls `<ipnet::IpNet as FromStr>::from_str`. The result depends on the text alone, and a
/// network that is read has an address and a prefix length that fit its family.
#[verifier::external_body]
pub(crate) fn parse_ip_net(text: &str) -> (net: Option<IpNet>)
    ensures
        net == parsed_network(text@),
        net matches Some(n) ==> n.wf(),
{
    match text.parse::<ipnet::IpNet>() {
        Ok(ipnet::IpNet::V4(net)) => Some(
            IpNet { family: Family::V4, addr: u32::from(net.addr()) as u128, prefix_len: net.prefix_len() },
        ),
        Ok(ipnet::IpNet::V6(net)) => Some(
            IpNet { family: Family::V6, addr: u128::from(net.addr()), prefix_len: net.prefix_len() },
        ),
        Err(_) => None,
    }
}

/// Calls `<IpAddr as FromStr>::from_str` of `std`; `ipnet::IpNet::new` with the prefix length
/// zero, which both families allow, carries the address. The result depends on the text
/// alone, and an address that is read fits its family.
#[verifier::external_body]
pub(crate) fn parse_ip_addr(text: &str) -> (address: Option<(Family, u128)>)
    ensures
        address == parsed_address(text@),
        address matches Some(a) ==> a.1 < pow2(a.0.width()),
{
    match ipnet::IpNet::new(text.parse().ok()?, 0) {
        Ok(ipnet::IpNet::V4(net)) => Some((Family::V4, u32::from(net.addr()) as u128)),
        Ok(ipnet::IpNet::V6(net)) => Some((Family::V6, u128::from(net.addr()))),
        Err(_) => None,
    }
}

/// Calls `ipnet::IpNet::aggregate`. Its result holds exactly the largest blocks that the
/// addresses of the given networks fill, IPv4 before IPv6, in ascending order.
#[verifier::external_body]
pub(crate) fn aggregate(nets: &Vec<IpNet>) -> (blocks: Vec<IpNet>)
    requires
        all_wf(nets@),
    ensures
        is_aggregate(nets@, blocks@),
{
    let given: Vec<ipnet::IpNet> = nets.iter().map(|net| match net.family {
        Family::V4 => Ipv4Net::new((net.addr as u32).into(), net.prefix_len).unwrap().into(),
        Family::V6 => Ipv6Net::new(net.addr.into(), net.prefix_len).unwrap().into(),
    }).collect();
    ipnet::IpNet::aggregate(&given).into_iter().map(|block| {
        let (family, addr) = match block {
            ipnet::IpNet::V4(net) => (Family::V4, u32::from(net.addr()) as u128),
            ipnet::IpNet::V6(net) => (Family::V6, net.addr().into()),
        };
        IpNet { family, addr, prefix_len: block.prefix_len() }
    }).collect()
}

/// Calls `ToString::to_string` on the address that `network()` of `ipnet::Ipv4Net` or
/// `ipnet::Ipv6Net` gives for a network of a single address, which is that address. `FromStr` of
/// the address type of `std` reads the address back from it.
#[verifier::external_body]
pub(crate) fn format_address(family: Family, addr: u128) -> (text: String)
    requires
        addr < pow2(family.width()),
    ensures
        text@ == address_text(family, addr),
        parsed_address(text@) == Some((family, addr)),
{
    match family {
        Family::V4 => Ipv4Net::new((addr as u32).into(), 32).unwrap().network().to_string(),
        Family::V6 => Ipv6Net::new(addr.into(), 128).unwrap().network().to_string(),
    }
}

/// The decimal digits of a number.
pub open spec fn decimal(n: nat) -> Seq<char>
    decreases n,
{
    if n < 10 {
        seq![('0' as nat + n) as char]
    } else {
        decimal(n / 10).push(('0' as nat + n % 10) as char)
    }
}

/// How a network is written: its address, a slash, and the prefix length.
pub open spec fn network_text(net: IpNet) -> Seq<char> {
    address_text(net.family, net.addr) + seq!['/'] + decimal(net.prefix_len as nat)
}

/// Calls `<ipnet::IpNet as Display>::fmt` through `to_string`: the address, a slash, and the
/// prefix length in decimal. `FromStr` of the same type reads the network back from it.
#[verifier::external_body]
pub(crate) fn format_network(net: &IpNet) -> (text: String)
    requires
        net.wf(),
    ensures
        text@ == network_text(*net),
        parsed_network(text@) == Some(*net),
{
    match net.family {
        Family::V4 => Ipv4Net::new((net.addr as u32).into(), net.prefix_len).map(ipnet::IpNet::V4).unwrap().to_string(),
        Family::V6 => Ipv6Net::new(net.addr.into(), net.prefix_len).map(ipnet::IpNet::V6).unwrap().to_string(),
    }
}

/// A network as numbers that `std` orders as networks are ordered.
pub type NetKey = (u8, u128, u8);

/// `std` orders tuples by their first part, then the second, then the third.
pub open spec fn key_le(a: NetKey, b: NetKey) -> bool {
    ||| a.0 < b.0
    ||| a.0 == b.0 && a.1 < b.1
    ||| a.0 == b.0 && a.1 == b.1 && a.2 <= b.2
}

/// Calls `slice::sort` of `std` on tuples of integers: the same items, in ascending order.
#[verifier::external_body]
pub(crate) fn sort_keys(keys: &mut Vec<NetKey>)
    ensures
        final(keys)@.to_multiset() == old(keys)@.to_multiset(),
        forall|i: int, j: int|
            0 <= i <= j < final(keys)@.len() ==> key_le(#[trigger] final(keys)@[i], #[trigger] final(keys)@[j]),
{
    keys.sort();
}

/// `str::trim` of `std`: the text without the white space at its ends.
pub assume_specification[ str::trim ](text: &str) -> (rest: &str)
    ensures
        rest@ == trimmed(text@),
;

/// Calls `str::lines` of `std` and gathers what it yields: the lines of the text, in order.
#[verifier::external_body]
pub(crate) fn lines<'a>(text: &'a str) -> (rows: Vec<&'a str>)
    ensures
        rows@.map_values(|row: &'a str| row@) == split_lines(text@),
{
    text.lines().collect()
}

/// Calls `slice::sort` of `std` on strings: the same texts, in ascending order.
#[verifier::external_body]
pub(crate) fn sort_texts(list: &mut Vec<String>)
    ensures
        texts(final(list)@).to_multiset() == texts(old(list)@).to_multiset(),
        forall|i: int, j: int|
            0 <= i <= j < final(list)@.len() ==> text_le((#[trigger] final(list)@[i])@, (#[trigger] final(list)@[j])@),
{
    list.sort();
}

} // verus!
