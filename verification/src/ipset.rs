//! Networks read from lists, merged into the fewest blocks.

use vstd::prelude::*;
use vstd::string::StrSliceExecFns;

use crate::net::{all_truncated, all_wf, ascending, is_aggregate, lies_in, lies_in_some, Family, IpNet};
use crate::outside::{aggregate, lines, parse_ip_addr, parse_ip_net, parsed_address, parsed_network};
use crate::text::{split_lines, trimmed};

verus! {

/// The network of a single address.
pub open spec fn host(address: (Family, u128)) -> IpNet {
    IpNet { family: address.0, addr: address.1, prefix_len: address.0.width() as u8 }
}

/// What a row names: a network in CIDR notation, or else a single address.
pub open spec fn named_network(row: Seq<char>) -> Option<IpNet> {
    match parsed_network(row) {
        Some(net) => Some(net),
        None => match parsed_address(row) {
            Some(address) => Some(host(address)),
            None => None,
        },
    }
}

/// What a line of a list names. Blank lines and comments name nothing.
pub open spec fn line_network(line: Seq<char>) -> Option<IpNet> {
    let row = trimmed(line);
    if row.len() == 0 || row[0] == '#' {
        None
    } else {
        named_network(row)
    }
}

/// The networks that the lines name, in order.
pub open spec fn lines_networks(rows: Seq<Seq<char>>) -> Seq<IpNet>
    decreases rows.len(),
{
    if rows.len() == 0 {
        Seq::empty()
    } else {
        let before = lines_networks(rows.drop_last());
        match line_network(rows.last()) {
            Some(net) => before.push(net),
            None => before,
        }
    }
}

/// The networks that a list names, in order.
pub open spec fn text_networks(text: Seq<char>) -> Seq<IpNet> {
    lines_networks(split_lines(text))
}

/// The network that a row names, if it names one.
pub fn parse_network(row: &str) -> (net: Option<IpNet>)
    ensures
        net == named_network(row@),
        net matches Some(n) ==> n.wf(),
{
    match parse_ip_net(row) {
        Some(net) => Some(net),
        None => match parse_ip_addr(row) {
            Some((family, addr)) => Some(IpNet { family, addr, prefix_len: family.bits() }),
            None => None,
        },
    }
}

/// The networks that a list names, in order. Lines that name none are passed over.
pub fn parse_networks(text: &str) -> (nets: Vec<IpNet>)
    ensures
        nets@ == text_networks(text@),
        all_wf(nets@),
        forall|net: IpNet| #[trigger]
            nets@.contains(net) <==> exists|j: int|
                0 <= j < split_lines(text@).len() && row_reads(trimmed(#[trigger] split_lines(text@)[j]), net),
{
    let rows: Vec<&str> = lines(text);
    let ghost all = split_lines(text@);
    let mut nets: Vec<IpNet> = Vec::new();
    let mut i: usize = 0;
    while i < rows.len()
        invariant
            i <= rows@.len(),
            rows@.map_values(|row: &str| row@) == all,
            nets@ == lines_networks(all.take(i as int)),
            all_wf(nets@),
        decreases rows@.len() - i,
    {
        let row: &str = rows[i].trim();
        proof {
            assert(all[i as int] == rows@[i as int]@);
            assert(all.take(i + 1).drop_last() == all.take(i as int));
            assert(all.take(i + 1).last() == all[i as int]);
        }
        if !row.is_empty() && row.get_char(0) != '#' {
            if let Some(net) = parse_network(row) {
                nets.push(net);
            }
        }
        i += 1;
    }
    assert(all.take(i as int) == all);
    proof {
        assert forall|net: IpNet| #[trigger] nets@.contains(net) <==> exists|j: int|
            0 <= j < split_lines(text@).len() && row_reads(trimmed(#[trigger] split_lines(text@)[j]), net) by {
            law_every_row_counts(text@, net);
        }
    }
    nets
}

/// Networks gathered from lists, and the blocks that they were last merged into.
pub struct Ipset {
    /// The blocks, in ascending order.
    pub ips: Vec<IpNet>,
    /// The networks that are still to be merged.
    pub networks: Vec<IpNet>,
}

impl Ipset {
    /// The blocks are a set of valid networks, and what is to be merged is valid.
    pub open spec fn wf(self) -> bool {
        &&& ascending(self.ips@)
        &&& all_wf(self.ips@)
        &&& all_truncated(self.ips@)
        &&& all_wf(self.networks@)
    }

    /// Nothing yet.
    pub fn new() -> (set: Self)
        ensures
            set.wf(),
            set.ips@.len() == 0,
            set.networks@.len() == 0,
    {
        Ipset { ips: Vec::new(), networks: Vec::new() }
    }

    /// Takes in the networks that a list names.
    pub fn from(self, text: &str) -> (set: Self)
        requires
            self.wf(),
        ensures
            set.wf(),
            set.ips@ == self.ips@,
            set.networks@ == self.networks@ + text_networks(text@),
    {
        let mut set = self;
        let mut found: Vec<IpNet> = parse_networks(text);
        set.networks.append(&mut found);
        set
    }

    /// Replaces the blocks by those that fill the same addresses as the gathered networks. With
    /// nothing gathered the blocks stay.
    pub fn consolidate(&mut self)
        requires
            old(self).wf(),
        ensures
            final(self).wf(),
            final(self).networks@.len() == 0,
            old(self).networks@.len() == 0 ==> final(self).ips@ == old(self).ips@,
            old(self).networks@.len() > 0 ==> is_aggregate(old(self).networks@, final(self).ips@),
    {
        if self.networks.len() == 0 {
            return;
        }
        self.ips = aggregate(&self.networks);
        proof {
            assert forall|i: int| 0 <= i < self.ips@.len() implies (#[trigger] self.ips@[i]).wf() && self.ips@[i].is_truncated() by {
                assert(self.ips@.contains(self.ips@[i]));
            }
        }
        self.networks.clear();
    }
}

/// What a row names: the network that is read in it, or else the single address that is read in
/// it, as a network of 32 bits or of 128 bits.
pub proof fn law_row_names(row: Seq<char>)
    ensures
        parsed_network(row) is Some ==> named_network(row) == parsed_network(row),
        parsed_network(row) is None && parsed_address(row) is None ==> named_network(row) is None,
        parsed_network(row) is None && parsed_address(row) is Some ==> named_network(row) == Some(
            IpNet {
                family: (parsed_address(row)->0).0,
                addr: (parsed_address(row)->0).1,
                prefix_len: match (parsed_address(row)->0).0 {
                    Family::V4 => 32u8,
                    Family::V6 => 128u8,
                },
            },
        ),
{
}

/// What lines name, one by one.
proof fn lemma_lines(rows: Seq<Seq<char>>, net: IpNet)
    ensures
        lines_networks(rows).contains(net) <==> exists|j: int|
            0 <= j < rows.len() && line_network(#[trigger] rows[j]) == Some(net),
    decreases rows.len(),
{
    if rows.len() > 0 {
        let front = rows.drop_last();
        let before = lines_networks(front);
        lemma_lines(front, net);
        if let Some(n) = line_network(rows.last()) {
            crate::netset::lemma_push_contains(before, n, net);
        }
        if lines_networks(rows).contains(net) {
            if before.contains(net) {
                let j = choose|j: int| 0 <= j < front.len() && line_network(#[trigger] front[j]) == Some(net);
                assert(line_network(rows[j]) == Some(net));
            } else {
                assert(line_network(rows[rows.len() - 1]) == Some(net));
            }
        }
        if exists|j: int| 0 <= j < rows.len() && line_network(#[trigger] rows[j]) == Some(net) {
            let j = choose|j: int| 0 <= j < rows.len() && line_network(#[trigger] rows[j]) == Some(net);
            if j < front.len() {
                assert(line_network(front[j]) == Some(net));
            }
        }
    }
}

/// The row, which is a line without white space around it, stands for the network: it is not
/// empty and no comment, and the network is read in it, or else it is that of the single address
/// that is read in it.
pub open spec fn row_reads(row: Seq<char>, net: IpNet) -> bool {
    &&& row.len() > 0
    &&& row[0] != '#'
    &&& {
        ||| parsed_network(row) == Some(net)
        ||| parsed_network(row) is None && parsed_address(row) == Some((net.family, net.addr)) && net.prefix_len == (
        match net.family {
            Family::V4 => 32u8,
            Family::V6 => 128u8,
        })
    }
}

/// Every row of a list counts, and nothing else: a network is named exactly if some line, without
/// the white space around it, is neither empty nor a comment and is read as that network, or is
/// read as no network but as the single address of that network.
pub proof fn law_every_row_counts(text: Seq<char>, net: IpNet)
    ensures
        text_networks(text).contains(net) <==> exists|j: int|
            0 <= j < split_lines(text).len() && {
                let row = trimmed(#[trigger] split_lines(text)[j]);
                &&& row.len() > 0
                &&& row[0] != '#'
                &&& {
                    ||| parsed_network(row) == Some(net)
                    ||| parsed_network(row) is None && parsed_address(row) == Some((net.family, net.addr))
                        && net.prefix_len == (match net.family {
                        Family::V4 => 32u8,
                        Family::V6 => 128u8,
                    })
                }
            },
        text_networks(text).contains(net) <==> exists|j: int|
            0 <= j < split_lines(text).len() && row_reads(trimmed(#[trigger] split_lines(text)[j]), net),
{
    let rows = split_lines(text);
    lemma_lines(rows, net);
    assert forall|j: int| 0 <= j < rows.len() implies (line_network(#[trigger] rows[j]) == Some(net) <==> row_reads(
        trimmed(rows[j]),
        net,
    )) by {}
    if text_networks(text).contains(net) {
        let j = choose|j: int| 0 <= j < rows.len() && line_network(#[trigger] rows[j]) == Some(net);
        assert(row_reads(trimmed(split_lines(text)[j]), net));
    }
    if exists|j: int| 0 <= j < rows.len() && row_reads(trimmed(#[trigger] split_lines(text)[j]), net) {
        let j = choose|j: int| 0 <= j < rows.len() && row_reads(trimmed(#[trigger] split_lines(text)[j]), net);
        assert(line_network(rows[j]) == Some(net));
    }
}

/// The rows of a list are read one by one and in order: what two runs of lines name is what the
/// first names and then what the second names, and a single line names at most one network.
pub proof fn law_rows_are_read_in_order(text: Seq<char>, first: Seq<Seq<char>>, second: Seq<Seq<char>>, line: Seq<char>)
    ensures
        text_networks(text) == lines_networks(split_lines(text)),
        lines_networks(first + second) == lines_networks(first) + lines_networks(second),
        lines_networks(seq![line]).len() <= 1,
        forall|net: IpNet| #[trigger] lines_networks(seq![line]).contains(net) <==> row_reads(trimmed(line), net),
    decreases second.len(),
{
    if second.len() == 0 {
        assert(first + second =~= first);
        assert(lines_networks(first + second) =~= lines_networks(first) + lines_networks(second));
    } else {
        assert((first + second).drop_last() =~= first + second.drop_last());
        law_rows_are_read_in_order(text, first, second.drop_last(), line);
        assert(lines_networks(first + second) =~= lines_networks(first) + lines_networks(second));
    }
    let one = seq![line];
    assert(one.drop_last() =~= Seq::<Seq<char>>::empty());
    assert(lines_networks(one.drop_last()) =~= Seq::<IpNet>::empty());
    assert forall|net: IpNet| #[trigger] lines_networks(one).contains(net) <==> row_reads(trimmed(line), net) by {
        lemma_lines(one, net);
        assert(one[0] == line);
        assert(line_network(line) == Some(net) <==> row_reads(trimmed(line), net));
    }
}

/// The address `a` of the family lies in a network that a row of the text stands for.
pub open spec fn lies_in_row(a: int, family: Family, text: Seq<char>) -> bool {
    exists|j: int, net: IpNet|
        0 <= j < split_lines(text).len() && #[trigger] row_reads(trimmed(split_lines(text)[j]), net) && net.family == family
            && lies_in(a, net)
}

/// A list names the addresses of its rows.
pub proof fn lemma_row_addresses(text: Seq<char>, family: Family, a: int)
    ensures
        lies_in_some(a, family, text_networks(text)) <==> lies_in_row(a, family, text),
{
    let nets = text_networks(text);
    if lies_in_some(a, family, nets) {
        let k = choose|k: int| 0 <= k < nets.len() && (#[trigger] nets[k]).family == family && lies_in(a, nets[k]);
        law_every_row_counts(text, nets[k]);
        assert(nets.contains(nets[k]));
        let j = choose|j: int| 0 <= j < split_lines(text).len() && row_reads(trimmed(#[trigger] split_lines(text)[j]), nets[k]);
        assert(row_reads(trimmed(split_lines(text)[j]), nets[k]));
    }
    if lies_in_row(a, family, text) {
        let (j, net) = choose|j: int, net: IpNet|
            0 <= j < split_lines(text).len() && #[trigger] row_reads(trimmed(split_lines(text)[j]), net) && net.family == family
                && lies_in(a, net);
        law_every_row_counts(text, net);
        assert(row_reads(trimmed(split_lines(text)[j]), net));
        let k = nets.index_of(net);
        assert(nets[k] == net);
    }
}

} // verus!
