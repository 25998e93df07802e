//! What changed in a list since it was last stored.

use vstd::prelude::*;
use vstd::string::StringExecFns;

use crate::feeds::{list_networks, merged, Feed, Lists, ReadOutcome};
use crate::net::{all_wf, IpNet};
use crate::netset::{difference, lemma_minus, minus};
use crate::outside::{format_network, network_text};

verus! {

/// The networks that a list lost and gained, each in ascending order.
#[derive(Clone, Debug)]
pub struct Delta {
    pub removed: Vec<IpNet>,
    pub added: Vec<IpNet>,
}

/// What changed from one text of a list to another, in their merged networks.
pub fn list_delta(before: &str, after: &str) -> (delta: Delta)
    ensures
        delta.removed@ == minus(merged(before@), merged(after@)),
        delta.added@ == minus(merged(after@), merged(before@)),
        all_wf(delta.removed@),
        all_wf(delta.added@),
{
    let old_nets: Vec<IpNet> = list_networks(before);
    let new_nets: Vec<IpNet> = list_networks(after);
    let removed: Vec<IpNet> = difference(&old_nets, &new_nets);
    let added: Vec<IpNet> = difference(&new_nets, &old_nets);
    proof {
        assert forall|i: int| 0 <= i < removed@.len() implies (#[trigger] removed@[i]).wf() by {
            assert(removed@.contains(removed@[i]));
            let k = old_nets@.index_of(removed@[i]);
            assert(old_nets@[k].wf());
        }
        assert forall|i: int| 0 <= i < added@.len() implies (#[trigger] added@[i]).wf() by {
            assert(added@.contains(added@[i]));
            let k = new_nets@.index_of(added@[i]);
            assert(new_nets@[k].wf());
        }
    }
    Delta { removed, added }
}

/// A line for each network: a sign and the network.
pub open spec fn signed_lines(sign: Seq<char>, nets: Seq<IpNet>) -> Seq<char>
    decreases nets.len(),
{
    if nets.len() == 0 {
        Seq::empty()
    } else {
        signed_lines(sign, nets.drop_last()) + sign + network_text(nets.last()) + "\n"@
    }
}

/// How a delta is written: a line with a minus for each network that was lost, and then one with
/// a plus for each that was gained.
pub open spec fn delta_text(before: Seq<char>, after: Seq<char>) -> Seq<char> {
    signed_lines("-"@, minus(merged(before), merged(after))) + signed_lines(
        "+"@,
        minus(merged(after), merged(before)),
    )
}

/// Appends a line for each network.
fn append_lines(text: &mut String, sign: &str, nets: &Vec<IpNet>)
    requires
        all_wf(nets@),
    ensures
        final(text)@ == old(text)@ + signed_lines(sign@, nets@),
{
    let mut i: usize = 0;
    while i < nets.len()
        invariant
            i <= nets@.len(),
            all_wf(nets@),
            text@ =~= old(text)@ + signed_lines(sign@, nets@.take(i as int)),
        decreases nets@.len() - i,
    {
        proof {
            assert(nets@.take(i + 1).drop_last() == nets@.take(i as int));
            assert(nets@.take(i + 1).last() == nets@[i as int]);
        }
        text.append(sign);
        text.append(format_network(&nets[i]).as_str());
        text.append("\n");
        i += 1;
    }
    assert(nets@.take(i as int) == nets@);
}

/// A delta to be written to its file.
#[derive(Clone, Debug)]
pub struct DeltaFile {
    /// The list that changed.
    pub feed: Feed,
    pub contents: String,
}

/// The content of a delta file.
pub struct DeltaView {
    pub feed: Feed,
    pub contents: Seq<char>,
}

impl View for DeltaFile {
    type V = DeltaView;

    open spec fn view(&self) -> DeltaView {
        DeltaView { feed: self.feed, contents: self.contents@ }
    }
}

impl DeltaFile {
    /// The file that keeps the delta.
    pub fn file_name(&self) -> (name: &'static str)
        ensures
            name@ == match self.feed {
                Feed::L1 => "firehol_level1.delta"@,
                Feed::L2 => "firehol_level2.delta"@,
                Feed::BogonsIpv4 => "fullbogons-ipv4.delta"@,
                Feed::BogonsIpv6 => "fullbogons-ipv6.delta"@,
                Feed::GithubMeta => "github-meta.delta"@,
            },
    {
        match self.feed {
            Feed::L1 => "firehol_level1.delta",
            Feed::L2 => "firehol_level2.delta",
            Feed::BogonsIpv4 => "fullbogons-ipv4.delta",
            Feed::BogonsIpv6 => "fullbogons-ipv6.delta",
            Feed::GithubMeta => "github-meta.delta",
        }
    }
}

/// The contents of a list of delta files.
pub open spec fn delta_views(files: Seq<DeltaFile>) -> Seq<DeltaView> {
    files.map_values(|file: DeltaFile| file@)
}

/// The text that was stored of a list. One that is not there, or cannot be read, counts as empty.
pub open spec fn stored_text(outcome: ReadOutcome) -> Seq<char> {
    match outcome {
        ReadOutcome::Text(text) => text@,
        _ => Seq::empty(),
    }
}

/// A list that was fetched has a delta against what was stored; another has none.
pub open spec fn changed_delta(feed: Feed, stored: ReadOutcome, fetched: Option<String>) -> Seq<DeltaView> {
    match fetched {
        Some(text) => seq![DeltaView { feed, contents: delta_text(stored_text(stored), text@) }],
        None => Seq::empty(),
    }
}

/// The deltas of the lists that were fetched, in order.
pub open spec fn changed_deltas(stored: Lists<ReadOutcome>, fetched: Lists<Option<String>>) -> Seq<DeltaView> {
    changed_delta(Feed::L1, stored.l1, fetched.l1) + changed_delta(Feed::L2, stored.l2, fetched.l2) + changed_delta(
        Feed::BogonsIpv4,
        stored.bogons_ipv4,
        fetched.bogons_ipv4,
    ) + changed_delta(Feed::BogonsIpv6, stored.bogons_ipv6, fetched.bogons_ipv6)
}

fn push_delta(files: &mut Vec<DeltaFile>, feed: Feed, stored: &ReadOutcome, fetched: &Option<String>)
    ensures
        delta_views(final(files)@) == delta_views(old(files)@) + changed_delta(feed, *stored, *fetched),
{
    if let Some(text) = fetched {
        let before: String = match stored {
            ReadOutcome::Text(text) => text.clone(),
            _ => String::new(),
        };
        assert(before@ =~= stored_text(*stored));
        let delta: Delta = list_delta(before.as_str(), text.as_str());
        let mut contents: String = String::new();
        append_lines(&mut contents, "-", &delta.removed);
        append_lines(&mut contents, "+", &delta.added);
        assert(contents@ =~= delta_text(before@, text@));
        files.push(DeltaFile { feed, contents });
    }
    assert(delta_views(files@) =~= delta_views(old(files)@) + changed_delta(feed, *stored, *fetched));
}

/// The delta files to write: those of the lists that were fetched.
pub fn persist_deltas(stored: &Lists<ReadOutcome>, fetched: &Lists<Option<String>>) -> (files: Vec<DeltaFile>)
    ensures
        delta_views(files@) == changed_deltas(*stored, *fetched),
{
    let mut files: Vec<DeltaFile> = Vec::new();
    push_delta(&mut files, Feed::L1, &stored.l1, &fetched.l1);
    push_delta(&mut files, Feed::L2, &stored.l2, &fetched.l2);
    push_delta(&mut files, Feed::BogonsIpv4, &stored.bogons_ipv4, &fetched.bogons_ipv4);
    push_delta(&mut files, Feed::BogonsIpv6, &stored.bogons_ipv6, &fetched.bogons_ipv6);
    assert(delta_views(files@) =~= changed_deltas(*stored, *fetched));
    files
}

/// A delta leads from the stored list to the new one: what was not lost, together with what was
/// gained, is the new list.
pub proof fn law_delta_leads_to_the_new_list(before: Seq<char>, after: Seq<char>, net: IpNet)
    ensures
        merged(after).contains(net) <==> merged(before).contains(net) && !minus(merged(before), merged(after)).contains(
            net,
        ) || minus(merged(after), merged(before)).contains(net),
{
    lemma_minus(merged(before), merged(after));
    lemma_minus(merged(after), merged(before));
    assert(minus(merged(before), merged(after)).contains(net) <==> merged(before).contains(net) && !merged(after).contains(net));
    assert(minus(merged(after), merged(before)).contains(net) <==> merged(after).contains(net) && !merged(before).contains(net));
}

/// Texts with the same merged networks have an empty delta.
pub proof fn law_same_networks_have_no_delta(before: Seq<char>, after: Seq<char>)
    requires
        merged(before) == merged(after),
    ensures
        delta_text(before, after) == Seq::<char>::empty(),
{
    let nothing = minus(merged(before), merged(before));
    lemma_minus(merged(before), merged(before));
    if nothing.len() > 0 {
        assert(nothing.contains(nothing[0]));
    }
    assert(delta_text(before, after) =~= Seq::<char>::empty());
}

/// A delta is written network by network and in order: a line has the sign, the network as a text,
/// and a line feed. What was lost has a minus and comes first, and what was gained has a plus.
pub proof fn law_delta_has_a_line_for_each_network(
    sign: Seq<char>,
    first: Seq<IpNet>,
    second: Seq<IpNet>,
    net: IpNet,
    before: Seq<char>,
    after: Seq<char>,
)
    ensures
        signed_lines(sign, first + second) == signed_lines(sign, first) + signed_lines(sign, second),
        signed_lines(sign, seq![net]) == sign + network_text(net) + "\n"@,
        signed_lines(sign, Seq::empty()) == Seq::<char>::empty(),
        delta_text(before, after) == signed_lines("-"@, minus(merged(before), merged(after))) + signed_lines(
            "+"@,
            minus(merged(after), merged(before)),
        ),
    decreases second.len(),
{
    if second.len() == 0 {
        assert(first + second =~= first);
        assert(signed_lines(sign, first + second) =~= signed_lines(sign, first) + signed_lines(sign, second));
    } else {
        assert((first + second).drop_last() =~= first + second.drop_last());
        law_delta_has_a_line_for_each_network(sign, first, second.drop_last(), net, before, after);
        assert(signed_lines(sign, first + second) =~= signed_lines(sign, first) + signed_lines(sign, second));
    }
    let one = seq![net];
    assert(one.drop_last() =~= Seq::<IpNet>::empty());
    assert(signed_lines(sign, one.drop_last()) =~= Seq::<char>::empty());
    assert(signed_lines(sign, one) =~= sign + network_text(net) + "\n"@);
}

/// What two runs of deltas hold together.
proof fn lemma_either(first: Seq<DeltaView>, second: Seq<DeltaView>, delta: DeltaView)
    ensures
        (first + second).contains(delta) <==> first.contains(delta) || second.contains(delta),
{
    if first.contains(delta) {
        let i = first.index_of(delta);
        assert((first + second)[i] == delta);
    }
    if second.contains(delta) {
        let i = second.index_of(delta);
        assert((first + second)[first.len() + i] == delta);
    }
}

/// The delta of a single list.
proof fn lemma_changed_delta(of: Feed, stored: ReadOutcome, fetched: Option<String>, feed: Feed, contents: Seq<char>)
    ensures
        changed_delta(of, stored, fetched).contains(DeltaView { feed, contents }) <==> of == feed && (fetched matches Some(text)
            && contents == delta_text(
            match stored {
                ReadOutcome::Text(before) => before@,
                _ => Seq::empty(),
            },
            text@,
        )),
        changed_delta(of, stored, fetched).len() == (fetched is Some) as int,
{
    if let Some(text) = fetched {
        assert(changed_delta(of, stored, fetched)[0].feed == of);
    }
}

/// A delta is written for every list that was fetched, once, and for no other: it is that of the
/// new text of the list against the stored text of the same list. A list that was not there or
/// could not be read counts as empty.
pub proof fn law_fetched_lists_have_deltas(
    stored: Lists<ReadOutcome>,
    fetched: Lists<Option<String>>,
    feed: Feed,
    contents: Seq<char>,
)
    ensures
        changed_deltas(stored, fetched).contains(DeltaView { feed, contents }) <==> match feed {
            Feed::L1 => fetched.l1 matches Some(text) && contents == delta_text(
                match stored.l1 {
                    ReadOutcome::Text(before) => before@,
                    _ => Seq::empty(),
                },
                text@,
            ),
            Feed::L2 => fetched.l2 matches Some(text) && contents == delta_text(
                match stored.l2 {
                    ReadOutcome::Text(before) => before@,
                    _ => Seq::empty(),
                },
                text@,
            ),
            Feed::BogonsIpv4 => fetched.bogons_ipv4 matches Some(text) && contents == delta_text(
                match stored.bogons_ipv4 {
                    ReadOutcome::Text(before) => before@,
                    _ => Seq::empty(),
                },
                text@,
            ),
            Feed::BogonsIpv6 => fetched.bogons_ipv6 matches Some(text) && contents == delta_text(
                match stored.bogons_ipv6 {
                    ReadOutcome::Text(before) => before@,
                    _ => Seq::empty(),
                },
                text@,
            ),
            Feed::GithubMeta => false,
        },
        changed_deltas(stored, fetched).len() == (fetched.l1 is Some) as int + (fetched.l2 is Some) as int + (
        fetched.bogons_ipv4 is Some) as int + (fetched.bogons_ipv6 is Some) as int,
{
    let delta = DeltaView { feed, contents };
    let a = changed_delta(Feed::L1, stored.l1, fetched.l1);
    let b = changed_delta(Feed::L2, stored.l2, fetched.l2);
    let c = changed_delta(Feed::BogonsIpv4, stored.bogons_ipv4, fetched.bogons_ipv4);
    let d = changed_delta(Feed::BogonsIpv6, stored.bogons_ipv6, fetched.bogons_ipv6);
    lemma_changed_delta(Feed::L1, stored.l1, fetched.l1, feed, contents);
    lemma_changed_delta(Feed::L2, stored.l2, fetched.l2, feed, contents);
    lemma_changed_delta(Feed::BogonsIpv4, stored.bogons_ipv4, fetched.bogons_ipv4, feed, contents);
    lemma_changed_delta(Feed::BogonsIpv6, stored.bogons_ipv6, fetched.bogons_ipv6, feed, contents);
    lemma_either(a, b, delta);
    lemma_either(a + b, c, delta);
    lemma_either(a + b + c, d, delta);
}

/// The content of delta files is all of them, in order.
pub proof fn law_content_of_delta_files(files: Seq<DeltaFile>, k: int)
    requires
        0 <= k < files.len(),
    ensures
        delta_views(files).len() == files.len(),
        delta_views(files)[k].feed == files[k].feed,
        delta_views(files)[k].contents == files[k].contents@,
{
}

} // verus!
