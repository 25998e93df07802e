//! The feeds: where they come from, when they are fetched, and what they hold.

use vstd::prelude::*;

use crate::blocks::{
    aggregate_of, law_aggregate_keeps_addresses, law_blocks_are_the_largest, lemma_aggregate_of,
    lemma_aggregate_of_nothing, wider,
};
use crate::config::Config;
use crate::ipset::{lemma_row_addresses, lies_in_row, named_network, row_reads, text_networks, Ipset};
use crate::net::{
    all_truncated, all_wf, ascending, covered, is_aggregate, lemma_covered, lies_in, lies_in_some, Family, IpNet,
};
use crate::netset::{lemma_listed, lemma_normalized, lemma_push_contains, names, normalized};
use crate::outside::{format_network, network_text, parsed_network, sort_texts};
use crate::text::{is_white_space, lemma_plain_row, split_lines, text_le, texts, trimmed};
use crate::whitelist::{all_named, law_outermost_keeps_addresses, lemma_outermost, named_networks, outermost};

verus! {

/// Where GitHub publishes its metadata.
pub const GITHUB_META_URL: &'static str = "https://api.github.com/meta";

/// A feed.
#[derive(Clone, Copy, Debug, PartialEq, Eq, Structural)]
pub enum Feed {
    L1,
    L2,
    BogonsIpv4,
    BogonsIpv6,
    GithubMeta,
}

impl Feed {
    /// The file that keeps the feed.
    pub open spec fn file(self) -> Seq<char> {
        match self {
            Feed::L1 => "firehol_level1.netset"@,
            Feed::L2 => "firehol_level2.netset"@,
            Feed::BogonsIpv4 => "fullbogons-ipv4.txt"@,
            Feed::BogonsIpv6 => "fullbogons-ipv6.txt"@,
            Feed::GithubMeta => "github-meta.json"@,
        }
    }

    /// The file that keeps the feed.
    pub fn file_name(self) -> (name: &'static str)
        ensures
            name@ == self.file(),
    {
        match self {
            Feed::L1 => "firehol_level1.netset",
            Feed::L2 => "firehol_level2.netset",
            Feed::BogonsIpv4 => "fullbogons-ipv4.txt",
            Feed::BogonsIpv6 => "fullbogons-ipv6.txt",
            Feed::GithubMeta => "github-meta.json",
        }
    }

    /// Where the feed is fetched from.
    pub fn url<'a>(self, config: &'a Config) -> (url: &'a str)
        ensures
            url@ == match self {
                Feed::L1 => config.l1_url@,
                Feed::L2 => config.l2_url@,
                Feed::BogonsIpv4 => config.bogons_ipv4_url@,
                Feed::BogonsIpv6 => config.bogons_ipv6_url@,
                Feed::GithubMeta => GITHUB_META_URL@,
            },
    {
        match self {
            Feed::L1 => config.l1_url.as_str(),
            Feed::L2 => config.l2_url.as_str(),
            Feed::BogonsIpv4 => config.bogons_ipv4_url.as_str(),
            Feed::BogonsIpv6 => config.bogons_ipv6_url.as_str(),
            Feed::GithubMeta => GITHUB_META_URL,
        }
    }

    /// What the feed is called in messages.
    pub fn title(self) -> (title: &'static str)
        ensures
            title@ == match self {
                Feed::L1 => "FireHOL Level 1"@,
                Feed::L2 => "FireHOL Level 2"@,
                Feed::BogonsIpv4 => "Team Cymru IPv4 bogons"@,
                Feed::BogonsIpv6 => "Team Cymru IPv6 bogons"@,
                Feed::GithubMeta => "GitHub IP metadata"@,
            },
    {
        match self {
            Feed::L1 => "FireHOL Level 1",
            Feed::L2 => "FireHOL Level 2",
            Feed::BogonsIpv4 => "Team Cymru IPv4 bogons",
            Feed::BogonsIpv6 => "Team Cymru IPv6 bogons",
            Feed::GithubMeta => "GitHub IP metadata",
        }
    }
}

/// One thing for each of the four lists.
#[derive(Debug)]
pub struct Lists<T> {
    pub l1: T,
    pub l2: T,
    pub bogons_ipv4: T,
    pub bogons_ipv6: T,
}

/// One thing for each feed.
#[derive(Debug)]
pub struct Feeds<T> {
    pub lists: Lists<T>,
    pub github_meta: T,
}

/// The ETag of each feed, where one is known.
#[derive(Clone, Debug, PartialEq, Eq)]
pub struct Etags {
    pub l1: Option<String>,
    pub l2: Option<String>,
    pub bogons_ipv4: Option<String>,
    pub bogons_ipv6: Option<String>,
    pub github_meta: Option<String>,
}

impl Default for Etags {
    fn default() -> (etags: Self)
        ensures
            etags == (Etags { l1: None, l2: None, bogons_ipv4: None, bogons_ipv6: None, github_meta: None }),
    {
        Etags { l1: None, l2: None, bogons_ipv4: None, bogons_ipv6: None, github_meta: None }
    }
}

/// The text of an ETag.
pub open spec fn etag_text(etag: Option<String>) -> Option<Seq<char>> {
    match etag {
        Some(text) => Some(text@),
        None => None,
    }
}

/// A feed is as it was: it is cached, and the server names the ETag that was recorded.
pub open spec fn unchanged(cached: bool, remote: Option<String>, recorded: Option<String>) -> bool {
    cached && remote is Some && etag_text(remote) == etag_text(recorded)
}

/// Whether a feed must be downloaded: unless it is cached and its ETag is known and the same.
pub fn download_if_changed(cached_file_exists: bool, remote_etag: &Option<String>, cached_etag: &Option<String>) -> (download: bool)
    ensures
        download == !unchanged(cached_file_exists, *remote_etag, *cached_etag),
{
    let etag_changed: bool = match (remote_etag, cached_etag) {
        (Some(remote), Some(cached)) => *remote != *cached,
        _ => true,
    };
    !cached_file_exists || etag_changed
}

/// What stands at the place of a cached feed.
#[derive(Clone, Copy, Debug, PartialEq, Eq, Structural)]
pub enum Probe {
    File,
    /// Something that is not a file.
    NotFile,
    NotFound,
    /// It could not be found out.
    Failed,
}

/// Why it is not known whether a feed is cached.
#[derive(Clone, Copy, Debug, PartialEq, Eq, Structural)]
pub enum CacheError {
    NotFile,
    Failed,
}

/// Whether a feed is cached.
pub fn cache_file_exists(probe: Probe) -> (result: Result<bool, CacheError>)
    ensures
        result == match probe {
            Probe::File => Ok::<bool, CacheError>(true),
            Probe::NotFile => Err::<bool, CacheError>(CacheError::NotFile),
            Probe::NotFound => Ok::<bool, CacheError>(false),
            Probe::Failed => Err::<bool, CacheError>(CacheError::Failed),
        },
{
    match probe {
        Probe::File => Ok(true),
        Probe::NotFile => Err(CacheError::NotFile),
        Probe::NotFound => Ok(false),
        Probe::Failed => Err(CacheError::Failed),
    }
}

/// What came of reading a file.
#[derive(Debug)]
pub enum ReadOutcome {
    Text(String),
    NotFound,
    Failed,
}

/// The text of a cached feed, and whether it is missing; nothing if it could not be read.
pub fn read_cached_or_missing(outcome: ReadOutcome) -> (result: Option<(String, bool)>)
    ensures
        match outcome {
            ReadOutcome::Text(text) => result == Some((text, false)),
            ReadOutcome::NotFound => result matches Some((text, missing)) && text@.len() == 0 && missing,
            ReadOutcome::Failed => result is None,
        },
{
    match outcome {
        ReadOutcome::Text(text) => Some((text, false)),
        ReadOutcome::NotFound => Some((String::new(), true)),
        ReadOutcome::Failed => None,
    }
}

/// The text of a file, which is empty for a file that is not there; nothing if it could not be read.
pub fn read_or_empty(outcome: ReadOutcome) -> (result: Option<String>)
    ensures
        match outcome {
            ReadOutcome::Text(text) => result == Some(text),
            ReadOutcome::NotFound => result matches Some(text) && text@.len() == 0,
            ReadOutcome::Failed => result is None,
        },
{
    match outcome {
        ReadOutcome::Text(text) => Some(text),
        ReadOutcome::NotFound => Some(String::new()),
        ReadOutcome::Failed => None,
    }
}

/// A feed to be written to its file.
#[derive(Debug)]
pub struct FeedFile {
    pub feed: Feed,
    pub contents: String,
}

/// A feed with new contents is written; another is not.
pub open spec fn changed_file(feed: Feed, contents: Option<String>) -> Seq<FeedFile> {
    match contents {
        Some(contents) => seq![FeedFile { feed, contents }],
        None => Seq::empty(),
    }
}

/// The files of the feeds with new contents, in order.
pub open spec fn changed_files(feeds: Feeds<Option<String>>) -> Seq<FeedFile> {
    changed_file(Feed::L1, feeds.lists.l1) + changed_file(Feed::L2, feeds.lists.l2) + changed_file(
        Feed::BogonsIpv4,
        feeds.lists.bogons_ipv4,
    ) + changed_file(Feed::BogonsIpv6, feeds.lists.bogons_ipv6) + changed_file(Feed::GithubMeta, feeds.github_meta)
}

/// The files of all feeds, in order.
pub open spec fn all_files(feeds: Feeds<String>) -> Seq<FeedFile> {
    seq![
        FeedFile { feed: Feed::L1, contents: feeds.lists.l1 },
        FeedFile { feed: Feed::L2, contents: feeds.lists.l2 },
        FeedFile { feed: Feed::BogonsIpv4, contents: feeds.lists.bogons_ipv4 },
        FeedFile { feed: Feed::BogonsIpv6, contents: feeds.lists.bogons_ipv6 },
        FeedFile { feed: Feed::GithubMeta, contents: feeds.github_meta },
    ]
}

fn push_changed(files: &mut Vec<FeedFile>, feed: Feed, contents: Option<String>)
    ensures
        final(files)@ == old(files)@ + changed_file(feed, contents),
{
    if let Some(contents) = contents {
        files.push(FeedFile { feed, contents });
    }
    assert(files@ =~= old(files)@ + changed_file(feed, contents));
}

/// The files to write after an update: those of the feeds with new contents.
pub fn persist_changed_downloads(feeds: Feeds<Option<String>>) -> (files: Vec<FeedFile>)
    ensures
        files@ == changed_files(feeds),
{
    let mut files: Vec<FeedFile> = Vec::new();
    push_changed(&mut files, Feed::L1, feeds.lists.l1);
    push_changed(&mut files, Feed::L2, feeds.lists.l2);
    push_changed(&mut files, Feed::BogonsIpv4, feeds.lists.bogons_ipv4);
    push_changed(&mut files, Feed::BogonsIpv6, feeds.lists.bogons_ipv6);
    push_changed(&mut files, Feed::GithubMeta, feeds.github_meta);
    assert(files@ =~= changed_files(feeds));
    files
}

/// The files to write after a restoration: those of all feeds.
pub fn persist_downloads(feeds: Feeds<String>) -> (files: Vec<FeedFile>)
    ensures
        files@ == all_files(feeds),
{
    let mut files: Vec<FeedFile> = Vec::new();
    files.push(FeedFile { feed: Feed::L1, contents: feeds.lists.l1 });
    files.push(FeedFile { feed: Feed::L2, contents: feeds.lists.l2 });
    files.push(FeedFile { feed: Feed::BogonsIpv4, contents: feeds.lists.bogons_ipv4 });
    files.push(FeedFile { feed: Feed::BogonsIpv6, contents: feeds.lists.bogons_ipv6 });
    files.push(FeedFile { feed: Feed::GithubMeta, contents: feeds.github_meta });
    assert(files@ =~= all_files(feeds));
    files
}

/// The networks of a list, merged: the largest blocks that they fill, in ascending order.
pub open spec fn merged(text: Seq<char>) -> Seq<IpNet> {
    aggregate_of(text_networks(text))
}

/// The networks that a set holds once everything in it is merged.
fn merge(set: Ipset) -> (nets: Vec<IpNet>)
    requires
        set.wf(),
        set.ips@.len() == 0,
    ensures
        nets@ == aggregate_of(set.networks@),
        is_aggregate(set.networks@, nets@),
        all_wf(nets@),
        all_truncated(nets@),
{
    let ghost gathered = set.networks@;
    let mut set: Ipset = set;
    set.consolidate();
    proof {
        if gathered.len() == 0 {
            lemma_aggregate_of_nothing();
            assert(gathered =~= Seq::<IpNet>::empty());
            assert(set.ips@ =~= Seq::<IpNet>::empty());
        }
        lemma_aggregate_of(gathered, set.ips@);
    }
    set.ips
}

/// The networks of a list, merged, in ascending order.
pub fn list_networks(text: &str) -> (nets: Vec<IpNet>)
    ensures
        nets@ == merged(text@),
        all_wf(text_networks(text@)),
        is_aggregate(text_networks(text@), nets@),
        ascending(nets@),
        all_wf(nets@),
        all_truncated(nets@),
{
    let set: Ipset = Ipset::new().from(text);
    assert(set.networks@ =~= text_networks(text@));
    merge(set)
}

/// The networks that the entries of a whitelist name, in order.
pub open spec fn entries_networks(entries: Seq<Seq<char>>) -> Seq<IpNet>
    decreases entries.len(),
{
    if entries.len() == 0 {
        Seq::empty()
    } else {
        entries_networks(entries.drop_last()) + text_networks(entries.last())
    }
}

/// The texts of the networks of one family.
pub open spec fn family_texts(nets: Seq<IpNet>, family: Family) -> Seq<Seq<char>>
    decreases nets.len(),
{
    if nets.len() == 0 {
        Seq::empty()
    } else {
        let before = family_texts(nets.drop_last(), family);
        if nets.last().family == family {
            before.push(network_text(nets.last()))
        } else {
            before
        }
    }
}

/// The texts name exactly the networks of one family.
pub open spec fn names_family(list: Seq<String>, nets: Seq<IpNet>, family: Family) -> bool {
    &&& all_named(list)
    &&& forall|i: int| 0 <= i < list.len() ==> parsed_network((#[trigger] list[i])@) is Some
    &&& forall|net: IpNet| #[trigger]
        named_networks(list).contains(net) <==> nets.contains(net) && net.family == family
}

/// The strings are the merged networks of one family that the whitelist names, as texts and in
/// the order of texts.
pub open spec fn is_whitelist(whitelist: Seq<String>, family: Family, list: Seq<String>) -> bool {
    let entries = entries_networks(texts(whitelist));
    let blocks = aggregate_of(entries);
    &&& all_wf(entries)
    &&& is_aggregate(entries, blocks)
    &&& texts(list).to_multiset() == family_texts(blocks, family).to_multiset()
    &&& forall|i: int, j: int|
        0 <= i <= j < list.len() ==> text_le((#[trigger] list[i])@, (#[trigger] list[j])@)
    &&& names_family(list, blocks, family)
}

/// What a list names depends only on which texts it has.
proof fn lemma_same_names(a: Seq<String>, b: Seq<String>)
    requires
        texts(a).to_multiset() == texts(b).to_multiset(),
        all_named(a),
    ensures
        all_named(b),
        forall|net: IpNet| #[trigger] named_networks(b).contains(net) <==> named_networks(a).contains(net),
{
    broadcast use vstd::seq_lib::group_to_multiset_ensures;

    assert forall|i: int| 0 <= i < b.len() implies named_network((#[trigger] b[i])@) is Some by {
        let k = lemma_same_text(b, a, i);
        assert(named_network(a[k]@) is Some);
    }
    assert forall|net: IpNet| #[trigger] named_networks(b).contains(net) <==> named_networks(a).contains(net) by {
        if named_networks(b).contains(net) {
            let i = named_networks(b).index_of(net);
            let k = lemma_same_text(b, a, i);
            assert(named_networks(a)[k] == net);
        }
        if named_networks(a).contains(net) {
            let i = named_networks(a).index_of(net);
            let k = lemma_same_text(a, b, i);
            assert(named_networks(b)[k] == net);
        }
    }
}

/// Where the text at `i` of one list stands in another with the same texts.
proof fn lemma_same_text(a: Seq<String>, b: Seq<String>, i: int) -> (k: int)
    requires
        texts(a).to_multiset() == texts(b).to_multiset(),
        0 <= i < a.len(),
    ensures
        0 <= k < b.len(),
        b[k]@ == a[i]@,
{
    broadcast use vstd::seq_lib::group_to_multiset_ensures;

    let text = a[i]@;
    assert(texts(a)[i] == text);
    assert(texts(a).contains(text));
    assert(texts(a).to_multiset().count(text) > 0);
    assert(texts(b).contains(text));
    texts(b).index_of(text)
}

/// The texts of the networks of one family, in the order of texts.
fn sorted_texts(nets: &Vec<IpNet>, family: Family) -> (list: Vec<String>)
    requires
        all_wf(nets@),
    ensures
        texts(list@).to_multiset() == family_texts(nets@, family).to_multiset(),
        forall|i: int, j: int|
            0 <= i <= j < list@.len() ==> text_le((#[trigger] list@[i])@, (#[trigger] list@[j])@),
        names_family(list@, nets@, family),
{
    let mut list: Vec<String> = Vec::new();
    let mut i: usize = 0;
    while i < nets.len()
        invariant
            i <= nets@.len(),
            all_wf(nets@),
            texts(list@) =~= family_texts(nets@.take(i as int), family),
            names_family(list@, nets@.take(i as int), family),
        decreases nets@.len() - i,
    {
        let ghost before = list@;
        let net: IpNet = nets[i];
        proof {
            assert(nets@.take(i + 1).drop_last() == nets@.take(i as int));
            assert(nets@.take(i + 1).last() == net);
            assert(nets@.take(i + 1) == nets@.take(i as int).push(net));
            assert forall|n: IpNet| #[trigger] nets@.take(i + 1).contains(n) <==> nets@.take(i as int).contains(n) || n == net by {
                lemma_push_contains(nets@.take(i as int), net, n);
            }
        }
        if net.family == family {
            list.push(format_network(&net));
            proof {
                assert(named_networks(list@) =~= named_networks(before).push(net));
                assert forall|n: IpNet| #[trigger] named_networks(list@).contains(n) <==> named_networks(before).contains(n) || n == net by {
                    lemma_push_contains(named_networks(before), net, n);
                }
            }
        }
        i += 1;
    }
    assert(nets@.take(i as int) == nets@);
    let ghost unsorted = list@;
    sort_texts(&mut list);
    proof {
        lemma_same_names(unsorted, list@);
        assert forall|i: int| 0 <= i < list@.len() implies parsed_network((#[trigger] list@[i])@) is Some by {
            let k = lemma_same_text(list@, unsorted, i);
            assert(parsed_network(unsorted[k]@) is Some);
        }
    }
    list
}

/// The merged networks of the configured whitelist, as texts: those of IPv4, and those of IPv6.
pub fn load_whitelist(whitelist: &Vec<String>) -> (lists: (Vec<String>, Vec<String>))
    ensures
        is_whitelist(whitelist@, Family::V4, lists.0@),
        is_whitelist(whitelist@, Family::V6, lists.1@),
{
    let mut set: Ipset = Ipset::new();
    let mut i: usize = 0;
    while i < whitelist.len()
        invariant
            i <= whitelist@.len(),
            set.wf(),
            set.ips@.len() == 0,
            set.networks@ =~= entries_networks(texts(whitelist@).take(i as int)),
        decreases whitelist@.len() - i,
    {
        proof {
            let all = texts(whitelist@);
            assert(all.take(i + 1).drop_last() == all.take(i as int));
            assert(all.take(i + 1).last() == whitelist@[i as int]@);
        }
        set = set.from(whitelist[i].as_str());
        i += 1;
    }
    assert(texts(whitelist@).take(i as int) == texts(whitelist@));
    let nets: Vec<IpNet> = merge(set);
    (sorted_texts(&nets, Family::V4), sorted_texts(&nets, Family::V6))
}

/// The whitelist sets cover exactly what the configuration names: an address of the family is in
/// the elements that a whitelist brings exactly if a configured network holds it.
pub proof fn law_whitelist_covers_configured(whitelist: Seq<String>, family: Family, list: Seq<String>, a: int)
    requires
        is_whitelist(whitelist, family, list),
    ensures
        covered(outermost(named_networks(list), family), family, a) <==> covered(
            entries_networks(texts(whitelist)),
            family,
            a,
        ),
{
    let entries = entries_networks(texts(whitelist));
    let blocks = aggregate_of(entries);
    let named = named_networks(list);
    assert forall|i: int| 0 <= i < named.len() implies (#[trigger] named[i]).wf() && named[i].family == family by {
        assert(named.contains(named[i]));
        let k = blocks.index_of(named[i]);
        assert(blocks.contains(blocks[k]));
    }
    lemma_outermost(named, family);
    law_outermost_keeps_addresses(named, family, outermost(named, family), a);
    law_aggregate_keeps_addresses(entries, blocks);
    assert(covered(entries, family, a) <==> covered(blocks, family, a));
    if covered(named, family, a) {
        let i = choose|i: int| 0 <= i < named.len() && (#[trigger] named[i]).family == family && named[i].has(a);
        assert(named.contains(named[i]));
        let k = blocks.index_of(named[i]);
        assert(blocks[k].family == family && blocks[k].has(a));
    }
    if covered(blocks, family, a) {
        let k = choose|k: int| 0 <= k < blocks.len() && (#[trigger] blocks[k]).family == family && blocks[k].has(a);
        assert(blocks.contains(blocks[k]));
        assert(named.contains(blocks[k]));
        let i = named.index_of(blocks[k]);
        assert(named[i].family == family && named[i].has(a));
    }
}

/// The set of a list covers exactly what the list names: the networks that the set is to hold
/// are the merged ones, and they hold the same addresses as the networks in the text.
pub proof fn law_set_covers_list(text: Seq<char>, family: Family, a: int)
    requires
        all_wf(text_networks(text)),
        is_aggregate(text_networks(text), merged(text)),
    ensures
        normalized(merged(text)) == merged(text),
        covered(normalized(merged(text)), family, a) <==> covered(text_networks(text), family, a),
{
    let blocks = merged(text);
    lemma_normalized(blocks);
    assert forall|net: IpNet| #[trigger] blocks.contains(net) <==> names(blocks, net) by {
        if blocks.contains(net) {
            let i = blocks.index_of(net);
            assert(blocks[i].truncated() == net);
        }
        if names(blocks, net) {
            let i = choose|i: int| 0 <= i < blocks.len() && (#[trigger] blocks[i]).truncated() == net;
            assert(blocks.contains(blocks[i]));
        }
    }
    lemma_listed(blocks, |net: IpNet| names(blocks, net));
    law_aggregate_keeps_addresses(text_networks(text), blocks);
    assert(covered(text_networks(text), family, a) <==> covered(blocks, family, a));
}

/// A feed whose ETag is not the recorded one is fetched, whether or not it is cached: after a
/// cycle that failed, what it fetched is fetched again.
pub proof fn law_new_etag_is_fetched(cached: bool, remote: Option<String>, recorded: Option<String>)
    requires
        etag_text(remote) != etag_text(recorded),
    ensures
        !unchanged(cached, remote, recorded),
{
}

/// The networks that a list stands for hold exactly the addresses of its rows: of every line that
/// is read as a network or as a single address, and of no other.
pub proof fn law_list_holds_its_rows(text: Seq<char>, family: Family, a: int)
    requires
        all_wf(text_networks(text)),
        is_aggregate(text_networks(text), merged(text)),
    ensures
        lies_in_some(a, family, merged(text)) <==> exists|j: int, net: IpNet|
            0 <= j < split_lines(text).len() && #[trigger] row_reads(trimmed(split_lines(text)[j]), net) && net.family
                == family && lies_in(a, net),
        lies_in_some(a, family, merged(text)) <==> lies_in_row(a, family, text),
{
    let nets = text_networks(text);
    let blocks = merged(text);
    assert(all_wf(blocks)) by {
        assert forall|k: int| 0 <= k < blocks.len() implies (#[trigger] blocks[k]).wf() by {
            assert(blocks.contains(blocks[k]));
        }
    }
    law_aggregate_keeps_addresses(nets, blocks);
    assert(covered(nets, family, a) <==> covered(blocks, family, a));
    lemma_covered(nets, family, a);
    lemma_covered(blocks, family, a);
    lemma_row_addresses(text, family, a);
}

/// What entries name, one by one.
proof fn lemma_entries(entries: Seq<Seq<char>>, net: IpNet)
    ensures
        entries_networks(entries).contains(net) <==> exists|i: int|
            0 <= i < entries.len() && text_networks(#[trigger] entries[i]).contains(net),
    decreases entries.len(),
{
    if entries.len() > 0 {
        let front = entries.drop_last();
        let before = entries_networks(front);
        let last = text_networks(entries.last());
        lemma_entries(front, net);
        if entries_networks(entries).contains(net) {
            let k = (before + last).index_of(net);
            if k < before.len() {
                assert(before[k] == net);
                let i = choose|i: int| 0 <= i < front.len() && text_networks(#[trigger] front[i]).contains(net);
                assert(text_networks(entries[i]).contains(net));
            } else {
                assert(last[k - before.len()] == net);
                assert(text_networks(entries[entries.len() - 1]).contains(net));
            }
        }
        if exists|i: int| 0 <= i < entries.len() && text_networks(#[trigger] entries[i]).contains(net) {
            let i = choose|i: int| 0 <= i < entries.len() && text_networks(#[trigger] entries[i]).contains(net);
            if i < front.len() {
                assert(text_networks(front[i]).contains(net));
                let k = before.index_of(net);
                assert((before + last)[k] == net);
            } else {
                let k = last.index_of(net);
                assert((before + last)[before.len() + k] == net);
            }
        }
    }
}

/// The address `a` of the family lies in a network that one of the texts is.
pub open spec fn lies_in_list(a: int, family: Family, list: Seq<String>) -> bool {
    exists|k: int| 0 <= k < list.len() && (parsed_network((#[trigger] list[k])@) matches Some(net) && net.family == family && lies_in(a, net))
}

/// Every entry of a whitelist counts: an address lies in the networks of the list that is made
/// of it exactly if it lies in a network, or is the single address, that is read in a row of some
/// entry. The list holds networks of its family only, in blocks that are as large as they can be,
/// and in the order of texts.
pub proof fn law_every_entry_counts(whitelist: Seq<String>, family: Family, list: Seq<String>, a: int)
    requires
        is_whitelist(whitelist, family, list),
    ensures
        lies_in_list(a, family, list) <==> exists|i: int, j: int, net: IpNet|
            0 <= i < whitelist.len() && 0 <= j < split_lines(whitelist[i]@).len() && #[trigger] row_reads(
                trimmed(split_lines(whitelist[i]@)[j]),
                net,
            ) && net.family == family && lies_in(a, net),
        lies_in_list(a, family, list) <==> exists|i: int|
            0 <= i < whitelist.len() && lies_in_row(a, family, (#[trigger] whitelist[i])@),
        forall|k: int|
            0 <= k < list.len() ==> (parsed_network((#[trigger] list[k])@) matches Some(net) && net.family == family),
        forall|k: int|
            0 <= k < list.len() ==> (parsed_network((#[trigger] list[k])@) matches Some(net) && net.truncated() == net && (
            net.prefix_len > 0 ==> exists|b: int| #[trigger] lies_in(b, wider(net)) && !lies_in_list(b, family, list))),
        forall|k: int, l: int| 0 <= k <= l < list.len() ==> text_le((#[trigger] list[k])@, (#[trigger] list[l])@),
{
    let entries = entries_networks(texts(whitelist));
    let blocks = aggregate_of(entries);
    let named = named_networks(list);
    assert forall|k: int| 0 <= k < list.len() implies (parsed_network((#[trigger] list[k])@) matches Some(net) && net.family == family) by {
        assert(named.contains(named[k]));
    }
    assert(all_wf(blocks)) by {
        assert forall|k: int| 0 <= k < blocks.len() implies (#[trigger] blocks[k]).wf() by {
            assert(blocks.contains(blocks[k]));
        }
    }
    law_blocks_are_the_largest(entries, blocks);
    assert forall|k: int| 0 <= k < list.len() implies (parsed_network((#[trigger] list[k])@) matches Some(net) && net.truncated() == net && (
    net.prefix_len > 0 ==> exists|b: int| #[trigger] lies_in(b, wider(net)) && !lies_in_list(b, family, list))) by {
        let net = named[k];
        assert(named.contains(net));
        let at = blocks.index_of(net);
        assert(blocks[at].truncated() == blocks[at]);
        if net.prefix_len > 0 {
            let b = choose|b: int| #[trigger] lies_in(b, wider(net)) && !lies_in_some(b, net.family, blocks);
            if lies_in_list(b, family, list) {
                let l = choose|l: int| 0 <= l < list.len() && (parsed_network((#[trigger] list[l])@) matches Some(other) && other.family == family && lies_in(b, other));
                assert(named.contains(named[l]));
                let m = blocks.index_of(named[l]);
                assert(blocks[m].family == family && lies_in(b, blocks[m]));
            }
            assert(lies_in(b, wider(net)) && !lies_in_list(b, family, list));
        }
    }
    law_aggregate_keeps_addresses(entries, blocks);
    assert(covered(entries, family, a) <==> covered(blocks, family, a));
    lemma_covered(entries, family, a);
    lemma_covered(blocks, family, a);
    if lies_in_list(a, family, list) {
        let k = choose|k: int| 0 <= k < list.len() && (parsed_network((#[trigger] list[k])@) matches Some(net) && net.family == family && lies_in(a, net));
        assert(named.contains(named[k]));
        let b = blocks.index_of(named[k]);
        assert(blocks[b].family == family && lies_in(a, blocks[b]));
        let e = choose|e: int| 0 <= e < entries.len() && (#[trigger] entries[e]).family == family && lies_in(a, entries[e]);
        let net = entries[e];
        assert(entries.contains(net));
        lemma_entries(texts(whitelist), net);
        let i = choose|i: int| 0 <= i < texts(whitelist).len() && text_networks(#[trigger] texts(whitelist)[i]).contains(net);
        let text = whitelist[i]@;
        assert(texts(whitelist)[i] == text);
        let t = text_networks(text).index_of(net);
        assert(text_networks(text)[t].family == family && lies_in(a, text_networks(text)[t]));
        lemma_row_addresses(text, family, a);
        assert(lies_in_row(a, family, whitelist[i]@));
        let (j, row) = choose|j: int, row: IpNet|
            0 <= j < split_lines(text).len() && #[trigger] row_reads(trimmed(split_lines(text)[j]), row) && row.family == family
                && lies_in(a, row);
        assert(row_reads(trimmed(split_lines(whitelist[i]@)[j]), row));
    }
    if exists|i: int, j: int, net: IpNet|
        0 <= i < whitelist.len() && 0 <= j < split_lines(whitelist[i]@).len() && #[trigger] row_reads(
            trimmed(split_lines(whitelist[i]@)[j]),
            net,
        ) && net.family == family && lies_in(a, net) {
        let (i, j, net) = choose|i: int, j: int, net: IpNet|
            0 <= i < whitelist.len() && 0 <= j < split_lines(whitelist[i]@).len() && #[trigger] row_reads(
                trimmed(split_lines(whitelist[i]@)[j]),
                net,
            ) && net.family == family && lies_in(a, net);
        assert(row_reads(trimmed(split_lines(whitelist[i]@)[j]), net));
        assert(lies_in_row(a, family, whitelist[i]@));
    }
    if exists|i: int| 0 <= i < whitelist.len() && lies_in_row(a, family, (#[trigger] whitelist[i])@) {
        let i = choose|i: int| 0 <= i < whitelist.len() && lies_in_row(a, family, (#[trigger] whitelist[i])@);
        let text = whitelist[i]@;
        assert(texts(whitelist)[i] == text);
        lemma_row_addresses(text, family, a);
        let t = choose|t: int| 0 <= t < text_networks(text).len() && (#[trigger] text_networks(text)[t]).family == family && lies_in(a, text_networks(text)[t]);
        let net = text_networks(text)[t];
        assert(text_networks(text).contains(net));
        lemma_entries(texts(whitelist), net);
        assert(text_networks(texts(whitelist)[i]).contains(net));
        let e = entries.index_of(net);
        assert(entries[e].family == family && lies_in(a, entries[e]));
        let b = choose|b: int| 0 <= b < blocks.len() && (#[trigger] blocks[b]).family == family && lies_in(a, blocks[b]);
        assert(blocks.contains(blocks[b]));
        assert(named.contains(blocks[b]));
        let k = named.index_of(blocks[b]);
        assert(parsed_network(list[k]@) is Some);
    }
}

/// An entry that is a network, without white space or a comment sign, has every address of that
/// network in the list of its family.
pub proof fn law_entry_is_whitelisted(
    whitelist: Seq<String>,
    family: Family,
    list: Seq<String>,
    i: int,
    net: IpNet,
    a: int,
)
    requires
        is_whitelist(whitelist, family, list),
        0 <= i < whitelist.len(),
        whitelist[i]@.len() > 0,
        whitelist[i]@[0] != '#',
        forall|c: int| 0 <= c < whitelist[i]@.len() ==> !is_white_space(#[trigger] whitelist[i]@[c]),
        parsed_network(whitelist[i]@) == Some(net),
        net.family == family,
        lies_in(a, net),
    ensures
        exists|k: int|
            0 <= k < list.len() && (parsed_network((#[trigger] list[k])@) matches Some(block) && block.family == family
                && lies_in(a, block)),
{
    let text = whitelist[i]@;
    lemma_plain_row(text);
    assert(row_reads(trimmed(split_lines(text)[0]), net));
    assert(lies_in_row(a, family, whitelist[i]@));
    law_every_entry_counts(whitelist, family, list, a);
}

/// The texts of the networks of one family are taken one by one and in order.
pub proof fn law_family_texts(first: Seq<IpNet>, second: Seq<IpNet>, net: IpNet, family: Family)
    ensures
        family_texts(first + second, family) == family_texts(first, family) + family_texts(second, family),
        net.family == family ==> family_texts(seq![net], family) == seq![network_text(net)],
        net.family != family ==> family_texts(seq![net], family) == Seq::<Seq<char>>::empty(),
    decreases second.len(),
{
    if second.len() == 0 {
        assert(first + second =~= first);
        assert(family_texts(first + second, family) =~= family_texts(first, family) + family_texts(second, family));
    } else {
        assert((first + second).drop_last() =~= first + second.drop_last());
        law_family_texts(first, second.drop_last(), net, family);
        assert(family_texts(first + second, family) =~= family_texts(first, family) + family_texts(second, family));
    }
    let one = seq![net];
    assert(one.drop_last() =~= Seq::<IpNet>::empty());
    assert(family_texts(one.drop_last(), family) =~= Seq::<Seq<char>>::empty());
    if net.family == family {
        assert(family_texts(one, family) =~= seq![network_text(net)]);
    }
}

/// What two runs of files hold together.
proof fn lemma_either(first: Seq<FeedFile>, second: Seq<FeedFile>, file: FeedFile)
    ensures
        (first + second).contains(file) <==> first.contains(file) || second.contains(file),
{
    if first.contains(file) {
        let i = first.index_of(file);
        assert((first + second)[i] == file);
    }
    if second.contains(file) {
        let i = second.index_of(file);
        assert((first + second)[first.len() + i] == file);
    }
}

/// The file of a single feed.
proof fn lemma_changed_file(of: Feed, new: Option<String>, feed: Feed, contents: String)
    ensures
        changed_file(of, new).contains(FeedFile { feed, contents }) <==> of == feed && new == Some(contents),
        changed_file(of, new).len() == if new is Some {
            1int
        } else {
            0int
        },
{
    if let Some(text) = new {
        assert(changed_file(of, new)[0] == (FeedFile { feed: of, contents: text }));
    }
}

/// A file is written for every feed with new contents, once, and for no other: it belongs to that
/// feed and has those contents.
pub proof fn law_changed_feeds_have_files(feeds: Feeds<Option<String>>, feed: Feed, contents: String)
    ensures
        changed_files(feeds).contains(FeedFile { feed, contents }) <==> Some(contents) == match feed {
            Feed::L1 => feeds.lists.l1,
            Feed::L2 => feeds.lists.l2,
            Feed::BogonsIpv4 => feeds.lists.bogons_ipv4,
            Feed::BogonsIpv6 => feeds.lists.bogons_ipv6,
            Feed::GithubMeta => feeds.github_meta,
        },
        changed_files(feeds).len() == (feeds.lists.l1 is Some) as int + (feeds.lists.l2 is Some) as int + (
        feeds.lists.bogons_ipv4 is Some) as int + (feeds.lists.bogons_ipv6 is Some) as int + (
        feeds.github_meta is Some) as int,
{
    let file = FeedFile { feed, contents };
    let a = changed_file(Feed::L1, feeds.lists.l1);
    let b = changed_file(Feed::L2, feeds.lists.l2);
    let c = changed_file(Feed::BogonsIpv4, feeds.lists.bogons_ipv4);
    let d = changed_file(Feed::BogonsIpv6, feeds.lists.bogons_ipv6);
    let e = changed_file(Feed::GithubMeta, feeds.github_meta);
    lemma_changed_file(Feed::L1, feeds.lists.l1, feed, contents);
    lemma_changed_file(Feed::L2, feeds.lists.l2, feed, contents);
    lemma_changed_file(Feed::BogonsIpv4, feeds.lists.bogons_ipv4, feed, contents);
    lemma_changed_file(Feed::BogonsIpv6, feeds.lists.bogons_ipv6, feed, contents);
    lemma_changed_file(Feed::GithubMeta, feeds.github_meta, feed, contents);
    lemma_either(a, b, file);
    lemma_either(a + b, c, file);
    lemma_either(a + b + c, d, file);
    lemma_either(a + b + c + d, e, file);
}

/// A restoration writes a file for each of the five feeds, with the contents of that feed.
pub proof fn law_all_feeds_have_files(feeds: Feeds<String>, feed: Feed)
    ensures
        all_files(feeds).len() == 5,
        exists|i: int|
            0 <= i < 5 && #[trigger] all_files(feeds)[i] == (FeedFile {
                feed,
                contents: match feed {
                    Feed::L1 => feeds.lists.l1,
                    Feed::L2 => feeds.lists.l2,
                    Feed::BogonsIpv4 => feeds.lists.bogons_ipv4,
                    Feed::BogonsIpv6 => feeds.lists.bogons_ipv6,
                    Feed::GithubMeta => feeds.github_meta,
                },
            }),
{
    let all = all_files(feeds);
    let at = match feed {
        Feed::L1 => 0int,
        Feed::L2 => 1int,
        Feed::BogonsIpv4 => 2int,
        Feed::BogonsIpv6 => 3int,
        Feed::GithubMeta => 4int,
    };
    assert(all[at].feed == feed);
}

/// A feed is left alone only if it is cached and the server names, text for text, the ETag that
/// was recorded.
pub proof fn law_feed_is_left_alone(cached: bool, remote: Option<String>, recorded: Option<String>)
    ensures
        unchanged(cached, remote, recorded) <==> cached && remote is Some && recorded is Some && remote->0@
            == recorded->0@,
{
}

/// Each feed has a file of its own.
pub proof fn law_files_differ(a: Feed, b: Feed)
    requires
        a != b,
    ensures
        a.file() != b.file(),
{
    reveal_strlit("firehol_level1.netset");
    reveal_strlit("firehol_level2.netset");
    reveal_strlit("fullbogons-ipv4.txt");
    reveal_strlit("fullbogons-ipv6.txt");
    reveal_strlit("github-meta.json");
    assert("firehol_level1.netset"@.len() == 21 && "firehol_level1.netset"@[13] == '1');
    assert("firehol_level2.netset"@.len() == 21 && "firehol_level2.netset"@[13] == '2');
    assert("fullbogons-ipv4.txt"@.len() == 19 && "fullbogons-ipv4.txt"@[14] == '4');
    assert("fullbogons-ipv6.txt"@.len() == 19 && "fullbogons-ipv6.txt"@[14] == '6');
    assert("github-meta.json"@.len() == 16);
}

} // verus!
