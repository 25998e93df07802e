//! One update cycle: what is fetched, when the table is updated, and what is recorded.

use vstd::prelude::*;

use crate::blocks::{are_largest, law_blocks_are_the_largest};
use crate::config::Config;
use crate::delta::{changed_deltas, delta_views, persist_deltas, DeltaFile};
use crate::feeds::{
    cache_file_exists, changed_files, download_if_changed, is_whitelist, law_changed_feeds_have_files,
    law_every_entry_counts, law_list_holds_its_rows, lies_in_list, list_networks, load_whitelist, merged,
    persist_changed_downloads, unchanged, CacheError, Etags, Feed, FeedFile, Feeds, Lists, Probe, ReadOutcome,
};
use crate::github::{
    document_error, has_network_at, is_ranges, law_every_text_counts, parse_github_ranges, GithubError,
};
use crate::ipset::{lies_in_row, text_networks};
use crate::json::Json;
use crate::net::{all_wf, is_aggregate, lies_in_some, net_lt, Family, IpNet};
use crate::update::{Request, DOWNLOADED_SETS};
use crate::whitelist::given;

verus! {

/// How the cycle is run.
#[derive(Clone, Copy, Debug, PartialEq, Eq, Structural)]
pub struct Mode {
    /// Whether the sets are restored from the cache when no feed has changed.
    pub restore_if_unchanged: bool,
    /// Whether the table is reconciled with the stored feeds after an update with some of them.
    pub reconcile: bool,
    /// Whether there are nftables to update.
    pub nftables: bool,
}

/// A cycle that is under way: what it waits for.
#[derive(Debug)]
pub enum Cycle {
    /// The directory for the data.
    Directory { mode: Mode },
    /// The recorded ETags.
    Recorded { mode: Mode },
    /// The ETags that the servers name.
    Remote { mode: Mode, recorded: Etags },
    /// What is cached.
    Cache { mode: Mode, recorded: Etags, remote: Etags },
    /// The feeds that changed.
    Downloads { mode: Mode, remote: Etags, wanted: Feeds<bool> },
    /// The restoration from the cache.
    Restoration,
    /// The update of the table.
    Update { mode: Mode, remote: Etags, texts: Feeds<Option<String>> },
    /// The lists as they were last stored. The reconciliation may follow later.
    Stored { remote: Etags, texts: Feeds<Option<String>>, restore: bool },
    /// The writing of the deltas. The reconciliation may follow later.
    Deltas { remote: Etags, texts: Feeds<Option<String>>, restore: bool },
    /// The writing of the changed feeds. The reconciliation may follow.
    Files { remote: Etags, restore: bool },
    /// The reconciliation of the table with the stored feeds.
    Reconciliation { remote: Etags },
    /// The recording of the ETags.
    Recording,
    /// Nothing: the cycle has ended.
    Ended,
}

/// What came of the last action.
#[derive(Debug)]
pub enum CycleEvent {
    DirectoryReady,
    /// The recorded ETags; none if they could not be read.
    EtagsLoaded(Option<Etags>),
    /// The ETags that the servers name.
    RemoteEtags(Etags),
    CacheProbed(Feeds<Probe>),
    /// The texts of the wanted feeds, and the metadata of GitHub as a document if it is JSON.
    Downloaded { texts: Feeds<Option<String>>, github: Option<Json> },
    Restored,
    Updated,
    StoredRead(Lists<ReadOutcome>),
    DeltasWritten,
    FilesWritten,
    EtagsSaved,
    /// The action failed.
    Failed,
}

/// Why a cycle failed.
#[derive(Clone, Copy, Debug, PartialEq, Eq, Structural)]
pub enum CycleError {
    /// An action failed.
    Action,
    /// It is not known whether the feed is cached.
    Cache(Feed, CacheError),
    /// The metadata of GitHub is refused.
    Github(GithubError),
}

/// What is to be done next.
#[derive(Debug)]
pub enum CycleAction {
    LoadEtags,
    FetchEtags,
    ProbeCache,
    Download(Feeds<bool>),
    Restore,
    Update(Request),
    ReadStored,
    WriteDeltas(Vec<DeltaFile>),
    WriteFiles(Vec<FeedFile>),
    Reconcile,
    SaveEtags(Etags),
    Done,
    Failed(CycleError),
}

/// No feed is wanted.
pub open spec fn none_fetched(texts: Feeds<Option<String>>) -> bool {
    &&& texts.lists.l1 is None
    &&& texts.lists.l2 is None
    &&& texts.lists.bogons_ipv4 is None
    &&& texts.lists.bogons_ipv6 is None
    &&& texts.github_meta is None
}

/// Every feed was fetched.
pub open spec fn all_fetched(texts: Feeds<Option<String>>) -> bool {
    &&& texts.lists.l1 is Some
    &&& texts.lists.l2 is Some
    &&& texts.lists.bogons_ipv4 is Some
    &&& texts.lists.bogons_ipv6 is Some
    &&& texts.github_meta is Some
}

/// The texts are those of the wanted feeds.
pub open spec fn fetched_as_wanted(wanted: Feeds<bool>, texts: Feeds<Option<String>>) -> bool {
    &&& wanted.lists.l1 == (texts.lists.l1 is Some)
    &&& wanted.lists.l2 == (texts.lists.l2 is Some)
    &&& wanted.lists.bogons_ipv4 == (texts.lists.bogons_ipv4 is Some)
    &&& wanted.lists.bogons_ipv6 == (texts.lists.bogons_ipv6 is Some)
    &&& wanted.github_meta == (texts.github_meta is Some)
}

/// The first feed of which it is not known whether it is cached.
pub open spec fn first_cache_error(probes: Feeds<Probe>) -> Option<CycleError> {
    if probes.lists.l1 is NotFile || probes.lists.l1 is Failed {
        Some(CycleError::Cache(Feed::L1, probe_error(probes.lists.l1)))
    } else if probes.lists.l2 is NotFile || probes.lists.l2 is Failed {
        Some(CycleError::Cache(Feed::L2, probe_error(probes.lists.l2)))
    } else if probes.lists.bogons_ipv4 is NotFile || probes.lists.bogons_ipv4 is Failed {
        Some(CycleError::Cache(Feed::BogonsIpv4, probe_error(probes.lists.bogons_ipv4)))
    } else if probes.lists.bogons_ipv6 is NotFile || probes.lists.bogons_ipv6 is Failed {
        Some(CycleError::Cache(Feed::BogonsIpv6, probe_error(probes.lists.bogons_ipv6)))
    } else if probes.github_meta is NotFile || probes.github_meta is Failed {
        Some(CycleError::Cache(Feed::GithubMeta, probe_error(probes.github_meta)))
    } else {
        None
    }
}

/// What is wrong with a probe.
pub open spec fn probe_error(probe: Probe) -> CacheError {
    if probe is NotFile {
        CacheError::NotFile
    } else {
        CacheError::Failed
    }
}

/// The feeds that changed.
pub open spec fn changed(probes: Feeds<Probe>, remote: Etags, recorded: Etags) -> Feeds<bool> {
    Feeds {
        lists: Lists {
            l1: !unchanged(probes.lists.l1 is File, remote.l1, recorded.l1),
            l2: !unchanged(probes.lists.l2 is File, remote.l2, recorded.l2),
            bogons_ipv4: !unchanged(probes.lists.bogons_ipv4 is File, remote.bogons_ipv4, recorded.bogons_ipv4),
            bogons_ipv6: !unchanged(probes.lists.bogons_ipv6 is File, remote.bogons_ipv6, recorded.bogons_ipv6),
        },
        github_meta: !unchanged(probes.github_meta is File, remote.github_meta, recorded.github_meta),
    }
}

/// The networks are those of a fetched list, merged; a list that was not fetched brings none.
pub open spec fn is_fetched(text: Option<String>, nets: Option<Vec<IpNet>>) -> bool {
    match text {
        Some(text) => {
            &&& given(nets) == Some(merged(text@))
            &&& all_wf(text_networks(text@))
            &&& is_aggregate(text_networks(text@), merged(text@))
        },
        None => nets is None,
    }
}

/// The request asks for the merged networks of the fetched lists.
pub open spec fn asks_for_lists(request: Request, lists: Lists<Option<String>>) -> bool {
    &&& request.lists@.len() == DOWNLOADED_SETS
    &&& is_fetched(lists.l1, request.lists@[0])
    &&& is_fetched(lists.l2, request.lists@[1])
    &&& is_fetched(lists.bogons_ipv4, request.lists@[2])
    &&& is_fetched(lists.bogons_ipv6, request.lists@[3])
}

/// The request renews the whitelists with the configured networks.
pub open spec fn asks_for_whitelists(request: Request, config: Config) -> bool {
    &&& request.whitelist_ipv4 matches Some(list) && is_whitelist(config.whitelist@, Family::V4, list@)
    &&& request.whitelist_ipv6 matches Some(list) && is_whitelist(config.whitelist@, Family::V6, list@)
}

/// The request of an update. The configured whitelists are renewed each time, and those of GitHub
/// along with its metadata.
pub open spec fn is_request(
    request: Request,
    config: Config,
    lists: Lists<Option<String>>,
    github: Option<Json>,
) -> bool {
    &&& request.wf()
    &&& asks_for_lists(request, lists)
    &&& asks_for_whitelists(request, config)
    &&& request.log_blocked == config.log_blocked
    &&& match github {
        Some(document) => request.github_networks matches Some(nets) && is_ranges(document, nets@),
        None => request.github_networks is None,
    }
}

fn fetched_list(text: &Option<String>) -> (nets: Option<Vec<IpNet>>)
    ensures
        is_fetched(*text, nets),
        nets matches Some(list) ==> all_wf(list@),
{
    match text {
        Some(text) => Some(list_networks(text.as_str())),
        None => None,
    }
}

/// The request of an update from the texts of the lists and the ranges of GitHub.
pub fn update_request(
    config: &Config,
    lists: &Lists<Option<String>>,
    github_networks: Option<Vec<IpNet>>,
) -> (request: Request)
    requires
        github_networks matches Some(nets) ==> all_wf(nets@),
    ensures
        request.wf(),
        asks_for_lists(request, *lists),
        request.whitelist_ipv4 matches Some(list) && is_whitelist(config.whitelist@, Family::V4, list@),
        request.whitelist_ipv6 matches Some(list) && is_whitelist(config.whitelist@, Family::V6, list@),
        request.log_blocked == config.log_blocked,
        request.github_networks == github_networks,
{
    let mut wanted: Vec<Option<Vec<IpNet>>> = Vec::new();
    wanted.push(fetched_list(&lists.l1));
    wanted.push(fetched_list(&lists.l2));
    wanted.push(fetched_list(&lists.bogons_ipv4));
    wanted.push(fetched_list(&lists.bogons_ipv6));
    let (ipv4, ipv6): (Vec<String>, Vec<String>) = load_whitelist(&config.whitelist);
    Request {
        lists: wanted,
        whitelist_ipv4: Some(ipv4),
        whitelist_ipv6: Some(ipv6),
        github_networks,
        log_blocked: config.log_blocked,
    }
}

/// Why the metadata of GitHub is refused, if it was fetched and is refused.
pub open spec fn github_refused(texts: Feeds<Option<String>>, github: Option<Json>) -> Option<GithubError> {
    if texts.github_meta is None {
        None
    } else {
        document_error(github)
    }
}

/// How a cycle goes on after the downloads.
pub open spec fn after_downloads(
    config: Config,
    mode: Mode,
    remote: Etags,
    texts: Feeds<Option<String>>,
    github: Option<Json>,
    after: Cycle,
    action: CycleAction,
) -> bool {
    if none_fetched(texts) {
        if mode.restore_if_unchanged && mode.nftables {
            after is Restoration && action is Restore
        } else {
            after is Ended && action is Done
        }
    } else if github_refused(texts, github) is Some {
        &&& after is Ended
        &&& action == CycleAction::Failed(CycleError::Github(github_refused(texts, github)->0))
    } else if mode.nftables {
        &&& after == (Cycle::Update { mode, remote, texts })
        &&& action matches CycleAction::Update(request) && is_request(
            request,
            config,
            texts.lists,
            if texts.github_meta is Some {
                github
            } else {
                None
            },
        )
    } else {
        &&& after == (Cycle::Stored { remote, texts, restore: false })
        &&& action is ReadStored
    }
}

/// The files are to be written.
pub open spec fn writes(action: CycleAction, files: Seq<FeedFile>) -> bool {
    action matches CycleAction::WriteFiles(list) && list@ == files
}

/// How a cycle goes on after an event.
pub open spec fn cycle_step(
    config: Config,
    before: Cycle,
    event: CycleEvent,
    after: Cycle,
    action: CycleAction,
) -> bool {
    match (before, event) {
        (_, CycleEvent::Failed) => after is Ended && action == CycleAction::Failed(CycleError::Action),
        (Cycle::Directory { mode }, CycleEvent::DirectoryReady) => {
            &&& after == (Cycle::Recorded { mode })
            &&& action is LoadEtags
        },
        (Cycle::Recorded { mode }, CycleEvent::EtagsLoaded(etags)) => {
            &&& after == (Cycle::Remote {
                mode,
                recorded: match etags {
                    Some(etags) => etags,
                    None => Etags { l1: None, l2: None, bogons_ipv4: None, bogons_ipv6: None, github_meta: None },
                },
            })
            &&& action is FetchEtags
        },
        (Cycle::Remote { mode, recorded }, CycleEvent::RemoteEtags(remote)) => {
            &&& after == (Cycle::Cache { mode, recorded, remote })
            &&& action is ProbeCache
        },
        (Cycle::Cache { mode, recorded, remote }, CycleEvent::CacheProbed(probes)) => match first_cache_error(probes) {
            Some(error) => after is Ended && action == CycleAction::Failed(error),
            None => {
                &&& after == (Cycle::Downloads { mode, remote, wanted: changed(probes, remote, recorded) })
                &&& action == CycleAction::Download(changed(probes, remote, recorded))
            },
        },
        (Cycle::Downloads { mode, remote, .. }, CycleEvent::Downloaded { texts, github }) => after_downloads(
            config,
            mode,
            remote,
            texts,
            github,
            after,
            action,
        ),
        (Cycle::Restoration, CycleEvent::Restored) => after is Ended && action is Done,
        (Cycle::Update { mode, remote, texts }, CycleEvent::Updated) => {
            &&& after == (Cycle::Stored { remote, texts, restore: mode.reconcile && !all_fetched(texts) })
            &&& action is ReadStored
        },
        (Cycle::Stored { remote, texts, restore }, CycleEvent::StoredRead(stored)) => {
            &&& after == (Cycle::Deltas { remote, texts, restore })
            &&& action matches CycleAction::WriteDeltas(files) && delta_views(files@) == changed_deltas(
                stored,
                texts.lists,
            )
        },
        (Cycle::Deltas { remote, texts, restore }, CycleEvent::DeltasWritten) => {
            &&& after == (Cycle::Files { remote, restore })
            &&& writes(action, changed_files(texts))
        },
        (Cycle::Files { remote, restore }, CycleEvent::FilesWritten) => if restore {
            after == (Cycle::Reconciliation { remote }) && action is Reconcile
        } else {
            after is Recording && action == CycleAction::SaveEtags(remote)
        },
        (Cycle::Reconciliation { remote }, CycleEvent::Restored) => {
            after is Recording && action == CycleAction::SaveEtags(remote)
        },
        (Cycle::Recording, CycleEvent::EtagsSaved) => after is Ended && action is Done,
        _ => false,
    }
}

/// Whether the feed is cached; an error if that is not known.
fn probed(feed: Feed, probe: Probe) -> (result: Result<bool, CycleError>)
    ensures
        match result {
            Ok(cached) => !(probe is NotFile || probe is Failed) && cached == (probe is File),
            Err(error) => (probe is NotFile || probe is Failed) && error == CycleError::Cache(feed, probe_error(probe)),
        },
{
    match cache_file_exists(probe) {
        Ok(cached) => Ok(cached),
        Err(error) => Err(CycleError::Cache(feed, error)),
    }
}

/// The feeds that changed, or the first of which it is not known whether it is cached.
fn changed_feeds(probes: &Feeds<Probe>, remote: &Etags, recorded: &Etags) -> (result: Result<Feeds<bool>, CycleError>)
    ensures
        match first_cache_error(*probes) {
            Some(error) => result == Err::<Feeds<bool>, CycleError>(error),
            None => result == Ok::<Feeds<bool>, CycleError>(changed(*probes, *remote, *recorded)),
        },
{
    let l1: bool = match probed(Feed::L1, probes.lists.l1) {
        Ok(cached) => cached,
        Err(error) => return Err(error),
    };
    let l2: bool = match probed(Feed::L2, probes.lists.l2) {
        Ok(cached) => cached,
        Err(error) => return Err(error),
    };
    let bogons_ipv4: bool = match probed(Feed::BogonsIpv4, probes.lists.bogons_ipv4) {
        Ok(cached) => cached,
        Err(error) => return Err(error),
    };
    let bogons_ipv6: bool = match probed(Feed::BogonsIpv6, probes.lists.bogons_ipv6) {
        Ok(cached) => cached,
        Err(error) => return Err(error),
    };
    let github_meta: bool = match probed(Feed::GithubMeta, probes.github_meta) {
        Ok(cached) => cached,
        Err(error) => return Err(error),
    };
    Ok(
        Feeds {
            lists: Lists {
                l1: download_if_changed(l1, &remote.l1, &recorded.l1),
                l2: download_if_changed(l2, &remote.l2, &recorded.l2),
                bogons_ipv4: download_if_changed(bogons_ipv4, &remote.bogons_ipv4, &recorded.bogons_ipv4),
                bogons_ipv6: download_if_changed(bogons_ipv6, &remote.bogons_ipv6, &recorded.bogons_ipv6),
            },
            github_meta: download_if_changed(github_meta, &remote.github_meta, &recorded.github_meta),
        },
    )
}

impl Cycle {
    /// The event is what the cycle waits for. Any action may fail, but for the loading of the
    /// ETags, which then are none.
    pub open spec fn awaits(self, event: CycleEvent) -> bool {
        match (self, event) {
            (Cycle::Directory { .. }, CycleEvent::DirectoryReady) => true,
            (Cycle::Recorded { .. }, CycleEvent::EtagsLoaded(_)) => true,
            (Cycle::Remote { .. }, CycleEvent::RemoteEtags(_)) => true,
            (Cycle::Cache { .. }, CycleEvent::CacheProbed(_)) => true,
            (Cycle::Downloads { wanted, .. }, CycleEvent::Downloaded { texts, .. }) => fetched_as_wanted(wanted, texts),
            (Cycle::Restoration, CycleEvent::Restored) => true,
            (Cycle::Update { .. }, CycleEvent::Updated) => true,
            (Cycle::Stored { .. }, CycleEvent::StoredRead(_)) => true,
            (Cycle::Deltas { .. }, CycleEvent::DeltasWritten) => true,
            (Cycle::Files { .. }, CycleEvent::FilesWritten) => true,
            (Cycle::Reconciliation { .. }, CycleEvent::Restored) => true,
            (Cycle::Recording, CycleEvent::EtagsSaved) => true,
            (Cycle::Recorded { .. }, CycleEvent::Failed) => false,
            (Cycle::Ended, CycleEvent::Failed) => false,
            (_, CycleEvent::Failed) => true,
            _ => false,
        }
    }

    /// Whether the event is what the cycle waits for.
    pub fn accepts(&self, event: &CycleEvent) -> (ok: bool)
        ensures
            ok == self.awaits(*event),
    {
        match (self, event) {
            (Cycle::Directory { .. }, CycleEvent::DirectoryReady) => true,
            (Cycle::Recorded { .. }, CycleEvent::EtagsLoaded(_)) => true,
            (Cycle::Remote { .. }, CycleEvent::RemoteEtags(_)) => true,
            (Cycle::Cache { .. }, CycleEvent::CacheProbed(_)) => true,
            (Cycle::Downloads { wanted, .. }, CycleEvent::Downloaded { texts, .. }) => {
                wanted.lists.l1 == texts.lists.l1.is_some() && wanted.lists.l2 == texts.lists.l2.is_some()
                    && wanted.lists.bogons_ipv4 == texts.lists.bogons_ipv4.is_some() && wanted.lists.bogons_ipv6
                    == texts.lists.bogons_ipv6.is_some() && wanted.github_meta == texts.github_meta.is_some()
            },
            (Cycle::Restoration, CycleEvent::Restored) => true,
            (Cycle::Update { .. }, CycleEvent::Updated) => true,
            (Cycle::Stored { .. }, CycleEvent::StoredRead(_)) => true,
            (Cycle::Deltas { .. }, CycleEvent::DeltasWritten) => true,
            (Cycle::Files { .. }, CycleEvent::FilesWritten) => true,
            (Cycle::Reconciliation { .. }, CycleEvent::Restored) => true,
            (Cycle::Recording, CycleEvent::EtagsSaved) => true,
            (Cycle::Recorded { .. }, CycleEvent::Failed) => false,
            (Cycle::Ended, CycleEvent::Failed) => false,
            (_, CycleEvent::Failed) => true,
            _ => false,
        }
    }

    /// Starts a cycle. The directory for the data is to be made first.
    pub fn start(mode: Mode) -> (cycle: Cycle)
        ensures
            cycle == (Cycle::Directory { mode }),
    {
        Cycle::Directory { mode }
    }

    /// Goes on with the texts of the feeds that changed.
    fn downloaded(
        config: &Config,
        mode: Mode,
        remote: Etags,
        texts: Feeds<Option<String>>,
        github: Option<Json>,
    ) -> (next: (Cycle, CycleAction))
        ensures
            after_downloads(*config, mode, remote, texts, github, next.0, next.1),
    {
        if texts.lists.l1.is_none() && texts.lists.l2.is_none() && texts.lists.bogons_ipv4.is_none()
            && texts.lists.bogons_ipv6.is_none() && texts.github_meta.is_none() {
            return if mode.restore_if_unchanged && mode.nftables {
                (Cycle::Restoration, CycleAction::Restore)
            } else {
                (Cycle::Ended, CycleAction::Done)
            };
        }
        let mut ranges: Option<Vec<IpNet>> = None;
        if texts.github_meta.is_some() {
            match &github {
                None => return (Cycle::Ended, CycleAction::Failed(CycleError::Github(GithubError::Malformed))),
                Some(document) => match parse_github_ranges(document) {
                    Err(error) => return (Cycle::Ended, CycleAction::Failed(CycleError::Github(error))),
                    Ok(nets) => {
                        ranges = Some(nets);
                    },
                },
            }
        }
        if mode.nftables {
            let request: Request = update_request(config, &texts.lists, ranges);
            (Cycle::Update { mode, remote, texts }, CycleAction::Update(request))
        } else {
            (Cycle::Stored { remote, texts, restore: false }, CycleAction::ReadStored)
        }
    }

    /// Takes what came of the last action, and says what is to be done next.
    pub fn step(self, config: &Config, event: CycleEvent) -> (next: (Cycle, CycleAction))
        requires
            self.awaits(event),
        ensures
            cycle_step(*config, self, event, next.0, next.1),
    {
        match (self, event) {
            (_, CycleEvent::Failed) => (Cycle::Ended, CycleAction::Failed(CycleError::Action)),
            (Cycle::Directory { mode }, CycleEvent::DirectoryReady) => (Cycle::Recorded { mode }, CycleAction::LoadEtags),
            (Cycle::Recorded { mode }, CycleEvent::EtagsLoaded(etags)) => {
                let recorded: Etags = match etags {
                    Some(etags) => etags,
                    None => Etags::default(),
                };
                (Cycle::Remote { mode, recorded }, CycleAction::FetchEtags)
            },
            (Cycle::Remote { mode, recorded }, CycleEvent::RemoteEtags(remote)) => (
                Cycle::Cache { mode, recorded, remote },
                CycleAction::ProbeCache,
            ),
            (Cycle::Cache { mode, recorded, remote }, CycleEvent::CacheProbed(probes)) => match changed_feeds(
                &probes,
                &remote,
                &recorded,
            ) {
                Err(error) => (Cycle::Ended, CycleAction::Failed(error)),
                Ok(wanted) => {
                    let request: Feeds<bool> = Feeds {
                        lists: Lists {
                            l1: wanted.lists.l1,
                            l2: wanted.lists.l2,
                            bogons_ipv4: wanted.lists.bogons_ipv4,
                            bogons_ipv6: wanted.lists.bogons_ipv6,
                        },
                        github_meta: wanted.github_meta,
                    };
                    (Cycle::Downloads { mode, remote, wanted }, CycleAction::Download(request))
                },
            },
            (Cycle::Downloads { mode, remote, .. }, CycleEvent::Downloaded { texts, github }) => Cycle::downloaded(
                config,
                mode,
                remote,
                texts,
                github,
            ),
            (Cycle::Update { mode, remote, texts }, CycleEvent::Updated) => {
                let all: bool = texts.lists.l1.is_some() && texts.lists.l2.is_some() && texts.lists.bogons_ipv4.is_some()
                    && texts.lists.bogons_ipv6.is_some() && texts.github_meta.is_some();
                (Cycle::Stored { remote, texts, restore: mode.reconcile && !all }, CycleAction::ReadStored)
            },
            (Cycle::Stored { remote, texts, restore }, CycleEvent::StoredRead(stored)) => {
                let deltas: Vec<DeltaFile> = persist_deltas(&stored, &texts.lists);
                (Cycle::Deltas { remote, texts, restore }, CycleAction::WriteDeltas(deltas))
            },
            (Cycle::Deltas { remote, texts, restore }, CycleEvent::DeltasWritten) => (
                Cycle::Files { remote, restore },
                CycleAction::WriteFiles(persist_changed_downloads(texts)),
            ),
            (Cycle::Files { remote, restore }, CycleEvent::FilesWritten) => if restore {
                (Cycle::Reconciliation { remote }, CycleAction::Reconcile)
            } else {
                (Cycle::Recording, CycleAction::SaveEtags(remote))
            },
            (Cycle::Reconciliation { remote }, CycleEvent::Restored) => (
                Cycle::Recording,
                CycleAction::SaveEtags(remote),
            ),
            (_, _) => (Cycle::Ended, CycleAction::Done),
        }
    }
}

/// The cycles, events and actions of a run: every event is what the cycle waited for.
pub open spec fn is_run(config: Config, cycles: Seq<Cycle>, events: Seq<CycleEvent>, actions: Seq<CycleAction>) -> bool {
    &&& cycles.len() == events.len() + 1
    &&& actions.len() == events.len()
    &&& cycles[0] is Directory
    &&& forall|i: int|
        #![trigger events[i]]
        0 <= i < events.len() ==> cycles[i].awaits(events[i]) && cycle_step(
            config,
            cycles[i],
            events[i],
            cycles[i + 1],
            actions[i],
        )
}

/// The ETags that the servers named, once the cycle knows them.
spec fn remote_of(cycle: Cycle) -> Option<Etags> {
    match cycle {
        Cycle::Cache { remote, .. } => Some(remote),
        Cycle::Downloads { remote, .. } => Some(remote),
        Cycle::Update { remote, .. } => Some(remote),
        Cycle::Stored { remote, .. } => Some(remote),
        Cycle::Deltas { remote, .. } => Some(remote),
        Cycle::Files { remote, .. } => Some(remote),
        Cycle::Reconciliation { remote } => Some(remote),
        _ => None,
    }
}

/// The ETags that a cycle knows are those that the servers named in it.
proof fn lemma_remote_etags(
    config: Config,
    cycles: Seq<Cycle>,
    events: Seq<CycleEvent>,
    actions: Seq<CycleAction>,
    k: int,
)
    requires
        is_run(config, cycles, events, actions),
        0 <= k < cycles.len(),
    ensures
        remote_of(cycles[k]) matches Some(etags) ==> exists|i: int|
            0 <= i < k && #[trigger] events[i] == CycleEvent::RemoteEtags(etags),
    decreases k,
{
    if k > 0 && remote_of(cycles[k]) is Some {
        let etags = remote_of(cycles[k])->0;
        lemma_remote_etags(config, cycles, events, actions, k - 1);
        assert(cycle_step(config, cycles[k - 1], events[k - 1], cycles[k], actions[k - 1]));
        if remote_of(cycles[k - 1]) is Some {
            assert(remote_of(cycles[k - 1]) == Some(etags));
            let i = choose|i: int| 0 <= i < k - 1 && #[trigger] events[i] == CycleEvent::RemoteEtags(etags);
            assert(events[i] == CycleEvent::RemoteEtags(etags));
        } else {
            assert(events[k - 1] == CycleEvent::RemoteEtags(etags));
        }
    }
}

/// The place of a state in a cycle.
spec fn rank(cycle: Cycle) -> int {
    match cycle {
        Cycle::Directory { .. } => 0,
        Cycle::Recorded { .. } => 1,
        Cycle::Remote { .. } => 2,
        Cycle::Cache { .. } => 3,
        Cycle::Downloads { .. } => 4,
        Cycle::Restoration => 5,
        Cycle::Update { .. } => 6,
        Cycle::Stored { .. } => 7,
        Cycle::Deltas { .. } => 8,
        Cycle::Files { .. } => 9,
        Cycle::Reconciliation { .. } => 10,
        Cycle::Recording => 11,
        Cycle::Ended => 12,
    }
}

/// A cycle never goes back.
proof fn lemma_forward(
    config: Config,
    cycles: Seq<Cycle>,
    events: Seq<CycleEvent>,
    actions: Seq<CycleAction>,
    i: int,
    k: int,
)
    requires
        is_run(config, cycles, events, actions),
        0 <= i <= k < cycles.len(),
    ensures
        rank(cycles[k]) >= rank(cycles[i]) + k - i,
    decreases k - i,
{
    if i < k {
        lemma_forward(config, cycles, events, actions, i, k - 1);
        assert(cycle_step(config, cycles[k - 1], events[k - 1], cycles[k], actions[k - 1]));
        assert(cycles[k - 1].awaits(events[k - 1]));
    }
}

/// ETags are recorded last, and are those that the servers named in the cycle: the changed feeds
/// have been written to their files, before that the deltas of the changed lists, and before that
/// the table has been updated, where there is one. Only the reconciliation comes in between.
pub proof fn law_etags_are_recorded_last(
    config: Config,
    cycles: Seq<Cycle>,
    events: Seq<CycleEvent>,
    actions: Seq<CycleAction>,
    k: int,
)
    requires
        is_run(config, cycles, events, actions),
        0 <= k < events.len(),
        actions[k] is SaveEtags,
    ensures
        ({
            let w = if events[k] is FilesWritten {
                k
            } else {
                k - 1
            };
            &&& w >= 3
            &&& events[w] is FilesWritten
            &&& w < k ==> actions[w] is Reconcile && events[k] is Restored
            &&& actions[w - 1] is WriteFiles
            &&& events[w - 1] is DeltasWritten
            &&& actions[w - 2] is WriteDeltas
            &&& if events[w - 3] is Updated {
                w >= 4 && actions[w - 4] is Update
            } else {
                cycles[w - 3] is Downloads && !cycles[w - 3]->Downloads_mode.nftables
            }
        }),
        exists|i: int| 0 <= i < k && #[trigger] events[i] == CycleEvent::RemoteEtags(actions[k]->SaveEtags_0),
{
    assert(cycle_step(config, cycles[k], events[k], cycles[k + 1], actions[k]));
    let w = if events[k] is FilesWritten {
        k
    } else {
        k - 1
    };
    if w < k {
        assert(cycles[k] is Reconciliation);
        assert(k >= 1);
        assert(cycle_step(config, cycles[w], events[w], cycles[k], actions[w]));
    }
    assert(cycles[w] is Files);
    assert(w >= 1);
    assert(cycle_step(config, cycles[w - 1], events[w - 1], cycles[w], actions[w - 1]));
    assert(cycles[w - 1] is Deltas);
    assert(w >= 2);
    assert(cycle_step(config, cycles[w - 2], events[w - 2], cycles[w - 1], actions[w - 2]));
    assert(cycles[w - 2] is Stored);
    assert(w >= 3);
    assert(cycle_step(config, cycles[w - 3], events[w - 3], cycles[w - 2], actions[w - 3]));
    if events[w - 3] is Updated {
        assert(cycles[w - 3] is Update);
        assert(w >= 4);
        assert(cycle_step(config, cycles[w - 4], events[w - 4], cycles[w - 3], actions[w - 4]));
    }
    lemma_remote_etags(config, cycles, events, actions, k);
}

/// The texts that were fetched, once the cycle holds them.
spec fn texts_of(cycle: Cycle) -> Option<Feeds<Option<String>>> {
    match cycle {
        Cycle::Update { texts, .. } => Some(texts),
        Cycle::Stored { texts, .. } => Some(texts),
        Cycle::Deltas { texts, .. } => Some(texts),
        _ => None,
    }
}

/// Event `i` brings the texts.
pub open spec fn brings(event: CycleEvent, texts: Feeds<Option<String>>) -> bool {
    event matches CycleEvent::Downloaded { texts: fetched, .. } && fetched == texts
}

/// The texts that a cycle holds are those that were fetched in it.
proof fn lemma_texts(
    config: Config,
    cycles: Seq<Cycle>,
    events: Seq<CycleEvent>,
    actions: Seq<CycleAction>,
    k: int,
)
    requires
        is_run(config, cycles, events, actions),
        0 <= k < cycles.len(),
    ensures
        texts_of(cycles[k]) matches Some(texts) ==> exists|i: int| 0 <= i < k && brings(#[trigger] events[i], texts),
    decreases k,
{
    if k > 0 && texts_of(cycles[k]) is Some {
        let texts = texts_of(cycles[k])->0;
        lemma_texts(config, cycles, events, actions, k - 1);
        assert(cycle_step(config, cycles[k - 1], events[k - 1], cycles[k], actions[k - 1]));
        if texts_of(cycles[k - 1]) is Some {
            assert(texts_of(cycles[k - 1]) == Some(texts));
            let i = choose|i: int| 0 <= i < k - 1 && brings(#[trigger] events[i], texts);
            assert(brings(events[i], texts));
        } else {
            assert(brings(events[k - 1], texts));
        }
    }
}

/// The feed files that a cycle writes are exactly those of the feeds that it fetched, each with
/// the text that was fetched, and their deltas are those against what was stored before.
pub proof fn law_fetched_feeds_are_written(
    config: Config,
    cycles: Seq<Cycle>,
    events: Seq<CycleEvent>,
    actions: Seq<CycleAction>,
    k: int,
)
    requires
        is_run(config, cycles, events, actions),
        0 <= k < events.len(),
        actions[k] is WriteFiles,
    ensures
        k >= 1,
        exists|i: int, texts: Feeds<Option<String>>| 0 <= i < k && #[trigger] brings(events[i], texts) && writes(
            actions[k],
            changed_files(texts),
        ) && events[k - 1] is StoredRead && actions[k - 1] is WriteDeltas && delta_views(
            actions[k - 1]->WriteDeltas_0@,
        ) == changed_deltas(events[k - 1]->StoredRead_0, texts.lists),
{
    assert(cycle_step(config, cycles[k], events[k], cycles[k + 1], actions[k]));
    assert(cycles[k] is Deltas);
    let texts = texts_of(cycles[k])->0;
    lemma_texts(config, cycles, events, actions, k);
    let i = choose|i: int| 0 <= i < k && brings(#[trigger] events[i], texts);
    assert(brings(events[i], texts));
    assert(cycle_step(config, cycles[k - 1], events[k - 1], cycles[k], actions[k - 1]));
}

/// A cycle in which something fails before the recording leaves the ETags as they were.
pub proof fn law_failure_keeps_the_etags(
    config: Config,
    cycles: Seq<Cycle>,
    events: Seq<CycleEvent>,
    actions: Seq<CycleAction>,
    k: int,
    m: int,
)
    requires
        is_run(config, cycles, events, actions),
        0 <= k < events.len(),
        events[k] is Failed,
        !(cycles[k] is Recording),
        0 <= m < events.len(),
    ensures
        actions[k] is Failed,
        k == events.len() - 1,
        !(actions[m] is SaveEtags),
{
    assert(cycle_step(config, cycles[k], events[k], cycles[k + 1], actions[k]));
    assert(cycles[k].awaits(events[k]));
    if k + 1 < events.len() {
        assert(cycles[k + 1].awaits(events[k + 1]));
    }
    if actions[m] is SaveEtags {
        assert(cycle_step(config, cycles[m], events[m], cycles[m + 1], actions[m]));
        assert(cycles[m + 1] is Recording);
        lemma_forward(config, cycles, events, actions, m + 1, k);
    }
}

/// A single run in which a feed was fetched is done as soon as the ETags are recorded, and they
/// are recorded as soon as the fetched feeds have been written: nothing is restored.
pub proof fn law_single_run_ends_with_the_etags(
    config: Config,
    nftables: bool,
    cycles: Seq<Cycle>,
    events: Seq<CycleEvent>,
    actions: Seq<CycleAction>,
    j: int,
    k: int,
)
    requires
        is_run(config, cycles, events, actions),
        cycles[0] == (Cycle::Directory { mode: Mode { restore_if_unchanged: true, reconcile: false, nftables } }),
        0 <= j < events.len(),
        events[j] is Downloaded,
        !none_fetched(events[j]->texts),
        0 <= k < events.len(),
        actions[k] is Done,
    ensures
        k >= 2,
        events[k] is EtagsSaved,
        actions[k - 1] is SaveEtags,
        events[k - 1] is FilesWritten,
        actions[k - 2] is WriteFiles,
{
    let mode = Mode { restore_if_unchanged: true, reconcile: false, nftables };
    assert(cycle_step(config, cycles[k], events[k], cycles[k + 1], actions[k]));
    assert(cycles[j].awaits(events[j]) && cycle_step(config, cycles[j], events[j], cycles[j + 1], actions[j]));
    assert(k >= 1);
    assert(cycle_step(config, cycles[k - 1], events[k - 1], cycles[k], actions[k - 1]));
    if cycles[k] is Downloads {
        if j < k {
            lemma_forward(config, cycles, events, actions, j, k);
        } else {
            lemma_forward(config, cycles, events, actions, k, j);
        }
        assert(j == k);
    } else if cycles[k] is Restoration {
        assert(cycles[k - 1] is Downloads);
        if j < k - 1 {
            lemma_forward(config, cycles, events, actions, j, k - 1);
        } else {
            lemma_forward(config, cycles, events, actions, k - 1, j);
        }
        assert(j == k - 1);
    } else {
        assert(cycles[k] is Recording);
        lemma_mode_stays(config, cycles, events, actions, mode, k - 1);
        assert(k >= 2);
        assert(cycle_step(config, cycles[k - 2], events[k - 2], cycles[k - 1], actions[k - 2]));
        lemma_no_reconciliation(config, cycles, events, actions, mode, k - 1);
    }
}

/// Without the mode for it nothing is reconciled.
proof fn lemma_no_reconciliation(
    config: Config,
    cycles: Seq<Cycle>,
    events: Seq<CycleEvent>,
    actions: Seq<CycleAction>,
    mode: Mode,
    k: int,
)
    requires
        is_run(config, cycles, events, actions),
        cycles[0] == (Cycle::Directory { mode }),
        !mode.reconcile,
        0 <= k < cycles.len(),
    ensures
        !(cycles[k] is Reconciliation),
        cycles[k] matches Cycle::Stored { restore, .. } ==> !restore,
        cycles[k] matches Cycle::Deltas { restore, .. } ==> !restore,
        cycles[k] matches Cycle::Files { restore, .. } ==> !restore,
    decreases k,
{
    if k > 0 {
        lemma_no_reconciliation(config, cycles, events, actions, mode, k - 1);
        lemma_mode_stays(config, cycles, events, actions, mode, k - 1);
        assert(cycle_step(config, cycles[k - 1], events[k - 1], cycles[k], actions[k - 1]));
    }
}

/// How the cycle is run, as long as it matters.
spec fn mode_of(cycle: Cycle) -> Option<Mode> {
    match cycle {
        Cycle::Directory { mode } => Some(mode),
        Cycle::Recorded { mode } => Some(mode),
        Cycle::Remote { mode, .. } => Some(mode),
        Cycle::Cache { mode, .. } => Some(mode),
        Cycle::Downloads { mode, .. } => Some(mode),
        Cycle::Update { mode, .. } => Some(mode),
        _ => None,
    }
}

/// A cycle is run as it was started.
proof fn lemma_mode_stays(
    config: Config,
    cycles: Seq<Cycle>,
    events: Seq<CycleEvent>,
    actions: Seq<CycleAction>,
    mode: Mode,
    k: int,
)
    requires
        is_run(config, cycles, events, actions),
        cycles[0] == (Cycle::Directory { mode }),
        0 <= k < cycles.len(),
    ensures
        mode_of(cycles[k]) matches Some(m) ==> m == mode,
    decreases k,
{
    if k > 0 {
        lemma_mode_stays(config, cycles, events, actions, mode, k - 1);
        assert(cycle_step(config, cycles[k - 1], events[k - 1], cycles[k], actions[k - 1]));
    }
}

/// The update that the action asks for is about every feed: the texts of all of them are given,
/// and so is the metadata of GitHub as a document.
pub open spec fn updates_all(
    config: Config,
    action: CycleAction,
    texts: Feeds<Option<String>>,
    github: Option<Json>,
) -> bool {
    &&& all_fetched(texts)
    &&& github is Some
    &&& action matches CycleAction::Update(request) && is_request(request, config, texts.lists, github)
}

/// The run of a cycle ends by bringing the whole table in line: by the restoration if no feed
/// changed; by the reconciliation before the ETags were recorded; or by an update with every feed.
pub open spec fn ends_reconciled(config: Config, events: Seq<CycleEvent>, actions: Seq<CycleAction>, k: int) -> bool {
    ||| k >= 1 && events[k] is Restored && actions[k - 1] is Restore
    ||| k >= 2 && events[k] is EtagsSaved && events[k - 1] is Restored && actions[k - 2] is Reconcile
    ||| k >= 5 && events[k - 4] is Updated && (events[k - 5] matches CycleEvent::Downloaded { texts, github }
        && updates_all(config, actions[k - 5], texts, github))
}

/// After each cycle that reconciles and finishes, the whole table has been brought in line,
/// whichever feeds changed.
pub proof fn law_finished_cycle_reconciles(
    config: Config,
    cycles: Seq<Cycle>,
    events: Seq<CycleEvent>,
    actions: Seq<CycleAction>,
    k: int,
)
    requires
        is_run(config, cycles, events, actions),
        cycles[0] == (Cycle::Directory {
            mode: Mode { restore_if_unchanged: true, reconcile: true, nftables: true },
        }),
        0 <= k < events.len(),
        actions[k] is Done,
    ensures
        ends_reconciled(config, events, actions, k),
{
    let mode = Mode { restore_if_unchanged: true, reconcile: true, nftables: true };
    lemma_mode_stays(config, cycles, events, actions, mode, k);
    assert(cycle_step(config, cycles[k], events[k], cycles[k + 1], actions[k]));
    assert(k >= 1);
    assert(cycle_step(config, cycles[k - 1], events[k - 1], cycles[k], actions[k - 1]));
    if cycles[k] is Recording {
        assert(k >= 2);
        assert(cycle_step(config, cycles[k - 2], events[k - 2], cycles[k - 1], actions[k - 2]));
        if cycles[k - 1] is Files {
            assert(cycles[k - 2] is Deltas);
            assert(k >= 3);
            assert(cycle_step(config, cycles[k - 3], events[k - 3], cycles[k - 2], actions[k - 3]));
            assert(cycles[k - 3] is Stored);
            assert(k >= 4);
            assert(cycle_step(config, cycles[k - 4], events[k - 4], cycles[k - 3], actions[k - 4]));
            lemma_mode_stays(config, cycles, events, actions, mode, k - 4);
            assert(cycles[k - 4] is Update);
            assert(k >= 5);
            assert(cycle_step(config, cycles[k - 5], events[k - 5], cycles[k - 4], actions[k - 5]));
            lemma_mode_stays(config, cycles, events, actions, mode, k - 5);
        }
    }
}

/// An update that a cycle asks for is never refused because of its whitelists.
pub proof fn law_whitelists_are_accepted(
    request: Request,
    config: Config,
    lists: Lists<Option<String>>,
    github: Option<Json>,
)
    requires
        is_request(request, config, lists, github),
    ensures
        request.whitelists_named(),
{
}

/// An action that fails ends the cycle, and a cycle that has ended goes no further.
pub proof fn law_failure_ends_the_cycle(config: Config, before: Cycle, after: Cycle, action: CycleAction, later: CycleEvent)
    requires
        before.awaits(CycleEvent::Failed),
        cycle_step(config, before, CycleEvent::Failed, after, action),
    ensures
        action is Failed,
        !after.awaits(later),
{
}

/// With every feed cached and every ETag the same, nothing is downloaded, written or recorded:
/// the cycle ends, or the sets are restored.
pub proof fn law_unchanged_feeds_change_nothing(
    config: Config,
    mode: Mode,
    remote: Etags,
    recorded: Etags,
    probes: Feeds<Probe>,
    texts: Feeds<Option<String>>,
    github: Option<Json>,
    after: Cycle,
    action: CycleAction,
)
    requires
        unchanged(probes.lists.l1 is File, remote.l1, recorded.l1),
        unchanged(probes.lists.l2 is File, remote.l2, recorded.l2),
        unchanged(probes.lists.bogons_ipv4 is File, remote.bogons_ipv4, recorded.bogons_ipv4),
        unchanged(probes.lists.bogons_ipv6 is File, remote.bogons_ipv6, recorded.bogons_ipv6),
        unchanged(probes.github_meta is File, remote.github_meta, recorded.github_meta),
        ({
            let before = Cycle::Downloads { mode, remote, wanted: changed(probes, remote, recorded) };
            let event = CycleEvent::Downloaded { texts, github };
            before.awaits(event) && cycle_step(config, before, event, after, action)
        }),
    ensures
        action is Restore || action is Done,
        action is Restore <==> mode.restore_if_unchanged && mode.nftables,
{
}

/// Each feed is judged by itself: it is downloaded exactly if its file is not there, or the server
/// names no ETag for it, or none was recorded, or the two are different texts.
pub proof fn law_each_feed_goes_by_its_own_etag(
    config: Config,
    mode: Mode,
    recorded: Etags,
    remote: Etags,
    probes: Feeds<Probe>,
    after: Cycle,
    action: CycleAction,
)
    requires
        cycle_step(config, Cycle::Cache { mode, recorded, remote }, CycleEvent::CacheProbed(probes), after, action),
    ensures
        action is Download <==> {
            &&& probes.lists.l1 is File || probes.lists.l1 is NotFound
            &&& probes.lists.l2 is File || probes.lists.l2 is NotFound
            &&& probes.lists.bogons_ipv4 is File || probes.lists.bogons_ipv4 is NotFound
            &&& probes.lists.bogons_ipv6 is File || probes.lists.bogons_ipv6 is NotFound
            &&& probes.github_meta is File || probes.github_meta is NotFound
        },
        action matches CycleAction::Download(wanted) ==> {
            &&& after == (Cycle::Downloads { mode, remote, wanted })
            &&& wanted.lists.l1 <==> {
                ||| !(probes.lists.l1 is File)
                ||| remote.l1 is None
                ||| recorded.l1 is None
                ||| remote.l1->0@ != recorded.l1->0@
            }
            &&& wanted.lists.l2 <==> {
                ||| !(probes.lists.l2 is File)
                ||| remote.l2 is None
                ||| recorded.l2 is None
                ||| remote.l2->0@ != recorded.l2->0@
            }
            &&& wanted.lists.bogons_ipv4 <==> {
                ||| !(probes.lists.bogons_ipv4 is File)
                ||| remote.bogons_ipv4 is None
                ||| recorded.bogons_ipv4 is None
                ||| remote.bogons_ipv4->0@ != recorded.bogons_ipv4->0@
            }
            &&& wanted.lists.bogons_ipv6 <==> {
                ||| !(probes.lists.bogons_ipv6 is File)
                ||| remote.bogons_ipv6 is None
                ||| recorded.bogons_ipv6 is None
                ||| remote.bogons_ipv6->0@ != recorded.bogons_ipv6->0@
            }
            &&& wanted.github_meta <==> {
                ||| !(probes.github_meta is File)
                ||| remote.github_meta is None
                ||| recorded.github_meta is None
                ||| remote.github_meta->0@ != recorded.github_meta->0@
            }
        },
{
}

/// The same from the start of a cycle on: the ETags that count are those that were loaded, of
/// which there are none if they could not be read, and those that the servers named.
pub proof fn law_downloads_follow_the_loaded_etags(
    config: Config,
    mode: Mode,
    loaded: Option<Etags>,
    remote: Etags,
    probes: Feeds<Probe>,
    cycles: Seq<Cycle>,
    actions: Seq<CycleAction>,
)
    requires
        cycles.len() == 5,
        actions.len() == 4,
        cycle_step(config, Cycle::Directory { mode }, CycleEvent::DirectoryReady, cycles[1], actions[0]),
        cycle_step(config, cycles[1], CycleEvent::EtagsLoaded(loaded), cycles[2], actions[1]),
        cycle_step(config, cycles[2], CycleEvent::RemoteEtags(remote), cycles[3], actions[2]),
        cycle_step(config, cycles[3], CycleEvent::CacheProbed(probes), cycles[4], actions[3]),
    ensures
        actions[0] is LoadEtags,
        actions[1] is FetchEtags,
        actions[2] is ProbeCache,
        actions[3] matches CycleAction::Download(wanted) ==> {
            &&& cycles[4] == (Cycle::Downloads { mode, remote, wanted })
            &&& loaded is None ==> wanted.lists.l1 && wanted.lists.l2 && wanted.lists.bogons_ipv4
                && wanted.lists.bogons_ipv6 && wanted.github_meta
            &&& loaded matches Some(recorded) ==> {
                &&& wanted.lists.l1 <==> {
                    ||| !(probes.lists.l1 is File)
                    ||| remote.l1 is None
                    ||| recorded.l1 is None
                    ||| remote.l1->0@ != recorded.l1->0@
                }
                &&& wanted.lists.l2 <==> {
                    ||| !(probes.lists.l2 is File)
                    ||| remote.l2 is None
                    ||| recorded.l2 is None
                    ||| remote.l2->0@ != recorded.l2->0@
                }
                &&& wanted.lists.bogons_ipv4 <==> {
                    ||| !(probes.lists.bogons_ipv4 is File)
                    ||| remote.bogons_ipv4 is None
                    ||| recorded.bogons_ipv4 is None
                    ||| remote.bogons_ipv4->0@ != recorded.bogons_ipv4->0@
                }
                &&& wanted.lists.bogons_ipv6 <==> {
                    ||| !(probes.lists.bogons_ipv6 is File)
                    ||| remote.bogons_ipv6 is None
                    ||| recorded.bogons_ipv6 is None
                    ||| remote.bogons_ipv6->0@ != recorded.bogons_ipv6->0@
                }
                &&& wanted.github_meta <==> {
                    ||| !(probes.github_meta is File)
                    ||| remote.github_meta is None
                    ||| recorded.github_meta is None
                    ||| remote.github_meta->0@ != recorded.github_meta->0@
                }
            }
        },
{
}

/// A feed of which it is not known whether it is cached ends the cycle, and the first of them is
/// reported.
pub proof fn law_unknown_cache_is_reported(
    config: Config,
    mode: Mode,
    recorded: Etags,
    remote: Etags,
    probes: Feeds<Probe>,
    after: Cycle,
    action: CycleAction,
)
    requires
        cycle_step(config, Cycle::Cache { mode, recorded, remote }, CycleEvent::CacheProbed(probes), after, action),
    ensures
        action is Download || action is Failed && after is Ended,
        ({
            let l1 = probes.lists.l1 is File || probes.lists.l1 is NotFound;
            let l2 = probes.lists.l2 is File || probes.lists.l2 is NotFound;
            let bogons_ipv4 = probes.lists.bogons_ipv4 is File || probes.lists.bogons_ipv4 is NotFound;
            let bogons_ipv6 = probes.lists.bogons_ipv6 is File || probes.lists.bogons_ipv6 is NotFound;
            &&& probes.lists.l1 is NotFile ==> action == CycleAction::Failed(
                CycleError::Cache(Feed::L1, CacheError::NotFile),
            )
            &&& probes.lists.l1 is Failed ==> action == CycleAction::Failed(
                CycleError::Cache(Feed::L1, CacheError::Failed),
            )
            &&& l1 && probes.lists.l2 is NotFile ==> action == CycleAction::Failed(
                CycleError::Cache(Feed::L2, CacheError::NotFile),
            )
            &&& l1 && probes.lists.l2 is Failed ==> action == CycleAction::Failed(
                CycleError::Cache(Feed::L2, CacheError::Failed),
            )
            &&& l1 && l2 && probes.lists.bogons_ipv4 is NotFile ==> action == CycleAction::Failed(
                CycleError::Cache(Feed::BogonsIpv4, CacheError::NotFile),
            )
            &&& l1 && l2 && probes.lists.bogons_ipv4 is Failed ==> action == CycleAction::Failed(
                CycleError::Cache(Feed::BogonsIpv4, CacheError::Failed),
            )
            &&& l1 && l2 && bogons_ipv4 && probes.lists.bogons_ipv6 is NotFile ==> action == CycleAction::Failed(
                CycleError::Cache(Feed::BogonsIpv6, CacheError::NotFile),
            )
            &&& l1 && l2 && bogons_ipv4 && probes.lists.bogons_ipv6 is Failed ==> action == CycleAction::Failed(
                CycleError::Cache(Feed::BogonsIpv6, CacheError::Failed),
            )
            &&& l1 && l2 && bogons_ipv4 && bogons_ipv6 && probes.github_meta is NotFile ==> action == CycleAction::Failed(
                CycleError::Cache(Feed::GithubMeta, CacheError::NotFile),
            )
            &&& l1 && l2 && bogons_ipv4 && bogons_ipv6 && probes.github_meta is Failed ==> action == CycleAction::Failed(
                CycleError::Cache(Feed::GithubMeta, CacheError::Failed),
            )
        }),
{
}

/// The cycle takes texts exactly if they are those of the feeds that it asked for.
pub proof fn law_texts_are_those_asked_for(
    mode: Mode,
    remote: Etags,
    wanted: Feeds<bool>,
    texts: Feeds<Option<String>>,
    github: Option<Json>,
)
    ensures
        (Cycle::Downloads { mode, remote, wanted }).awaits(CycleEvent::Downloaded { texts, github }) <==> {
            &&& texts.lists.l1 is Some <==> wanted.lists.l1
            &&& texts.lists.l2 is Some <==> wanted.lists.l2
            &&& texts.lists.bogons_ipv4 is Some <==> wanted.lists.bogons_ipv4
            &&& texts.lists.bogons_ipv6 is Some <==> wanted.lists.bogons_ipv6
            &&& texts.github_meta is Some <==> wanted.github_meta
        },
{
}

/// What follows the downloads: with no new text the sets are restored or the cycle is done, refused
/// metadata fails, and else the table is updated, where there is one.
pub proof fn law_downloads_lead_on(
    config: Config,
    mode: Mode,
    remote: Etags,
    wanted: Feeds<bool>,
    texts: Feeds<Option<String>>,
    github: Option<Json>,
    after: Cycle,
    action: CycleAction,
)
    requires
        cycle_step(
            config,
            Cycle::Downloads { mode, remote, wanted },
            CycleEvent::Downloaded { texts, github },
            after,
            action,
        ),
    ensures
        ({
            let nothing = texts.lists.l1 is None && texts.lists.l2 is None && texts.lists.bogons_ipv4 is None
                && texts.lists.bogons_ipv6 is None && texts.github_meta is None;
            let refused = texts.github_meta is Some && document_error(github) is Some;
            &&& action is Restore <==> nothing && mode.restore_if_unchanged && mode.nftables
            &&& action is Done <==> nothing && !(mode.restore_if_unchanged && mode.nftables)
            &&& action is Failed <==> !nothing && refused
            &&& action is Failed ==> action == CycleAction::Failed(CycleError::Github(document_error(github)->0))
            &&& action is Update <==> !nothing && !refused && mode.nftables
            &&& action is ReadStored <==> !nothing && !refused && !mode.nftables
            &&& action is Update ==> after == (Cycle::Update { mode, remote, texts }) && is_request(
                action->Update_0,
                config,
                texts.lists,
                if texts.github_meta is Some {
                    github
                } else {
                    None
                },
            )
            &&& action is ReadStored ==> after == (Cycle::Stored { remote, texts, restore: false })
        }),
{
}

/// After an update the fetched feeds are stored, each in its file. If one of the five was not
/// fetched, a cycle that reconciles then reconciles the table; and the ETags that are recorded are
/// those of the servers.
pub proof fn law_partial_update_is_reconciled(
    config: Config,
    mode: Mode,
    remote: Etags,
    texts: Feeds<Option<String>>,
    stored: Lists<ReadOutcome>,
    cycles: Seq<Cycle>,
    actions: Seq<CycleAction>,
    feed: Feed,
    contents: String,
)
    requires
        cycles.len() == 5,
        actions.len() == 4,
        cycle_step(config, Cycle::Update { mode, remote, texts }, CycleEvent::Updated, cycles[1], actions[0]),
        cycle_step(config, cycles[1], CycleEvent::StoredRead(stored), cycles[2], actions[1]),
        cycle_step(config, cycles[2], CycleEvent::DeltasWritten, cycles[3], actions[2]),
        cycle_step(config, cycles[3], CycleEvent::FilesWritten, cycles[4], actions[3]),
    ensures
        actions[0] is ReadStored,
        actions[1] matches CycleAction::WriteDeltas(files) && delta_views(files@) == changed_deltas(stored, texts.lists),
        actions[2] matches CycleAction::WriteFiles(files) && (files@.contains(FeedFile { feed, contents })
            <==> Some(contents) == match feed {
            Feed::L1 => texts.lists.l1,
            Feed::L2 => texts.lists.l2,
            Feed::BogonsIpv4 => texts.lists.bogons_ipv4,
            Feed::BogonsIpv6 => texts.lists.bogons_ipv6,
            Feed::GithubMeta => texts.github_meta,
        }),
        if mode.reconcile && (texts.lists.l1 is None || texts.lists.l2 is None || texts.lists.bogons_ipv4 is None
            || texts.lists.bogons_ipv6 is None || texts.github_meta is None) {
            actions[3] is Reconcile && cycles[4] == (Cycle::Reconciliation { remote })
        } else {
            actions[3] == CycleAction::SaveEtags(remote)
        },
{
    law_changed_feeds_have_files(texts, feed, contents);
}

/// The networks that are asked for hold exactly the addresses of the rows of the text, in blocks
/// that are as large as they can be and in ascending order. Without a text none are asked for.
pub open spec fn holds_rows(nets: Option<Vec<IpNet>>, text: Option<String>) -> bool {
    match text {
        Some(text) => nets matches Some(list) && {
            &&& forall|family: Family, a: int| #[trigger]
                lies_in_some(a, family, list@) <==> lies_in_row(a, family, text@)
            &&& are_largest(list@)
            &&& forall|i: int, j: int| 0 <= i < j < list@.len() ==> net_lt(#[trigger] list@[i], #[trigger] list@[j])
        },
        None => nets is None,
    }
}

proof fn lemma_holds_rows(text: Option<String>, nets: Option<Vec<IpNet>>)
    requires
        is_fetched(text, nets),
    ensures
        holds_rows(nets, text),
{
    if let Some(text) = text {
        assert forall|family: Family, a: int| #[trigger]
            lies_in_some(a, family, nets->0@) <==> lies_in_row(a, family, text@) by {
            law_list_holds_its_rows(text@, family, a);
        }
        law_blocks_are_the_largest(text_networks(text@), nets->0@);
    }
}

/// An update asks for what each list says, each in its own place, and for what every entry of the
/// configured whitelist says, for each family.
pub proof fn law_each_list_has_its_own_place(
    request: Request,
    config: Config,
    lists: Lists<Option<String>>,
    github: Option<Json>,
    a: int,
)
    requires
        is_request(request, config, lists, github),
    ensures
        request.lists@.len() == 4,
        holds_rows(request.lists@[0], lists.l1),
        holds_rows(request.lists@[1], lists.l2),
        holds_rows(request.lists@[2], lists.bogons_ipv4),
        holds_rows(request.lists@[3], lists.bogons_ipv6),
        request.whitelist_ipv4 matches Some(list) && (lies_in_list(a, Family::V4, list@) <==> exists|i: int|
            0 <= i < config.whitelist@.len() && lies_in_row(a, Family::V4, (#[trigger] config.whitelist@[i])@)),
        request.whitelist_ipv6 matches Some(list) && (lies_in_list(a, Family::V6, list@) <==> exists|i: int|
            0 <= i < config.whitelist@.len() && lies_in_row(a, Family::V6, (#[trigger] config.whitelist@[i])@)),
        request.log_blocked == config.log_blocked,
        request.github_networks is Some <==> github is Some,
{
    lemma_holds_rows(lists.l1, request.lists@[0]);
    lemma_holds_rows(lists.l2, request.lists@[1]);
    lemma_holds_rows(lists.bogons_ipv4, request.lists@[2]);
    lemma_holds_rows(lists.bogons_ipv6, request.lists@[3]);
    law_every_entry_counts(config.whitelist@, Family::V4, request.whitelist_ipv4->0@, a);
    law_every_entry_counts(config.whitelist@, Family::V6, request.whitelist_ipv6->0@, a);
}

/// What a cycle waits for. Any action may fail but the loading of the ETags, and nothing more can
/// happen to a cycle that has ended.
pub proof fn law_cycle_waits_for_its_last_action(
    mode: Mode,
    recorded: Etags,
    remote: Etags,
    wanted: Feeds<bool>,
    texts: Feeds<Option<String>>,
    restore: bool,
    event: CycleEvent,
)
    ensures
        (Cycle::Directory { mode }).awaits(event) <==> event is DirectoryReady || event is Failed,
        (Cycle::Recorded { mode }).awaits(event) <==> event is EtagsLoaded,
        (Cycle::Remote { mode, recorded }).awaits(event) <==> event is RemoteEtags || event is Failed,
        (Cycle::Cache { mode, recorded, remote }).awaits(event) <==> event is CacheProbed || event is Failed,
        (Cycle::Downloads { mode, remote, wanted }).awaits(event) ==> event is Downloaded || event is Failed,
        (Cycle::Downloads { mode, remote, wanted }).awaits(CycleEvent::Failed),
        Cycle::Restoration.awaits(event) <==> event is Restored || event is Failed,
        (Cycle::Update { mode, remote, texts }).awaits(event) <==> event is Updated || event is Failed,
        (Cycle::Stored { remote, texts, restore }).awaits(event) <==> event is StoredRead || event is Failed,
        (Cycle::Deltas { remote, texts, restore }).awaits(event) <==> event is DeltasWritten || event is Failed,
        (Cycle::Files { remote, restore }).awaits(event) <==> event is FilesWritten || event is Failed,
        (Cycle::Reconciliation { remote }).awaits(event) <==> event is Restored || event is Failed,
        Cycle::Recording.awaits(event) <==> event is EtagsSaved || event is Failed,
        !Cycle::Ended.awaits(event),
{
}

/// How a cycle ends: after the restoration, or once the ETags are recorded. After a reconciliation
/// the ETags of the servers are recorded. What fails ends it with that failure.
pub proof fn law_cycle_ends(config: Config, remote: Etags, before: Cycle, after: Cycle, action: CycleAction)
    ensures
        cycle_step(config, Cycle::Restoration, CycleEvent::Restored, after, action) ==> after is Ended && action is Done,
        cycle_step(config, Cycle::Reconciliation { remote }, CycleEvent::Restored, after, action) ==> after is Recording
            && action == CycleAction::SaveEtags(remote),
        cycle_step(config, Cycle::Recording, CycleEvent::EtagsSaved, after, action) ==> after is Ended && action is Done,
        cycle_step(config, before, CycleEvent::Failed, after, action) ==> after is Ended && action == CycleAction::Failed(
            CycleError::Action,
        ),
{
}

/// An update with the metadata of GitHub asks for the networks that stand anywhere in it, each named
/// by its lowest address, and for no others.
pub proof fn law_metadata_has_its_own_place(
    request: Request,
    config: Config,
    lists: Lists<Option<String>>,
    github: Option<Json>,
    net: IpNet,
)
    requires
        is_request(request, config, lists, github),
    ensures
        github is None ==> request.github_networks is None,
        github matches Some(document) ==> (request.github_networks matches Some(nets) && (nets@.contains(net)
            <==> exists|path: Seq<int>, range: IpNet| #[trigger]
            has_network_at(document, path, range) && range.truncated() == net)),
{
    if let Some(document) = github {
        law_every_text_counts(document, request.github_networks->0@, net);
    }
}

} // verus!
