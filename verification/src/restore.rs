//! Rebuilding the sets from the last successful downloads.

use vstd::prelude::*;

use crate::config::Config;
use crate::cycle::{holds_rows, is_request, law_each_list_has_its_own_place, update_request};
use crate::feeds::{
    all_files, changed_files, law_all_feeds_have_files, law_changed_feeds_have_files, persist_changed_downloads,
    persist_downloads, read_cached_or_missing, read_or_empty, Feed, FeedFile, Feeds, Lists, ReadOutcome,
};
use crate::github::{
    document_error, has_network_at, law_every_text_counts, metadata_error, parse_github_ranges, GithubError,
};
use crate::json::Json;
use crate::net::IpNet;
use crate::update::Request;

verus! {

/// What a restoration is for.
#[derive(Clone, Copy, Debug, PartialEq, Eq, Structural)]
pub enum Purpose {
    /// To bring back the last successful downloads. All of them are written again.
    Restore,
    /// To reconcile the table after an update with some of the feeds. Only what had to be
    /// downloaded is written.
    Reconcile,
}

/// A restoration that is under way: what it waits for.
#[derive(Debug)]
pub enum Restoration {
    /// The cached lists.
    CachedLists { purpose: Purpose },
    /// The lists that are not cached.
    MissingLists { purpose: Purpose, cached: Lists<String>, missing: Lists<bool> },
    /// The cached metadata of GitHub. Some lists were downloaded.
    CachedMetadata { purpose: Purpose, lists: Lists<String>, downloaded: Lists<bool> },
    /// The metadata of GitHub from the server. Some lists were downloaded.
    Metadata { purpose: Purpose, lists: Lists<String>, downloaded: Lists<bool> },
    /// The update of the table. Some feeds were downloaded.
    Update { purpose: Purpose, feeds: Feeds<String>, downloaded: Feeds<bool> },
    /// The writing of the feeds. Something may have failed before.
    Files { failure: Option<RestoreError> },
    /// Nothing: the restoration has ended.
    Ended,
}

/// What came of the last action.
#[derive(Debug)]
pub enum RestoreEvent {
    ListsRead(Lists<ReadOutcome>),
    /// The texts of the lists that are not cached.
    ListsDownloaded(Lists<Option<String>>),
    /// The cached metadata, and the document that it holds if it is JSON.
    MetadataRead { outcome: ReadOutcome, document: Option<Json> },
    /// The downloaded metadata, and the document that it holds if it is JSON.
    MetadataDownloaded { text: String, document: Option<Json> },
    Updated,
    FilesWritten,
    /// The action failed.
    Failed,
}

/// Why a restoration failed.
#[derive(Clone, Copy, Debug, PartialEq, Eq, Structural)]
pub enum RestoreError {
    /// A cached feed could not be read, or a missing one not be fetched.
    Feeds,
    /// The metadata of GitHub is refused.
    Github(GithubError),
    /// The table was not updated.
    Update,
    /// The feeds could not be written.
    Files,
}

/// What is to be done next.
#[derive(Debug)]
pub enum RestoreAction {
    DownloadLists(Lists<bool>),
    ReadMetadata,
    DownloadMetadata,
    Update(Request),
    WriteFiles(Vec<FeedFile>),
    Done,
    Failed(RestoreError),
}

/// Whether the cached metadata of GitHub can be used: it may be, there is some, and it is not
/// refused. Else it is to be downloaded. `document` is what the cached text holds, if it is JSON.
pub fn github_metadata(cached: &str, document: &Option<Json>, use_cache: bool) -> (usable: bool)
    ensures
        usable == (use_cache && cached@.len() > 0 && document_error(*document) is None),
{
    if use_cache && !cached.is_empty() {
        match document {
            Some(document) => parse_github_ranges(document).is_ok(),
            None => false,
        }
    } else {
        false
    }
}

/// A list could not be read.
pub open spec fn unreadable(lists: Lists<ReadOutcome>) -> bool {
    lists.l1 is Failed || lists.l2 is Failed || lists.bogons_ipv4 is Failed || lists.bogons_ipv6 is Failed
}

/// The lists that are not cached.
pub open spec fn missing_lists(lists: Lists<ReadOutcome>) -> Lists<bool> {
    Lists {
        l1: lists.l1 is NotFound,
        l2: lists.l2 is NotFound,
        bogons_ipv4: lists.bogons_ipv4 is NotFound,
        bogons_ipv6: lists.bogons_ipv6 is NotFound,
    }
}

/// The cached text of a list; what is not cached is empty.
pub open spec fn is_cached_text(outcome: ReadOutcome, text: String) -> bool {
    match outcome {
        ReadOutcome::Text(cached) => text == cached,
        _ => text@.len() == 0,
    }
}

/// The cached texts of the lists.
pub open spec fn are_cached_texts(lists: Lists<ReadOutcome>, texts: Lists<String>) -> bool {
    &&& is_cached_text(lists.l1, texts.l1)
    &&& is_cached_text(lists.l2, texts.l2)
    &&& is_cached_text(lists.bogons_ipv4, texts.bogons_ipv4)
    &&& is_cached_text(lists.bogons_ipv6, texts.bogons_ipv6)
}

/// What was downloaded, or else what was cached.
pub open spec fn filled_text(cached: String, downloaded: Option<String>) -> String {
    match downloaded {
        Some(text) => text,
        None => cached,
    }
}

/// What was downloaded of each list, or else what was cached.
pub open spec fn filled(cached: Lists<String>, downloaded: Lists<Option<String>>) -> Lists<String> {
    Lists {
        l1: filled_text(cached.l1, downloaded.l1),
        l2: filled_text(cached.l2, downloaded.l2),
        bogons_ipv4: filled_text(cached.bogons_ipv4, downloaded.bogons_ipv4),
        bogons_ipv6: filled_text(cached.bogons_ipv6, downloaded.bogons_ipv6),
    }
}

/// All lists are at hand.
pub open spec fn all_present(lists: Lists<String>) -> Lists<Option<String>> {
    Lists {
        l1: Some(lists.l1),
        l2: Some(lists.l2),
        bogons_ipv4: Some(lists.bogons_ipv4),
        bogons_ipv6: Some(lists.bogons_ipv6),
    }
}

/// A text that was downloaded.
pub open spec fn text_if(downloaded: bool, text: String) -> Option<String> {
    if downloaded {
        Some(text)
    } else {
        None
    }
}

/// The feeds that were downloaded.
pub open spec fn only_downloaded(feeds: Feeds<String>, downloaded: Feeds<bool>) -> Feeds<Option<String>> {
    Feeds {
        lists: Lists {
            l1: text_if(downloaded.lists.l1, feeds.lists.l1),
            l2: text_if(downloaded.lists.l2, feeds.lists.l2),
            bogons_ipv4: text_if(downloaded.lists.bogons_ipv4, feeds.lists.bogons_ipv4),
            bogons_ipv6: text_if(downloaded.lists.bogons_ipv6, feeds.lists.bogons_ipv6),
        },
        github_meta: text_if(downloaded.github_meta, feeds.github_meta),
    }
}

/// The files that a restoration writes: all of them, or those of the feeds that it downloaded.
pub open spec fn files_written(purpose: Purpose, feeds: Feeds<String>, downloaded: Feeds<bool>) -> Seq<FeedFile> {
    match purpose {
        Purpose::Restore => all_files(feeds),
        Purpose::Reconcile => changed_files(only_downloaded(feeds, downloaded)),
    }
}

/// The files of the restoration are to be written.
pub open spec fn writes_back(
    action: RestoreAction,
    purpose: Purpose,
    feeds: Feeds<String>,
    downloaded: Feeds<bool>,
) -> bool {
    action matches RestoreAction::WriteFiles(files) && files@ == files_written(purpose, feeds, downloaded)
}

/// How a restoration goes on once all feeds are at hand: the table is updated with all lists and
/// whitelists. If the metadata is refused, the feeds are only written.
pub open spec fn processes(
    config: Config,
    purpose: Purpose,
    feeds: Feeds<String>,
    downloaded: Feeds<bool>,
    document: Option<Json>,
    after: Restoration,
    action: RestoreAction,
) -> bool {
    match document_error(document) {
        None => {
            &&& after == (Restoration::Update { purpose, feeds, downloaded })
            &&& action matches RestoreAction::Update(request) && is_request(
                request,
                config,
                all_present(feeds.lists),
                document,
            )
        },
        Some(error) => {
            &&& after == (Restoration::Files { failure: Some(RestoreError::Github(error)) })
            &&& writes_back(action, purpose, feeds, downloaded)
        },
    }
}

/// How a restoration goes on with the cached lists: it fails if one could not be read, and else
/// the missing ones are downloaded.
pub open spec fn after_lists_read(
    purpose: Purpose,
    lists: Lists<ReadOutcome>,
    after: Restoration,
    action: RestoreAction,
) -> bool {
    if unreadable(lists) {
        after is Ended && action == RestoreAction::Failed(RestoreError::Feeds)
    } else {
        &&& after matches Restoration::MissingLists { purpose: p, cached, missing } && p == purpose
            && are_cached_texts(lists, cached) && missing == missing_lists(lists)
        &&& action == RestoreAction::DownloadLists(missing_lists(lists))
    }
}

/// How a restoration goes on after an event.
pub open spec fn restore_step(
    config: Config,
    before: Restoration,
    event: RestoreEvent,
    after: Restoration,
    action: RestoreAction,
) -> bool {
    match (before, event) {
        (Restoration::CachedLists { purpose }, RestoreEvent::ListsRead(lists)) => after_lists_read(
            purpose,
            lists,
            after,
            action,
        ),
        (Restoration::MissingLists { purpose, cached, missing }, RestoreEvent::ListsDownloaded(texts)) => {
            &&& after == (Restoration::CachedMetadata { purpose, lists: filled(cached, texts), downloaded: missing })
            &&& action is ReadMetadata
        },
        (
            Restoration::CachedMetadata { purpose, lists, downloaded },
            RestoreEvent::MetadataRead { outcome, document },
        ) => match outcome {
            ReadOutcome::Failed => after is Ended && action == RestoreAction::Failed(RestoreError::Feeds),
            ReadOutcome::Text(text) => if text@.len() > 0 && document_error(document) is None {
                processes(
                    config,
                    purpose,
                    Feeds { lists, github_meta: text },
                    Feeds { lists: downloaded, github_meta: false },
                    document,
                    after,
                    action,
                )
            } else {
                after == (Restoration::Metadata { purpose, lists, downloaded }) && action is DownloadMetadata
            },
            ReadOutcome::NotFound => {
                after == (Restoration::Metadata { purpose, lists, downloaded }) && action is DownloadMetadata
            },
        },
        (
            Restoration::Metadata { purpose, lists, downloaded },
            RestoreEvent::MetadataDownloaded { text, document },
        ) => processes(
            config,
            purpose,
            Feeds { lists, github_meta: text },
            Feeds { lists: downloaded, github_meta: true },
            document,
            after,
            action,
        ),
        (Restoration::Update { purpose, feeds, downloaded }, RestoreEvent::Updated) => {
            &&& after == (Restoration::Files { failure: None })
            &&& writes_back(action, purpose, feeds, downloaded)
        },
        (Restoration::Update { purpose, feeds, downloaded }, RestoreEvent::Failed) => {
            &&& after == (Restoration::Files { failure: Some(RestoreError::Update) })
            &&& writes_back(action, purpose, feeds, downloaded)
        },
        (Restoration::Files { failure }, RestoreEvent::FilesWritten) => {
            &&& after is Ended
            &&& match failure {
                Some(error) => action == RestoreAction::Failed(error),
                None => action is Done,
            }
        },
        (Restoration::Files { failure }, RestoreEvent::Failed) => {
            &&& after is Ended
            &&& match failure {
                Some(error) => action == RestoreAction::Failed(error),
                None => action == RestoreAction::Failed(RestoreError::Files),
            }
        },
        (_, RestoreEvent::Failed) => after is Ended && action == RestoreAction::Failed(RestoreError::Feeds),
        _ => false,
    }
}

/// A list is downloaded exactly if it is missing.
pub open spec fn downloaded_as_missing(missing: Lists<bool>, texts: Lists<Option<String>>) -> bool {
    &&& missing.l1 == (texts.l1 is Some)
    &&& missing.l2 == (texts.l2 is Some)
    &&& missing.bogons_ipv4 == (texts.bogons_ipv4 is Some)
    &&& missing.bogons_ipv6 == (texts.bogons_ipv6 is Some)
}

fn fill(cached: String, downloaded: Option<String>) -> (text: String)
    ensures
        text == filled_text(cached, downloaded),
{
    match downloaded {
        Some(text) => text,
        None => cached,
    }
}

/// The text if it was downloaded.
fn keep_if(downloaded: bool, text: String) -> (kept: Option<String>)
    ensures
        kept == text_if(downloaded, text),
{
    if downloaded {
        Some(text)
    } else {
        None
    }
}

/// The files that a restoration writes.
fn write_back(purpose: Purpose, feeds: Feeds<String>, downloaded: Feeds<bool>) -> (action: RestoreAction)
    ensures
        writes_back(action, purpose, feeds, downloaded),
{
    match purpose {
        Purpose::Restore => RestoreAction::WriteFiles(persist_downloads(feeds)),
        Purpose::Reconcile => {
            let Feeds { lists, github_meta } = feeds;
            let kept: Feeds<Option<String>> = Feeds {
                lists: Lists {
                    l1: keep_if(downloaded.lists.l1, lists.l1),
                    l2: keep_if(downloaded.lists.l2, lists.l2),
                    bogons_ipv4: keep_if(downloaded.lists.bogons_ipv4, lists.bogons_ipv4),
                    bogons_ipv6: keep_if(downloaded.lists.bogons_ipv6, lists.bogons_ipv6),
                },
                github_meta: keep_if(downloaded.github_meta, github_meta),
            };
            RestoreAction::WriteFiles(persist_changed_downloads(kept))
        },
    }
}

/// Starts a restoration of the last successful downloads. The cached lists are to be read first.
pub fn restore_cached() -> (restoration: Restoration)
    ensures
        restoration == (Restoration::CachedLists { purpose: Purpose::Restore }),
{
    Restoration::CachedLists { purpose: Purpose::Restore }
}

/// Starts a reconciliation of the table with the stored feeds. The cached lists are to be read
/// first.
pub fn reconcile_cached() -> (restoration: Restoration)
    ensures
        restoration == (Restoration::CachedLists { purpose: Purpose::Reconcile }),
{
    Restoration::CachedLists { purpose: Purpose::Reconcile }
}

impl Restoration {
    /// The event is what the restoration waits for.
    pub open spec fn awaits(self, event: RestoreEvent) -> bool {
        match (self, event) {
            (Restoration::CachedLists { .. }, RestoreEvent::ListsRead(_)) => true,
            (Restoration::MissingLists { missing, .. }, RestoreEvent::ListsDownloaded(texts)) => downloaded_as_missing(
                missing,
                texts,
            ),
            (Restoration::CachedMetadata { .. }, RestoreEvent::MetadataRead { .. }) => true,
            (Restoration::Metadata { .. }, RestoreEvent::MetadataDownloaded { .. }) => true,
            (Restoration::Update { .. }, RestoreEvent::Updated) => true,
            (Restoration::Files { .. }, RestoreEvent::FilesWritten) => true,
            (Restoration::Ended, RestoreEvent::Failed) => false,
            (_, RestoreEvent::Failed) => true,
            _ => false,
        }
    }

    /// Whether the event is what the restoration waits for.
    pub fn accepts(&self, event: &RestoreEvent) -> (ok: bool)
        ensures
            ok == self.awaits(*event),
    {
        match (self, event) {
            (Restoration::CachedLists { .. }, RestoreEvent::ListsRead(_)) => true,
            (Restoration::MissingLists { missing, .. }, RestoreEvent::ListsDownloaded(texts)) => {
                missing.l1 == texts.l1.is_some() && missing.l2 == texts.l2.is_some() && missing.bogons_ipv4
                    == texts.bogons_ipv4.is_some() && missing.bogons_ipv6 == texts.bogons_ipv6.is_some()
            },
            (Restoration::CachedMetadata { .. }, RestoreEvent::MetadataRead { .. }) => true,
            (Restoration::Metadata { .. }, RestoreEvent::MetadataDownloaded { .. }) => true,
            (Restoration::Update { .. }, RestoreEvent::Updated) => true,
            (Restoration::Files { .. }, RestoreEvent::FilesWritten) => true,
            (Restoration::Ended, RestoreEvent::Failed) => false,
            (_, RestoreEvent::Failed) => true,
            _ => false,
        }
    }

    /// Goes on once all feeds are at hand.
    fn process(
        config: &Config,
        purpose: Purpose,
        feeds: Feeds<String>,
        downloaded: Feeds<bool>,
        document: Option<Json>,
    ) -> (next: (Restoration, RestoreAction))
        ensures
            processes(*config, purpose, feeds, downloaded, document, next.0, next.1),
    {
        let ranges: Vec<IpNet> = match &document {
            None => return (
                Restoration::Files { failure: Some(RestoreError::Github(GithubError::Malformed)) },
                write_back(purpose, feeds, downloaded),
            ),
            Some(document) => match parse_github_ranges(document) {
                Err(error) => return (
                    Restoration::Files { failure: Some(RestoreError::Github(error)) },
                    write_back(purpose, feeds, downloaded),
                ),
                Ok(ranges) => ranges,
            },
        };
        let lists: Lists<Option<String>> = Lists {
            l1: Some(feeds.lists.l1.clone()),
            l2: Some(feeds.lists.l2.clone()),
            bogons_ipv4: Some(feeds.lists.bogons_ipv4.clone()),
            bogons_ipv6: Some(feeds.lists.bogons_ipv6.clone()),
        };
        let request: Request = update_request(config, &lists, Some(ranges));
        (Restoration::Update { purpose, feeds, downloaded }, RestoreAction::Update(request))
    }

    /// Goes on with the cached lists.
    fn lists_read(purpose: Purpose, lists: Lists<ReadOutcome>) -> (next: (Restoration, RestoreAction))
        ensures
            after_lists_read(purpose, lists, next.0, next.1),
    {
        match (
            read_cached_or_missing(lists.l1),
            read_cached_or_missing(lists.l2),
            read_cached_or_missing(lists.bogons_ipv4),
            read_cached_or_missing(lists.bogons_ipv6),
        ) {
            (Some((l1, no_l1)), Some((l2, no_l2)), Some((ipv4, no_ipv4)), Some((ipv6, no_ipv6))) => (
                Restoration::MissingLists {
                    purpose,
                    cached: Lists { l1, l2, bogons_ipv4: ipv4, bogons_ipv6: ipv6 },
                    missing: Lists { l1: no_l1, l2: no_l2, bogons_ipv4: no_ipv4, bogons_ipv6: no_ipv6 },
                },
                RestoreAction::DownloadLists(
                    Lists { l1: no_l1, l2: no_l2, bogons_ipv4: no_ipv4, bogons_ipv6: no_ipv6 },
                ),
            ),
            _ => (Restoration::Ended, RestoreAction::Failed(RestoreError::Feeds)),
        }
    }

    /// Takes what came of the last action, and says what is to be done next.
    pub fn step(self, config: &Config, event: RestoreEvent) -> (next: (Restoration, RestoreAction))
        requires
            self.awaits(event),
        ensures
            restore_step(*config, self, event, next.0, next.1),
    {
        match (self, event) {
            (Restoration::CachedLists { purpose }, RestoreEvent::ListsRead(lists)) => Restoration::lists_read(
                purpose,
                lists,
            ),
            (Restoration::MissingLists { purpose, cached, missing }, RestoreEvent::ListsDownloaded(texts)) => (
                Restoration::CachedMetadata {
                    purpose,
                    lists: Lists {
                        l1: fill(cached.l1, texts.l1),
                        l2: fill(cached.l2, texts.l2),
                        bogons_ipv4: fill(cached.bogons_ipv4, texts.bogons_ipv4),
                        bogons_ipv6: fill(cached.bogons_ipv6, texts.bogons_ipv6),
                    },
                    downloaded: missing,
                },
                RestoreAction::ReadMetadata,
            ),
            (
                Restoration::CachedMetadata { purpose, lists, downloaded },
                RestoreEvent::MetadataRead { outcome, document },
            ) => match read_or_empty(outcome) {
                None => (Restoration::Ended, RestoreAction::Failed(RestoreError::Feeds)),
                Some(cached) => if github_metadata(cached.as_str(), &document, true) {
                    Restoration::process(
                        config,
                        purpose,
                        Feeds { lists, github_meta: cached },
                        Feeds { lists: downloaded, github_meta: false },
                        document,
                    )
                } else {
                    (Restoration::Metadata { purpose, lists, downloaded }, RestoreAction::DownloadMetadata)
                },
            },
            (
                Restoration::Metadata { purpose, lists, downloaded },
                RestoreEvent::MetadataDownloaded { text, document },
            ) => Restoration::process(
                config,
                purpose,
                Feeds { lists, github_meta: text },
                Feeds { lists: downloaded, github_meta: true },
                document,
            ),
            (Restoration::Update { purpose, feeds, downloaded }, RestoreEvent::Updated) => (
                Restoration::Files { failure: None },
                write_back(purpose, feeds, downloaded),
            ),
            (Restoration::Update { purpose, feeds, downloaded }, RestoreEvent::Failed) => (
                Restoration::Files { failure: Some(RestoreError::Update) },
                write_back(purpose, feeds, downloaded),
            ),
            (Restoration::Files { failure: Some(error) }, _) => (Restoration::Ended, RestoreAction::Failed(error)),
            (Restoration::Files { failure: None }, RestoreEvent::FilesWritten) => (
                Restoration::Ended,
                RestoreAction::Done,
            ),
            (Restoration::Files { failure: None }, _) => (
                Restoration::Ended,
                RestoreAction::Failed(RestoreError::Files),
            ),
            (_, _) => (Restoration::Ended, RestoreAction::Failed(RestoreError::Feeds)),
        }
    }
}

/// The restorations, events and actions of a run: every event is what the restoration waited for.
pub open spec fn is_restoration(
    config: Config,
    states: Seq<Restoration>,
    events: Seq<RestoreEvent>,
    actions: Seq<RestoreAction>,
) -> bool {
    &&& states.len() == events.len() + 1
    &&& actions.len() == events.len()
    &&& states[0] is CachedLists
    &&& forall|i: int|
        #![trigger events[i]]
        0 <= i < events.len() ==> states[i].awaits(events[i]) && restore_step(
            config,
            states[i],
            events[i],
            states[i + 1],
            actions[i],
        )
}

/// The action asks for an update with all of the lists, the configured whitelists, and the
/// networks that the document names.
pub open spec fn restores_all(config: Config, action: RestoreAction, lists: Lists<String>, document: Json) -> bool {
    action matches RestoreAction::Update(request) && is_request(request, config, all_present(lists), Some(document))
}

/// A restoration that finishes has updated the table with every list and every whitelist.
pub proof fn law_finished_restoration_is_complete(
    config: Config,
    states: Seq<Restoration>,
    events: Seq<RestoreEvent>,
    actions: Seq<RestoreAction>,
    k: int,
)
    requires
        is_restoration(config, states, events, actions),
        0 <= k < events.len(),
        actions[k] is Done,
    ensures
        k >= 2,
        events[k - 1] is Updated,
        states[k - 1] matches Restoration::Update { feeds, .. } && exists|document: Json| #[trigger]
            restores_all(config, actions[k - 2], feeds.lists, document),
{
    assert(restore_step(config, states[k], events[k], states[k + 1], actions[k]));
    assert(states[k] == (Restoration::Files { failure: None }));
    assert(k >= 1);
    assert(restore_step(config, states[k - 1], events[k - 1], states[k], actions[k - 1]));
    assert(states[k - 1] is Update);
    assert(k >= 2);
    assert(restore_step(config, states[k - 2], events[k - 2], states[k - 1], actions[k - 2]));
    let document = match events[k - 2] {
        RestoreEvent::MetadataRead { document, .. } => document->0,
        RestoreEvent::MetadataDownloaded { document, .. } => document->0,
        _ => arbitrary(),
    };
    assert(restores_all(config, actions[k - 2], states[k - 1]->feeds.lists, document));
}

/// The text of a list after a restoration: the cached one, or else the downloaded one.
pub open spec fn restored_text(outcome: ReadOutcome, downloaded: Option<String>, text: String) -> bool {
    match outcome {
        ReadOutcome::Text(cached) => text == cached,
        _ => downloaded == Some(text),
    }
}

/// A cached list is used as it is, and only a missing list is downloaded.
pub proof fn law_cached_lists_are_kept(
    config: Config,
    purpose: Purpose,
    outcomes: Lists<ReadOutcome>,
    waiting: Restoration,
    first: RestoreAction,
    texts: Lists<Option<String>>,
    after: Restoration,
    second: RestoreAction,
)
    requires
        !unreadable(outcomes),
        restore_step(config, Restoration::CachedLists { purpose }, RestoreEvent::ListsRead(outcomes), waiting, first),
        waiting.awaits(RestoreEvent::ListsDownloaded(texts)),
        restore_step(config, waiting, RestoreEvent::ListsDownloaded(texts), after, second),
    ensures
        first == RestoreAction::DownloadLists(missing_lists(outcomes)),
        after matches Restoration::CachedMetadata { purpose: p, lists, downloaded } && {
            &&& p == purpose
            &&& downloaded == missing_lists(outcomes)
            &&& restored_text(outcomes.l1, texts.l1, lists.l1)
            &&& restored_text(outcomes.l2, texts.l2, lists.l2)
            &&& restored_text(outcomes.bogons_ipv4, texts.bogons_ipv4, lists.bogons_ipv4)
            &&& restored_text(outcomes.bogons_ipv6, texts.bogons_ipv6, lists.bogons_ipv6)
        },
{
}

/// The feeds are written even if the metadata is refused, and the refusal is reported all the
/// same.
pub proof fn law_refused_metadata_keeps_feeds(
    config: Config,
    purpose: Purpose,
    lists: Lists<String>,
    downloaded: Lists<bool>,
    text: String,
    document: Option<Json>,
    writing: Restoration,
    first: RestoreAction,
    event: RestoreEvent,
    after: Restoration,
    second: RestoreAction,
)
    requires
        document_error(document) is Some,
        restore_step(
            config,
            Restoration::Metadata { purpose, lists, downloaded },
            RestoreEvent::MetadataDownloaded { text, document },
            writing,
            first,
        ),
        writing.awaits(event),
        restore_step(config, writing, event, after, second),
    ensures
        writes_back(
            first,
            purpose,
            Feeds { lists, github_meta: text },
            Feeds { lists: downloaded, github_meta: true },
        ),
        after is Ended,
        second == RestoreAction::Failed(RestoreError::Github(document_error(document)->0)),
{
}

/// The feeds are written even if the table could not be updated, and the failure is reported all
/// the same.
pub proof fn law_failed_update_keeps_feeds(
    config: Config,
    purpose: Purpose,
    feeds: Feeds<String>,
    downloaded: Feeds<bool>,
    writing: Restoration,
    first: RestoreAction,
    event: RestoreEvent,
    after: Restoration,
    second: RestoreAction,
)
    requires
        restore_step(
            config,
            Restoration::Update { purpose, feeds, downloaded },
            RestoreEvent::Failed,
            writing,
            first,
        ),
        writing.awaits(event),
        restore_step(config, writing, event, after, second),
    ensures
        writes_back(first, purpose, feeds, downloaded),
        after is Ended,
        second == RestoreAction::Failed(RestoreError::Update),
{
}

/// Cached metadata that is not refused is never downloaded again.
pub proof fn law_usable_metadata_is_kept(
    config: Config,
    purpose: Purpose,
    lists: Lists<String>,
    downloaded: Lists<bool>,
    text: String,
    document: Json,
    after: Restoration,
    action: RestoreAction,
)
    requires
        text@.len() > 0,
        metadata_error(document) is None,
        restore_step(
            config,
            Restoration::CachedMetadata { purpose, lists, downloaded },
            RestoreEvent::MetadataRead { outcome: ReadOutcome::Text(text), document: Some(document) },
            after,
            action,
        ),
    ensures
        after matches Restoration::Update { feeds, downloaded: fetched, .. } && feeds == (Feeds {
            lists,
            github_meta: text,
        }) && !fetched.github_meta,
        action is Update,
{
}

/// A reconciliation that downloaded nothing writes nothing: every stored feed stays as it is.
pub proof fn law_reconciliation_writes_only_downloads(feeds: Feeds<String>, downloaded: Feeds<bool>)
    requires
        !downloaded.lists.l1,
        !downloaded.lists.l2,
        !downloaded.lists.bogons_ipv4,
        !downloaded.lists.bogons_ipv6,
        !downloaded.github_meta,
    ensures
        files_written(Purpose::Reconcile, feeds, downloaded) == Seq::<FeedFile>::empty(),
{
    assert(files_written(Purpose::Reconcile, feeds, downloaded) =~= Seq::<FeedFile>::empty());
}

/// Each cached list is judged by itself: a restoration fails if one could not be read, and else
/// asks for exactly those that are not there.
pub proof fn law_each_missing_list_is_asked_for(
    config: Config,
    purpose: Purpose,
    outcomes: Lists<ReadOutcome>,
    after: Restoration,
    action: RestoreAction,
)
    requires
        restore_step(config, Restoration::CachedLists { purpose }, RestoreEvent::ListsRead(outcomes), after, action),
    ensures
        action is Failed || action is DownloadLists,
        action is Failed ==> action == RestoreAction::Failed(RestoreError::Feeds) && after is Ended,
        action is Failed <==> {
            ||| outcomes.l1 is Failed
            ||| outcomes.l2 is Failed
            ||| outcomes.bogons_ipv4 is Failed
            ||| outcomes.bogons_ipv6 is Failed
        },
        action matches RestoreAction::DownloadLists(missing) ==> {
            &&& missing.l1 <==> outcomes.l1 is NotFound
            &&& missing.l2 <==> outcomes.l2 is NotFound
            &&& missing.bogons_ipv4 <==> outcomes.bogons_ipv4 is NotFound
            &&& missing.bogons_ipv6 <==> outcomes.bogons_ipv6 is NotFound
        },
{
}

/// The restoration takes lists exactly if they are those that it asked for.
pub proof fn law_lists_are_those_asked_for(
    purpose: Purpose,
    cached: Lists<String>,
    missing: Lists<bool>,
    texts: Lists<Option<String>>,
)
    ensures
        (Restoration::MissingLists { purpose, cached, missing }).awaits(RestoreEvent::ListsDownloaded(texts)) <==> {
            &&& texts.l1 is Some <==> missing.l1
            &&& texts.l2 is Some <==> missing.l2
            &&& texts.bogons_ipv4 is Some <==> missing.bogons_ipv4
            &&& texts.bogons_ipv6 is Some <==> missing.bogons_ipv6
        },
{
}

/// Each list is the cached text of that very list, or else the text that was downloaded for it.
pub proof fn law_each_list_keeps_its_text(
    config: Config,
    purpose: Purpose,
    outcomes: Lists<ReadOutcome>,
    waiting: Restoration,
    first: RestoreAction,
    texts: Lists<Option<String>>,
    after: Restoration,
    second: RestoreAction,
)
    requires
        restore_step(config, Restoration::CachedLists { purpose }, RestoreEvent::ListsRead(outcomes), waiting, first),
        waiting.awaits(RestoreEvent::ListsDownloaded(texts)),
        restore_step(config, waiting, RestoreEvent::ListsDownloaded(texts), after, second),
    ensures
        second is ReadMetadata,
        after matches Restoration::CachedMetadata { purpose: p, lists, downloaded } && {
            &&& p == purpose
            &&& match outcomes.l1 {
                ReadOutcome::Text(cached) => lists.l1 == cached && texts.l1 is None,
                _ => Some(lists.l1) == texts.l1,
            }
            &&& downloaded.l1 <==> outcomes.l1 is NotFound
            &&& match outcomes.l2 {
                ReadOutcome::Text(cached) => lists.l2 == cached && texts.l2 is None,
                _ => Some(lists.l2) == texts.l2,
            }
            &&& downloaded.l2 <==> outcomes.l2 is NotFound
            &&& match outcomes.bogons_ipv4 {
                ReadOutcome::Text(cached) => lists.bogons_ipv4 == cached && texts.bogons_ipv4 is None,
                _ => Some(lists.bogons_ipv4) == texts.bogons_ipv4,
            }
            &&& downloaded.bogons_ipv4 <==> outcomes.bogons_ipv4 is NotFound
            &&& match outcomes.bogons_ipv6 {
                ReadOutcome::Text(cached) => lists.bogons_ipv6 == cached && texts.bogons_ipv6 is None,
                _ => Some(lists.bogons_ipv6) == texts.bogons_ipv6,
            }
            &&& downloaded.bogons_ipv6 <==> outcomes.bogons_ipv6 is NotFound
        },
{
}

/// What a restoration writes: all feeds, each with its own contents; a reconciliation only those
/// that it downloaded.
pub proof fn law_restored_feeds_have_files(
    purpose: Purpose,
    feeds: Feeds<String>,
    downloaded: Feeds<bool>,
    feed: Feed,
    contents: String,
)
    ensures
        files_written(purpose, feeds, downloaded).contains(FeedFile { feed, contents }) <==> contents == (match feed {
            Feed::L1 => feeds.lists.l1,
            Feed::L2 => feeds.lists.l2,
            Feed::BogonsIpv4 => feeds.lists.bogons_ipv4,
            Feed::BogonsIpv6 => feeds.lists.bogons_ipv6,
            Feed::GithubMeta => feeds.github_meta,
        }) && (purpose == Purpose::Restore || match feed {
            Feed::L1 => downloaded.lists.l1,
            Feed::L2 => downloaded.lists.l2,
            Feed::BogonsIpv4 => downloaded.lists.bogons_ipv4,
            Feed::BogonsIpv6 => downloaded.lists.bogons_ipv6,
            Feed::GithubMeta => downloaded.github_meta,
        }),
        purpose == Purpose::Restore ==> files_written(purpose, feeds, downloaded).len() == 5,
        purpose == Purpose::Reconcile ==> files_written(purpose, feeds, downloaded).len() == downloaded.lists.l1 as int
            + downloaded.lists.l2 as int + downloaded.lists.bogons_ipv4 as int + downloaded.lists.bogons_ipv6 as int
            + downloaded.github_meta as int,
{
    law_changed_feeds_have_files(only_downloaded(feeds, downloaded), feed, contents);
    law_all_feeds_have_files(feeds, feed);
    let all = all_files(feeds);
    if purpose == Purpose::Restore {
        let i = choose|i: int| 0 <= i < 5 && (#[trigger] all[i]).feed == feed;
        assert(all.contains(all[i]));
        if all.contains(FeedFile { feed, contents }) {
            let k = all.index_of(FeedFile { feed, contents });
            assert(all[k].feed == feed);
        }
    }
}

/// The update of a restoration asks for the rows of each list in its own place and for the networks
/// of the metadata. The cached metadata is used exactly if there is some and it is not refused.
pub proof fn law_restoration_updates_with_its_feeds(
    config: Config,
    purpose: Purpose,
    lists: Lists<String>,
    downloaded: Lists<bool>,
    text: String,
    document: Option<Json>,
    after: Restoration,
    action: RestoreAction,
    net: IpNet,
)
    requires
        restore_step(
            config,
            Restoration::CachedMetadata { purpose, lists, downloaded },
            RestoreEvent::MetadataRead { outcome: ReadOutcome::Text(text), document },
            after,
            action,
        ) || restore_step(
            config,
            Restoration::Metadata { purpose, lists, downloaded },
            RestoreEvent::MetadataDownloaded { text, document },
            after,
            action,
        ),
    ensures
        document_error(document) is None && text@.len() > 0 ==> action is Update,
        action matches RestoreAction::Update(request) ==> {
            &&& document_error(document) is None
            &&& after matches Restoration::Update { purpose: p, feeds, downloaded: fetched } && p == purpose && feeds
                == (Feeds { lists, github_meta: text }) && fetched.lists == downloaded
            &&& request.lists@.len() == 4
            &&& holds_rows(request.lists@[0], Some(lists.l1))
            &&& holds_rows(request.lists@[1], Some(lists.l2))
            &&& holds_rows(request.lists@[2], Some(lists.bogons_ipv4))
            &&& holds_rows(request.lists@[3], Some(lists.bogons_ipv6))
            &&& request.github_networks matches Some(nets) && (nets@.contains(net) <==> exists|path: Seq<int>, range: IpNet|
                #[trigger] has_network_at(document->0, path, range) && range.truncated() == net)
        },
{
    if let RestoreAction::Update(request) = action {
        law_each_list_has_its_own_place(request, config, all_present(lists), document, 0);
        law_every_text_counts(document->0, request.github_networks->0@, net);
    }
}

/// Metadata that is not there, is empty or is refused is downloaded, once. If it could not be read,
/// the restoration fails.
pub proof fn law_unusable_metadata_is_downloaded(
    config: Config,
    purpose: Purpose,
    lists: Lists<String>,
    downloaded: Lists<bool>,
    outcome: ReadOutcome,
    document: Option<Json>,
    after: Restoration,
    action: RestoreAction,
)
    requires
        restore_step(
            config,
            Restoration::CachedMetadata { purpose, lists, downloaded },
            RestoreEvent::MetadataRead { outcome, document },
            after,
            action,
        ),
    ensures
        action is DownloadMetadata <==> outcome is NotFound || (outcome matches ReadOutcome::Text(text) && (text@.len() == 0
            || document_error(document) is Some)),
        action is DownloadMetadata ==> after == (Restoration::Metadata { purpose, lists, downloaded }),
        outcome is Failed <==> action == RestoreAction::Failed(RestoreError::Feeds),
        action is Update ==> (after matches Restoration::Update { downloaded: fetched, .. } && !fetched.github_meta),
{
}

/// How a restoration ends: after the update, or instead of it, the feeds are written, and then it is
/// done unless something failed before or the writing fails. Anything that fails before the feeds
/// are at hand ends it at once.
pub proof fn law_restoration_ends(
    config: Config,
    purpose: Purpose,
    feeds: Feeds<String>,
    downloaded: Feeds<bool>,
    failure: Option<RestoreError>,
    before: Restoration,
    after: Restoration,
    action: RestoreAction,
)
    ensures
        restore_step(config, Restoration::Update { purpose, feeds, downloaded }, RestoreEvent::Updated, after, action) ==> {
            &&& after == (Restoration::Files { failure: None })
            &&& action matches RestoreAction::WriteFiles(files) && files@ == files_written(purpose, feeds, downloaded)
        },
        restore_step(config, Restoration::Files { failure }, RestoreEvent::FilesWritten, after, action) ==> after is Ended && {
            &&& failure is None ==> action == RestoreAction::Done
            &&& failure matches Some(error) ==> action == RestoreAction::Failed(error)
        },
        restore_step(config, Restoration::Files { failure }, RestoreEvent::Failed, after, action) ==> after is Ended && {
            &&& failure is None ==> action == RestoreAction::Failed(RestoreError::Files)
            &&& failure matches Some(error) ==> action == RestoreAction::Failed(error)
        },
        restore_step(config, before, RestoreEvent::Failed, after, action) && !(before is Update) && !(before is Files)
            ==> after is Ended && action == RestoreAction::Failed(RestoreError::Feeds),
{
}

/// What a restoration waits for. Any action may fail, and nothing more can happen to a restoration
/// that has ended.
pub proof fn law_restoration_waits_for_its_last_action(
    purpose: Purpose,
    cached: Lists<String>,
    missing: Lists<bool>,
    feeds: Feeds<String>,
    downloaded: Feeds<bool>,
    failure: Option<RestoreError>,
    event: RestoreEvent,
)
    ensures
        (Restoration::CachedLists { purpose }).awaits(event) <==> event is ListsRead || event is Failed,
        (Restoration::MissingLists { purpose, cached, missing }).awaits(event) ==> event is ListsDownloaded || event is Failed,
        (Restoration::MissingLists { purpose, cached, missing }).awaits(RestoreEvent::Failed),
        (Restoration::CachedMetadata { purpose, lists: cached, downloaded: missing }).awaits(event) <==> event is MetadataRead
            || event is Failed,
        (Restoration::Metadata { purpose, lists: cached, downloaded: missing }).awaits(event) <==> event is MetadataDownloaded
            || event is Failed,
        (Restoration::Update { purpose, feeds, downloaded }).awaits(event) <==> event is Updated || event is Failed,
        (Restoration::Files { failure }).awaits(event) <==> event is FilesWritten || event is Failed,
        !Restoration::Ended.awaits(event),
{
}

} // verus!
