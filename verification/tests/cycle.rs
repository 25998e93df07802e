use firehol::config::Config;
use firehol::cycle::{update_request, Cycle, CycleAction, CycleError, CycleEvent, Mode};
use firehol::feeds::{CacheError, Etags, Feed, Feeds, Lists, Probe, ReadOutcome};
use firehol::github::{GithubError, GithubField};
use firehol::ipset::parse_network;
use firehol::json::{Json, Member};
use firehol::net::IpNet;

fn net(text: &str) -> IpNet {
    parse_network(text).unwrap()
}

fn some(text: &str) -> Option<String> {
    Some(text.to_owned())
}

fn each<T: Clone>(value: T) -> Feeds<T> {
    Feeds {
        lists: Lists {
            l1: value.clone(),
            l2: value.clone(),
            bogons_ipv4: value.clone(),
            bogons_ipv6: value.clone(),
        },
        github_meta: value,
    }
}

fn etags(tag: &str) -> Etags {
    Etags { l1: some(tag), l2: some(tag), bogons_ipv4: some(tag), bogons_ipv6: some(tag), github_meta: some(tag) }
}

fn metadata() -> Json {
    let ranges = || Json::Array(vec![Json::Text("192.30.252.0/22".to_owned()), Json::Text("2a0a:a440::/29".to_owned())]);
    Json::Object(
        ["hooks", "web", "api", "git"]
            .iter()
            .map(|key| Member { key: key.to_string(), escaped: false, value: ranges() })
            .collect(),
    )
}

fn go(cycle: Cycle, event: CycleEvent) -> (Cycle, CycleAction) {
    assert!(cycle.accepts(&event));
    cycle.step(&Config::default(), event)
}

fn mode(restore_if_unchanged: bool, nftables: bool) -> Mode {
    Mode { restore_if_unchanged, reconcile: false, nftables }
}

fn scheduled() -> Mode {
    Mode { restore_if_unchanged: true, reconcile: true, nftables: true }
}

fn stored(text: &str) -> Lists<ReadOutcome> {
    Lists {
        l1: ReadOutcome::Text(text.to_owned()),
        l2: ReadOutcome::Text(text.to_owned()),
        bogons_ipv4: ReadOutcome::NotFound,
        bogons_ipv6: ReadOutcome::Failed,
    }
}

/// Goes on from the update, or from the downloads without one, to the writing of the feeds.
fn to_files(cycle: Cycle) -> (Cycle, CycleAction) {
    let (cycle, action) = go(cycle, CycleEvent::StoredRead(stored("")));
    assert!(matches!(action, CycleAction::WriteDeltas(_)));
    go(cycle, CycleEvent::DeltasWritten)
}

fn probing(mode: Mode, recorded: Option<Etags>, remote: Etags) -> Cycle {
    let (cycle, action) = go(Cycle::start(mode), CycleEvent::DirectoryReady);
    assert!(matches!(action, CycleAction::LoadEtags));
    let (cycle, action) = go(cycle, CycleEvent::EtagsLoaded(recorded));
    assert!(matches!(action, CycleAction::FetchEtags));
    let (cycle, action) = go(cycle, CycleEvent::RemoteEtags(remote));
    assert!(matches!(action, CycleAction::ProbeCache));
    cycle
}

fn unchanged(mode: Mode) -> (Cycle, CycleAction) {
    let cycle = probing(mode, Some(etags("a")), etags("a"));
    let (cycle, action) = go(cycle, CycleEvent::CacheProbed(each(Probe::File)));
    match action {
        CycleAction::Download(wanted) => {
            assert!(!wanted.lists.l1 && !wanted.lists.l2 && !wanted.lists.bogons_ipv4 && !wanted.lists.bogons_ipv6);
            assert!(!wanted.github_meta);
        },
        other => panic!("{:?}", other),
    }
    go(cycle, CycleEvent::Downloaded { texts: each(None), github: None })
}

#[test]
fn unchanged_feeds_are_restored() {
    let (cycle, action) = unchanged(mode(true, true));
    assert!(matches!(action, CycleAction::Restore));
    let (cycle, action) = go(cycle, CycleEvent::Restored);
    assert!(matches!(action, CycleAction::Done));
    assert!(!cycle.accepts(&CycleEvent::Failed));
}

#[test]
fn unchanged_feeds_may_be_left_alone() {
    assert!(matches!(unchanged(mode(false, true)).1, CycleAction::Done));
    assert!(matches!(unchanged(mode(true, false)).1, CycleAction::Done));
}

fn first_cycle(mode: Mode, github: Option<Json>) -> (Cycle, CycleAction) {
    let cycle = probing(mode, None, etags("b"));
    let (cycle, action) = go(cycle, CycleEvent::CacheProbed(each(Probe::NotFound)));
    assert!(matches!(action, CycleAction::Download(wanted) if wanted.lists.l1 && wanted.github_meta));
    let texts = Feeds {
        lists: Lists {
            l1: some("10.0.0.0\n10.0.0.1\n"),
            l2: some(""),
            bogons_ipv4: some("0.0.0.0/8"),
            bogons_ipv6: some("::/8"),
        },
        github_meta: some("{}"),
    };
    go(cycle, CycleEvent::Downloaded { texts, github })
}

#[test]
fn changed_feeds_are_applied_written_and_recorded() {
    let (cycle, action) = first_cycle(mode(true, true), Some(metadata()));
    match action {
        CycleAction::Update(request) => {
            assert_eq!(
                request.lists,
                vec![
                    Some(vec![net("10.0.0.0/31")]),
                    Some(vec![]),
                    Some(vec![net("0.0.0.0/8")]),
                    Some(vec![net("::/8")]),
                ],
            );
            assert_eq!(request.github_networks, Some(vec![net("192.30.252.0/22"), net("2a0a:a440::/29")]));
            let ipv4 = vec!["10.0.0.0/8".to_owned(), "172.16.0.0/12".to_owned(), "192.168.0.0/16".to_owned()];
            assert_eq!(request.whitelist_ipv4, Some(ipv4));
            assert_eq!(request.whitelist_ipv6, Some(vec!["fc00::/7".to_owned()]));
            assert!(!request.log_blocked);
        },
        other => panic!("{:?}", other),
    }
    let (cycle, action) = go(cycle, CycleEvent::Updated);
    assert!(matches!(action, CycleAction::ReadStored));
    let (cycle, action) = go(cycle, CycleEvent::StoredRead(stored("10.0.0.0\n10.9.0.0/16\n")));
    match action {
        CycleAction::WriteDeltas(deltas) => {
            let written: Vec<(&str, &str)> =
                deltas.iter().map(|delta| (delta.file_name(), delta.contents.as_str())).collect();
            assert_eq!(
                written,
                vec![
                    ("firehol_level1.delta", "-10.0.0.0/32\n-10.9.0.0/16\n+10.0.0.0/31\n"),
                    ("firehol_level2.delta", "-10.0.0.0/32\n-10.9.0.0/16\n"),
                    ("fullbogons-ipv4.delta", "+0.0.0.0/8\n"),
                    ("fullbogons-ipv6.delta", "+::/8\n"),
                ],
            );
        },
        other => panic!("{:?}", other),
    }
    let (cycle, action) = go(cycle, CycleEvent::DeltasWritten);
    match action {
        CycleAction::WriteFiles(files) => {
            assert_eq!(files.len(), 5);
            assert_eq!(files[0].feed, Feed::L1);
            assert_eq!(files[0].contents, "10.0.0.0\n10.0.0.1\n");
            assert_eq!(files[4].feed, Feed::GithubMeta);
        },
        other => panic!("{:?}", other),
    }
    let (cycle, action) = go(cycle, CycleEvent::FilesWritten);
    assert!(matches!(action, CycleAction::SaveEtags(saved) if saved == etags("b")));
    let (cycle, action) = go(cycle, CycleEvent::EtagsSaved);
    assert!(matches!(action, CycleAction::Done));
    assert!(!cycle.accepts(&CycleEvent::EtagsSaved));
}

#[test]
fn without_nftables_feeds_are_only_written() {
    let (cycle, action) = first_cycle(mode(true, false), Some(metadata()));
    assert!(matches!(action, CycleAction::ReadStored));
    assert!(!cycle.accepts(&CycleEvent::Updated));
    let (cycle, action) = to_files(cycle);
    assert!(matches!(action, CycleAction::WriteFiles(files) if files.len() == 5));
    let (_, action) = go(cycle, CycleEvent::FilesWritten);
    assert!(matches!(action, CycleAction::SaveEtags(_)));
}

#[test]
fn refused_metadata_ends_the_cycle() {
    let (cycle, action) = first_cycle(mode(true, true), None);
    assert!(matches!(action, CycleAction::Failed(CycleError::Github(GithubError::Malformed))));
    assert!(!cycle.accepts(&CycleEvent::Updated));
    let (_, action) = first_cycle(mode(true, true), Some(Json::Object(Vec::new())));
    assert!(matches!(
        action,
        CycleAction::Failed(CycleError::Github(GithubError::Missing(GithubField::Hooks)))
    ));
}

#[test]
fn only_what_changed_is_fetched_and_applied() {
    let mut remote = etags("a");
    remote.l2 = some("new");
    remote.bogons_ipv6 = None;
    let cycle = probing(mode(true, true), Some(etags("a")), remote);
    let (cycle, action) = go(cycle, CycleEvent::CacheProbed(each(Probe::File)));
    match action {
        CycleAction::Download(wanted) => {
            assert!(!wanted.lists.l1 && wanted.lists.l2 && !wanted.lists.bogons_ipv4 && wanted.lists.bogons_ipv6);
            assert!(!wanted.github_meta);
        },
        other => panic!("{:?}", other),
    }
    assert!(!cycle.accepts(&CycleEvent::Downloaded { texts: each(None), github: None }));
    let texts = Feeds {
        lists: Lists { l1: None, l2: some("10.0.0.1"), bogons_ipv4: None, bogons_ipv6: some("::1") },
        github_meta: None,
    };
    let (cycle, action) = go(cycle, CycleEvent::Downloaded { texts, github: None });
    match action {
        CycleAction::Update(request) => {
            assert_eq!(request.lists, vec![None, Some(vec![net("10.0.0.1")]), None, Some(vec![net("::1")])]);
            assert!(request.github_networks.is_none());
            let ipv4 = vec!["10.0.0.0/8".to_owned(), "172.16.0.0/12".to_owned(), "192.168.0.0/16".to_owned()];
            assert_eq!(request.whitelist_ipv4, Some(ipv4));
            assert_eq!(request.whitelist_ipv6, Some(vec!["fc00::/7".to_owned()]));
        },
        other => panic!("{:?}", other),
    }
    let (cycle, _) = go(cycle, CycleEvent::Updated);
    let (cycle, action) = go(cycle, CycleEvent::StoredRead(stored("10.0.0.2")));
    match action {
        CycleAction::WriteDeltas(deltas) => {
            assert_eq!(deltas.len(), 2);
            assert_eq!(deltas[0].contents, "-10.0.0.2/32\n+10.0.0.1/32\n");
            assert_eq!(deltas[1].feed, Feed::BogonsIpv6);
        },
        other => panic!("{:?}", other),
    }
    let (cycle, action) = go(cycle, CycleEvent::DeltasWritten);
    assert!(matches!(action, CycleAction::WriteFiles(files) if files.len() == 2 && files[0].feed == Feed::L2));
    let (cycle, action) = go(cycle, CycleEvent::FilesWritten);
    assert!(matches!(action, CycleAction::SaveEtags(_)));
    let (_, action) = go(cycle, CycleEvent::EtagsSaved);
    assert!(matches!(action, CycleAction::Done));
}

fn one_list_changed(mode: Mode) -> Cycle {
    let mut remote = etags("a");
    remote.l1 = some("new");
    let cycle = probing(mode, Some(etags("a")), remote);
    let (cycle, _) = go(cycle, CycleEvent::CacheProbed(each(Probe::File)));
    let mut texts = each(None);
    texts.lists.l1 = some("10.0.0.1");
    let (cycle, _) = go(cycle, CycleEvent::Downloaded { texts, github: None });
    let (cycle, _) = go(cycle, CycleEvent::Updated);
    let (cycle, action) = to_files(cycle);
    assert!(matches!(action, CycleAction::WriteFiles(files) if files.len() == 1 && files[0].feed == Feed::L1));
    cycle
}

#[test]
fn single_runs_restore_nothing_after_an_update() {
    let (cycle, action) = go(one_list_changed(mode(true, true)), CycleEvent::FilesWritten);
    assert!(matches!(action, CycleAction::SaveEtags(_)));
    let (_, action) = go(cycle, CycleEvent::EtagsSaved);
    assert!(matches!(action, CycleAction::Done));
}

#[test]
fn scheduled_cycles_reconcile_before_the_etags_are_recorded() {
    let (cycle, action) = go(one_list_changed(scheduled()), CycleEvent::FilesWritten);
    assert!(matches!(action, CycleAction::Reconcile));
    let (cycle, action) = go(cycle, CycleEvent::Restored);
    assert!(matches!(action, CycleAction::SaveEtags(_)));
    let (_, action) = go(cycle, CycleEvent::EtagsSaved);
    assert!(matches!(action, CycleAction::Done));
    let (cycle, _) = go(one_list_changed(scheduled()), CycleEvent::FilesWritten);
    let (cycle, action) = go(cycle, CycleEvent::Failed);
    assert!(matches!(action, CycleAction::Failed(CycleError::Action)));
    assert!(!cycle.accepts(&CycleEvent::EtagsSaved));
}

#[test]
fn scheduled_cycles_with_every_feed_need_no_reconciliation() {
    let (cycle, _) = first_cycle(scheduled(), Some(metadata()));
    let (cycle, _) = go(cycle, CycleEvent::Updated);
    let (cycle, _) = to_files(cycle);
    let (_, action) = go(cycle, CycleEvent::FilesWritten);
    assert!(matches!(action, CycleAction::SaveEtags(_)));
}

#[test]
fn failed_writing_records_nothing() {
    let (cycle, action) = go(one_list_changed(mode(true, true)), CycleEvent::Failed);
    assert!(matches!(action, CycleAction::Failed(CycleError::Action)));
    assert!(!cycle.accepts(&CycleEvent::FilesWritten));
}

#[test]
fn cache_that_is_no_file_ends_the_cycle() {
    let mut probes = each(Probe::File);
    probes.lists.l2 = Probe::NotFile;
    probes.github_meta = Probe::Failed;
    let (_, action) = go(probing(mode(true, true), None, etags("a")), CycleEvent::CacheProbed(probes));
    assert!(matches!(action, CycleAction::Failed(CycleError::Cache(Feed::L2, CacheError::NotFile))));
    let mut probes = each(Probe::File);
    probes.github_meta = Probe::Failed;
    let (_, action) = go(probing(mode(true, true), None, etags("a")), CycleEvent::CacheProbed(probes));
    assert!(matches!(action, CycleAction::Failed(CycleError::Cache(Feed::GithubMeta, CacheError::Failed))));
}

#[test]
fn failed_update_records_nothing() {
    let (cycle, _) = first_cycle(mode(true, true), Some(metadata()));
    let (cycle, action) = go(cycle, CycleEvent::Failed);
    assert!(matches!(action, CycleAction::Failed(CycleError::Action)));
    assert!(!cycle.accepts(&CycleEvent::FilesWritten));
}

#[test]
fn unreadable_etags_count_as_none() {
    let (cycle, _) = go(Cycle::start(mode(true, true)), CycleEvent::DirectoryReady);
    assert!(!cycle.accepts(&CycleEvent::Failed));
    let cycle = probing(mode(true, true), None, etags("a"));
    let (_, action) = go(cycle, CycleEvent::CacheProbed(each(Probe::File)));
    assert!(matches!(action, CycleAction::Download(wanted) if wanted.lists.l1 && wanted.github_meta));
}

#[test]
fn requests_follow_the_configuration() {
    let mut config = Config::default();
    config.whitelist = vec![];
    config.log_blocked = true;
    let lists = Lists { l1: None, l2: None, bogons_ipv4: None, bogons_ipv6: None };
    let request = update_request(&config, &lists, Some(vec![net("10.0.0.0/8")]));
    assert!(request.log_blocked);
    assert_eq!(request.whitelist_ipv4, Some(vec![]));
    assert_eq!(request.whitelist_ipv6, Some(vec![]));
    assert_eq!(request.github_networks, Some(vec![net("10.0.0.0/8")]));
}
