use firehol::config::Config;
use firehol::feeds::{Feed, Lists, ReadOutcome};
use firehol::github::GithubError;
use firehol::ipset::parse_network;
use firehol::json::{Json, Member};
use firehol::net::IpNet;
use firehol::restore::{
    github_metadata, reconcile_cached, restore_cached, Restoration, RestoreAction, RestoreError, RestoreEvent,
};

fn net(text: &str) -> IpNet {
    parse_network(text).unwrap()
}

fn cached(text: &str) -> ReadOutcome {
    ReadOutcome::Text(text.to_owned())
}

fn metadata() -> Json {
    let ranges = || Json::Array(vec![Json::Text("192.30.252.0/22".to_owned()), Json::Text("2a0a:a440::/29".to_owned())]);
    Json::Object(
        ["hooks", "web", "api", "git"]
            .iter()
            .map(|key| Member { key: key.to_string(), escaped: false, value: ranges() })
            .collect(),
    )
}

fn go(restoration: Restoration, event: RestoreEvent) -> (Restoration, RestoreAction) {
    assert!(restoration.accepts(&event));
    restoration.step(&Config::default(), event)
}

fn none() -> Lists<Option<String>> {
    Lists { l1: None, l2: None, bogons_ipv4: None, bogons_ipv6: None }
}

fn lists_at_hand() -> Restoration {
    let lists = Lists {
        l1: cached("10.0.0.1"),
        l2: cached("10.0.0.2"),
        bogons_ipv4: cached("0.0.0.0/8"),
        bogons_ipv6: cached("::/8"),
    };
    let (restoration, action) = go(restore_cached(), RestoreEvent::ListsRead(lists));
    match action {
        RestoreAction::DownloadLists(missing) => {
            assert!(!missing.l1 && !missing.l2 && !missing.bogons_ipv4 && !missing.bogons_ipv6);
        },
        other => panic!("{:?}", other),
    }
    let (restoration, action) = go(restoration, RestoreEvent::ListsDownloaded(none()));
    assert!(matches!(action, RestoreAction::ReadMetadata));
    restoration
}

fn updating() -> Restoration {
    let event = RestoreEvent::MetadataRead { outcome: cached("{}"), document: Some(metadata()) };
    let (restoration, action) = go(lists_at_hand(), event);
    match action {
        RestoreAction::Update(request) => {
            assert_eq!(
                request.lists,
                vec![
                    Some(vec![net("10.0.0.1")]),
                    Some(vec![net("10.0.0.2")]),
                    Some(vec![net("0.0.0.0/8")]),
                    Some(vec![net("::/8")]),
                ],
            );
            assert_eq!(request.github_networks, Some(vec![net("192.30.252.0/22"), net("2a0a:a440::/29")]));
            assert_eq!(request.whitelist_ipv6, Some(vec!["fc00::/7".to_owned()]));
        },
        other => panic!("{:?}", other),
    }
    restoration
}

fn written(action: &RestoreAction) -> Vec<(Feed, &str)> {
    match action {
        RestoreAction::WriteFiles(files) => {
            files.iter().map(|file| (file.feed, file.contents.as_str())).collect()
        },
        other => panic!("{:?}", other),
    }
}

#[test]
fn cached_feeds_are_restored_and_written_back() {
    let (restoration, action) = go(updating(), RestoreEvent::Updated);
    assert_eq!(
        written(&action),
        vec![
            (Feed::L1, "10.0.0.1"),
            (Feed::L2, "10.0.0.2"),
            (Feed::BogonsIpv4, "0.0.0.0/8"),
            (Feed::BogonsIpv6, "::/8"),
            (Feed::GithubMeta, "{}"),
        ],
    );
    let (restoration, action) = go(restoration, RestoreEvent::FilesWritten);
    assert!(matches!(action, RestoreAction::Done));
    assert!(!restoration.accepts(&RestoreEvent::Failed));
}

#[test]
fn reconciliation_writes_only_what_it_downloaded() {
    let lists = Lists {
        l1: cached("10.0.0.1"),
        l2: ReadOutcome::NotFound,
        bogons_ipv4: cached(""),
        bogons_ipv6: cached(""),
    };
    let (restoration, _) = go(reconcile_cached(), RestoreEvent::ListsRead(lists));
    let texts = Lists { l1: None, l2: Some("10.0.0.2".to_owned()), bogons_ipv4: None, bogons_ipv6: None };
    let (restoration, _) = go(restoration, RestoreEvent::ListsDownloaded(texts));
    let event = RestoreEvent::MetadataRead { outcome: cached("{}"), document: Some(metadata()) };
    let (restoration, action) = go(restoration, event);
    assert!(matches!(action, RestoreAction::Update(request) if request.lists.iter().all(|list| list.is_some())));
    let (_, action) = go(restoration, RestoreEvent::Updated);
    assert_eq!(written(&action), vec![(Feed::L2, "10.0.0.2")]);
}

#[test]
fn reconciliation_with_everything_stored_writes_nothing() {
    let lists = Lists { l1: cached(""), l2: cached(""), bogons_ipv4: cached(""), bogons_ipv6: cached("") };
    let (restoration, _) = go(reconcile_cached(), RestoreEvent::ListsRead(lists));
    let (restoration, _) = go(restoration, RestoreEvent::ListsDownloaded(none()));
    let event = RestoreEvent::MetadataRead { outcome: cached("{}"), document: Some(metadata()) };
    let (restoration, _) = go(restoration, event);
    let (restoration, action) = go(restoration, RestoreEvent::Updated);
    assert!(written(&action).is_empty());
    let (_, action) = go(restoration, RestoreEvent::FilesWritten);
    assert!(matches!(action, RestoreAction::Done));
}

#[test]
fn missing_lists_are_downloaded() {
    let lists = Lists {
        l1: cached("10.0.0.1"),
        l2: ReadOutcome::NotFound,
        bogons_ipv4: cached(""),
        bogons_ipv6: ReadOutcome::NotFound,
    };
    let (restoration, action) = go(restore_cached(), RestoreEvent::ListsRead(lists));
    match action {
        RestoreAction::DownloadLists(missing) => {
            assert!(!missing.l1 && missing.l2 && !missing.bogons_ipv4 && missing.bogons_ipv6);
        },
        other => panic!("{:?}", other),
    }
    assert!(!restoration.accepts(&RestoreEvent::ListsDownloaded(none())));
    let downloaded =
        Lists { l1: None, l2: Some("10.0.0.2".to_owned()), bogons_ipv4: None, bogons_ipv6: Some("::1".to_owned()) };
    let (restoration, _) = go(restoration, RestoreEvent::ListsDownloaded(downloaded));
    let event = RestoreEvent::MetadataRead { outcome: cached("{}"), document: Some(metadata()) };
    let (restoration, _) = go(restoration, event);
    let (_, action) = go(restoration, RestoreEvent::Updated);
    assert_eq!(
        written(&action),
        vec![
            (Feed::L1, "10.0.0.1"),
            (Feed::L2, "10.0.0.2"),
            (Feed::BogonsIpv4, ""),
            (Feed::BogonsIpv6, "::1"),
            (Feed::GithubMeta, "{}"),
        ],
    );
}

#[test]
fn unreadable_lists_end_the_restoration() {
    let lists = Lists {
        l1: cached(""),
        l2: cached(""),
        bogons_ipv4: ReadOutcome::Failed,
        bogons_ipv6: ReadOutcome::NotFound,
    };
    let (_, action) = go(restore_cached(), RestoreEvent::ListsRead(lists));
    assert!(matches!(action, RestoreAction::Failed(RestoreError::Feeds)));
    let event = RestoreEvent::MetadataRead { outcome: ReadOutcome::Failed, document: None };
    let (_, action) = go(lists_at_hand(), event);
    assert!(matches!(action, RestoreAction::Failed(RestoreError::Feeds)));
}

#[test]
fn metadata_is_downloaded_unless_it_is_usable() {
    let outcomes = vec![
        (ReadOutcome::NotFound, None),
        (cached(""), Some(metadata())),
        (cached("x"), None),
        (cached("{}"), Some(Json::Object(Vec::new()))),
    ];
    for (outcome, document) in outcomes {
        let (restoration, action) = go(lists_at_hand(), RestoreEvent::MetadataRead { outcome, document });
        assert!(matches!(action, RestoreAction::DownloadMetadata));
        let event = RestoreEvent::MetadataDownloaded { text: "{new}".to_owned(), document: Some(metadata()) };
        let (restoration, action) = go(restoration, event);
        assert!(matches!(action, RestoreAction::Update(_)));
        let (_, action) = go(restoration, RestoreEvent::Updated);
        assert_eq!(written(&action)[4], (Feed::GithubMeta, "{new}"));
    }
}

#[test]
fn refused_metadata_is_written_and_reported() {
    let event = RestoreEvent::MetadataRead { outcome: ReadOutcome::NotFound, document: None };
    let (restoration, _) = go(lists_at_hand(), event);
    let event = RestoreEvent::MetadataDownloaded { text: "bad".to_owned(), document: None };
    let (restoration, action) = go(restoration, event);
    assert_eq!(written(&action)[4], (Feed::GithubMeta, "bad"));
    let (_, action) = go(restoration, RestoreEvent::FilesWritten);
    assert!(matches!(action, RestoreAction::Failed(RestoreError::Github(GithubError::Malformed))));
}

#[test]
fn feeds_are_written_even_if_the_update_fails() {
    let (restoration, action) = go(updating(), RestoreEvent::Failed);
    assert_eq!(written(&action).len(), 5);
    let (_, action) = go(restoration, RestoreEvent::FilesWritten);
    assert!(matches!(action, RestoreAction::Failed(RestoreError::Update)));
    let (restoration, _) = go(updating(), RestoreEvent::Failed);
    let (_, action) = go(restoration, RestoreEvent::Failed);
    assert!(matches!(action, RestoreAction::Failed(RestoreError::Update)));
}

#[test]
fn failed_writing_is_reported() {
    let (restoration, _) = go(updating(), RestoreEvent::Updated);
    let (_, action) = go(restoration, RestoreEvent::Failed);
    assert!(matches!(action, RestoreAction::Failed(RestoreError::Files)));
}

#[test]
fn failed_downloads_end_the_restoration() {
    let lists = Lists {
        l1: ReadOutcome::NotFound,
        l2: cached(""),
        bogons_ipv4: cached(""),
        bogons_ipv6: cached(""),
    };
    let (restoration, _) = go(restore_cached(), RestoreEvent::ListsRead(lists));
    let (restoration, action) = go(restoration, RestoreEvent::Failed);
    assert!(matches!(action, RestoreAction::Failed(RestoreError::Feeds)));
    assert!(!restoration.accepts(&RestoreEvent::Failed));
}

#[test]
fn cached_metadata_is_used_only_if_allowed() {
    assert!(github_metadata("{}", &Some(metadata()), true));
    assert!(!github_metadata("{}", &Some(metadata()), false));
    assert!(!github_metadata("", &Some(metadata()), true));
    assert!(!github_metadata("x", &None, true));
    assert!(!github_metadata("{}", &Some(Json::Object(Vec::new())), true));
}
