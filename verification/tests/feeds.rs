use firehol::config::Config;
use firehol::feeds::{
    cache_file_exists, download_if_changed, list_networks, load_whitelist, persist_changed_downloads,
    persist_downloads, read_cached_or_missing, read_or_empty, CacheError, Etags, Feed, Feeds, Lists, Probe,
    ReadOutcome,
};
use firehol::ipset::parse_network;
use firehol::net::IpNet;

fn net(text: &str) -> IpNet {
    parse_network(text).unwrap()
}

fn owned(texts: &[&str]) -> Vec<String> {
    texts.iter().map(|text| text.to_string()).collect()
}

fn some(text: &str) -> Option<String> {
    Some(text.to_owned())
}

#[test]
fn feeds_have_their_files_and_sources() {
    let config = Config::default();
    let feeds = [Feed::L1, Feed::L2, Feed::BogonsIpv4, Feed::BogonsIpv6, Feed::GithubMeta];
    let files: Vec<&str> = feeds.iter().map(|feed| feed.file_name()).collect();
    assert_eq!(
        files,
        vec![
            "firehol_level1.netset",
            "firehol_level2.netset",
            "fullbogons-ipv4.txt",
            "fullbogons-ipv6.txt",
            "github-meta.json",
        ],
    );
    let urls: Vec<&str> = feeds.iter().map(|feed| feed.url(&config)).collect();
    assert_eq!(
        urls,
        vec![
            config.l1_url.as_str(),
            config.l2_url.as_str(),
            config.bogons_ipv4_url.as_str(),
            config.bogons_ipv6_url.as_str(),
            "https://api.github.com/meta",
        ],
    );
    let titles: Vec<&str> = feeds.iter().map(|feed| feed.title()).collect();
    assert_eq!(
        titles,
        vec![
            "FireHOL Level 1",
            "FireHOL Level 2",
            "Team Cymru IPv4 bogons",
            "Team Cymru IPv6 bogons",
            "GitHub IP metadata",
        ],
    );
}

#[test]
fn feeds_are_downloaded_unless_cached_and_unchanged() {
    assert!(!download_if_changed(true, &some("a"), &some("a")));
    assert!(download_if_changed(false, &some("a"), &some("a")));
    assert!(download_if_changed(true, &some("b"), &some("a")));
    assert!(download_if_changed(true, &some("a"), &None));
    assert!(download_if_changed(true, &None, &some("a")));
    assert!(download_if_changed(true, &None, &None));
}

#[test]
fn etags_start_out_unknown() {
    assert_eq!(
        Etags::default(),
        Etags { l1: None, l2: None, bogons_ipv4: None, bogons_ipv6: None, github_meta: None },
    );
}

#[test]
fn cache_must_be_a_file_or_nothing() {
    assert_eq!(cache_file_exists(Probe::File), Ok(true));
    assert_eq!(cache_file_exists(Probe::NotFound), Ok(false));
    assert_eq!(cache_file_exists(Probe::NotFile), Err(CacheError::NotFile));
    assert_eq!(cache_file_exists(Probe::Failed), Err(CacheError::Failed));
}

#[test]
fn missing_files_are_empty() {
    assert_eq!(read_cached_or_missing(ReadOutcome::Text("x".to_owned())), Some(("x".to_owned(), false)));
    assert_eq!(read_cached_or_missing(ReadOutcome::NotFound), Some((String::new(), true)));
    assert_eq!(read_cached_or_missing(ReadOutcome::Failed), None);
    assert_eq!(read_or_empty(ReadOutcome::Text("x".to_owned())), some("x"));
    assert_eq!(read_or_empty(ReadOutcome::NotFound), some(""));
    assert_eq!(read_or_empty(ReadOutcome::Failed), None);
}

#[test]
fn only_changed_feeds_are_written() {
    let files = persist_changed_downloads(Feeds {
        lists: Lists { l1: None, l2: some("two"), bogons_ipv4: None, bogons_ipv6: some("six") },
        github_meta: some("{}"),
    });
    let written: Vec<(Feed, &str)> = files.iter().map(|file| (file.feed, file.contents.as_str())).collect();
    assert_eq!(written, vec![(Feed::L2, "two"), (Feed::BogonsIpv6, "six"), (Feed::GithubMeta, "{}")]);
}

#[test]
fn all_feeds_are_written() {
    let files = persist_downloads(Feeds {
        lists: Lists {
            l1: "1".to_owned(),
            l2: "2".to_owned(),
            bogons_ipv4: "4".to_owned(),
            bogons_ipv6: "6".to_owned(),
        },
        github_meta: "{}".to_owned(),
    });
    let written: Vec<(Feed, &str)> = files.iter().map(|file| (file.feed, file.contents.as_str())).collect();
    assert_eq!(
        written,
        vec![
            (Feed::L1, "1"),
            (Feed::L2, "2"),
            (Feed::BogonsIpv4, "4"),
            (Feed::BogonsIpv6, "6"),
            (Feed::GithubMeta, "{}"),
        ],
    );
}

#[test]
fn lists_are_merged() {
    assert_eq!(
        list_networks("# FireHOL\n192.0.2.129/25\n192.0.2.0/25\n\n10.0.0.1\n"),
        vec![net("10.0.0.1"), net("192.0.2.0/24")],
    );
    assert_eq!(list_networks("# nothing\n"), Vec::new());
}

#[test]
fn whitelist_is_merged_and_split_by_family() {
    let (ipv4, ipv6) = load_whitelist(&owned(&["192.168.0.0/17", "fc00::/7", "9.0.0.0/8", "192.168.128.0/17"]));
    assert_eq!(ipv4, owned(&["192.168.0.0/16", "9.0.0.0/8"]));
    assert_eq!(ipv6, owned(&["fc00::/7"]));
}

#[test]
fn whitelist_is_written_in_the_order_of_texts() {
    let (ipv4, _) = load_whitelist(&owned(&["9.0.0.0/8", "10.0.0.0/8", "100.0.0.0/8"]));
    assert_eq!(ipv4, owned(&["10.0.0.0/8", "100.0.0.0/8", "9.0.0.0/8"]));
}

#[test]
fn empty_whitelist_leaves_the_sets_empty() {
    assert_eq!(load_whitelist(&Vec::new()), (Vec::new(), Vec::new()));
}

#[test]
fn default_whitelist_is_kept() {
    let (ipv4, ipv6) = load_whitelist(&Config::default().whitelist);
    assert_eq!(ipv4, owned(&["10.0.0.0/8", "172.16.0.0/12", "192.168.0.0/16"]));
    assert_eq!(ipv6, owned(&["fc00::/7"]));
}
