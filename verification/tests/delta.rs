use firehol::delta::{list_delta, persist_deltas};
use firehol::feeds::{Feed, Lists, ReadOutcome};
use firehol::ipset::parse_network;
use firehol::net::IpNet;

fn net(text: &str) -> IpNet {
    parse_network(text).unwrap()
}

#[test]
fn deltas_tell_what_was_lost_and_gained() {
    let delta = list_delta("10.0.0.0\n192.0.2.0/24\n2001:db8::/32", "# new\n192.0.2.0/25\n192.0.2.128/25\n10.0.0.1");
    assert_eq!(delta.removed, vec![net("10.0.0.0"), net("2001:db8::/32")]);
    assert_eq!(delta.added, vec![net("10.0.0.1")]);
}

#[test]
fn same_networks_have_no_delta() {
    let delta = list_delta("10.0.0.0/31", "10.0.0.1\n10.0.0.0\n");
    assert!(delta.removed.is_empty());
    assert!(delta.added.is_empty());
}

#[test]
fn first_fetch_gains_everything() {
    let stored = Lists {
        l1: ReadOutcome::NotFound,
        l2: ReadOutcome::Failed,
        bogons_ipv4: ReadOutcome::Text("0.0.0.0/8".to_owned()),
        bogons_ipv6: ReadOutcome::NotFound,
    };
    let fetched = Lists {
        l1: Some("10.0.0.0/8".to_owned()),
        l2: None,
        bogons_ipv4: Some("0.0.0.0/8".to_owned()),
        bogons_ipv6: None,
    };
    let files = persist_deltas(&stored, &fetched);
    assert_eq!(files.len(), 2);
    assert_eq!(files[0].feed, Feed::L1);
    assert_eq!(files[0].file_name(), "firehol_level1.delta");
    assert_eq!(files[0].contents, "+10.0.0.0/8\n");
    assert_eq!(files[1].file_name(), "fullbogons-ipv4.delta");
    assert_eq!(files[1].contents, "");
}
