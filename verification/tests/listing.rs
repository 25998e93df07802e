use firehol::ipset::parse_network;
use firehol::json::{field, find_member, Json, Member, Occurrence};
use firehol::listing::{
    listed_element, parse_prefix, read_set_elements, table_contents, table_listing_entry, ListedElement,
    SetListingError, TableListingEntry,
};
use firehol::net::IpNet;

fn net(text: &str) -> IpNet {
    parse_network(text).unwrap()
}

fn text(text: &str) -> Json {
    Json::Text(text.to_owned())
}

fn object(members: Vec<(&str, Json)>) -> Json {
    Json::Object(
        members.into_iter().map(|(key, value)| Member { key: key.to_owned(), escaped: false, value }).collect(),
    )
}

fn named(name: &str) -> Json {
    object(vec![("family", text("inet")), ("name", text(name)), ("handle", Json::Unsigned(3))])
}

fn report(entries: Vec<Json>) -> Json {
    object(vec![("nftables", Json::Array(entries))])
}

fn prefix(addr: &str, len: u64) -> Json {
    object(vec![("prefix", object(vec![("addr", text(addr)), ("len", Json::Unsigned(len))]))])
}

fn set_report(elements: Vec<Json>) -> Json {
    report(vec![
        object(vec![("metainfo", object(vec![("version", text("1.0.9"))]))]),
        object(vec![("set", object(vec![("name", text("FireholL1")), ("elem", Json::Array(elements))]))]),
    ])
}

#[test]
fn tables_list_sets_and_chains() {
    let listing = report(vec![
        object(vec![("metainfo", Json::Null)]),
        object(vec![("set", named("FireholL1"))]),
        object(vec![("chain", named("firehol_prerouting"))]),
        object(vec![("set", named("FireholL2"))]),
        object(vec![]),
    ]);
    let contents = table_contents(&listing).unwrap();
    assert_eq!(contents.sets, vec!["FireholL1", "FireholL2"]);
    assert_eq!(contents.chains, vec!["firehol_prerouting"]);
}

#[test]
fn last_member_of_an_entry_counts() {
    let entry = object(vec![("set", named("a")), ("chain", named("b"))]);
    assert!(matches!(table_listing_entry(&entry), Some(TableListingEntry::Chain(name)) if name == "b"));
    let entry = object(vec![("set", named("a")), ("rule", Json::Null)]);
    assert!(matches!(table_listing_entry(&entry), Some(TableListingEntry::Other)));
}

#[test]
fn malformed_table_listings_are_refused() {
    assert!(table_contents(&Json::Null).is_none());
    assert!(table_contents(&object(vec![])).is_none());
    assert!(table_contents(&report(vec![text("set")])).is_none());
    assert!(table_contents(&report(vec![object(vec![("set", object(vec![]))])])).is_none());
    assert!(table_contents(&report(vec![object(vec![("chain", object(vec![("name", Json::Null)]))])])).is_none());
    let twice = object(vec![("nftables", Json::Array(vec![])), ("nftables", Json::Array(vec![]))]);
    assert!(table_contents(&twice).is_none());
}

#[test]
fn records_may_be_arrays() {
    let listing = Json::Array(vec![Json::Array(vec![object(vec![("set", Json::Array(vec![text("FireholL1")]))])])]);
    assert_eq!(table_contents(&listing).unwrap().sets, vec!["FireholL1"]);
}

#[test]
fn sets_list_prefixes_and_addresses() {
    let listing = set_report(vec![
        prefix("198.51.100.7", 24),
        text("192.0.2.1"),
        text("2001:db8::/32"),
        object(vec![("range", Json::Array(vec![text("10.0.0.1"), text("10.0.0.9")]))]),
        Json::Unsigned(5),
        Json::Number,
        Json::Bool(true),
        Json::Null,
        Json::Array(vec![]),
        text("192.0.2.1"),
    ]);
    assert_eq!(
        read_set_elements(&listing).unwrap(),
        vec![net("192.0.2.1"), net("198.51.100.0/24"), net("2001:db8::/32")],
    );
}

#[test]
fn sets_may_be_empty() {
    let bare = report(vec![object(vec![("set", object(vec![("name", text("x"))]))])]);
    assert_eq!(read_set_elements(&bare).unwrap(), Vec::new());
    let null = report(vec![object(vec![("set", object(vec![("elem", Json::Null)]))])]);
    assert_eq!(read_set_elements(&null).unwrap(), Vec::new());
    assert_eq!(read_set_elements(&report(vec![text("rule")])).unwrap(), Vec::new());
}

#[test]
fn malformed_set_listings_are_refused() {
    let malformed = vec![
        Json::Null,
        object(vec![]),
        report(vec![text("set")]),
        report(vec![text("metainfo")]),
        report(vec![object(vec![])]),
        report(vec![object(vec![("rule", object(vec![]))])]),
        report(vec![object(vec![("set", Json::Null)])]),
        report(vec![object(vec![("set", object(vec![("elem", Json::Unsigned(1))]))])]),
        set_report(vec![object(vec![("prefix", Json::Null)])]),
        set_report(vec![prefix("10.0.0.0", 256)]),
        set_report(vec![object(vec![("prefix", object(vec![("addr", text("10.0.0.0"))]))])]),
    ];
    for listing in malformed {
        assert!(matches!(read_set_elements(&listing), Err(SetListingError::Malformed)));
    }
}

#[test]
fn first_invalid_element_is_named() {
    let listing = set_report(vec![text("10.0.0.1"), text("label"), prefix("10.0.0.0", 33)]);
    assert!(matches!(
        read_set_elements(&listing),
        Err(SetListingError::InvalidNetwork(ListedElement::Address(text))) if text == "label"
    ));
    let listing = set_report(vec![prefix("10.0.0.0", 33), text("label")]);
    assert!(matches!(
        read_set_elements(&listing),
        Err(SetListingError::InvalidNetwork(ListedElement::Prefix { addr, len: 33 })) if addr == "10.0.0.0"
    ));
}

#[test]
fn last_prefix_of_an_element_counts() {
    let element = object(vec![
        ("prefix", object(vec![("addr", text("10.0.0.0")), ("len", Json::Unsigned(8))])),
        ("comment", text("x")),
        ("prefix", object(vec![("len", Json::Unsigned(16)), ("addr", text("10.1.0.0"))])),
    ]);
    assert!(matches!(
        listed_element(&element),
        Some(ListedElement::Prefix { addr, len: 16 }) if addr == "10.1.0.0"
    ));
    let pair = object(vec![("prefix", Json::Array(vec![text("10.0.0.0"), Json::Unsigned(8)]))]);
    assert!(matches!(listed_element(&pair), Some(ListedElement::Prefix { len: 8, .. })));
}

#[test]
fn prefixes_need_an_address_and_a_fitting_length() {
    assert_eq!(parse_prefix("192.0.2.1", 24), Some(net("192.0.2.1/24")));
    assert_eq!(parse_prefix("192.0.2.1", 33), None);
    assert_eq!(parse_prefix("2001:db8::1", 128), Some(net("2001:db8::1")));
    assert_eq!(parse_prefix("2001:db8::1", 129), None);
    assert_eq!(parse_prefix("192.0.2.0/24", 24), None);
}

#[test]
fn members_are_found_by_their_key() {
    let record = object(vec![("a", Json::Null), ("b", Json::Bool(true)), ("b", Json::Bool(false))]);
    let members = match &record {
        Json::Object(members) => members,
        _ => unreachable!(),
    };
    assert!(matches!(find_member(members, "a"), Occurrence::Once(Json::Null)));
    assert!(matches!(find_member(members, "b"), Occurrence::Repeated));
    assert!(matches!(find_member(members, "c"), Occurrence::Absent));
    assert!(field(&record, "a").is_some());
    assert!(field(&record, "b").is_none());
    assert!(field(&Json::Bool(true), "a").is_none());
}
