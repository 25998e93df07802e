use firehol::ipset::parse_network;
use firehol::json::{Json, Member};
use firehol::listing::{read_set_elements, ListedElement, TableContents};
use firehol::net::IpNet;
use firehol::netset::normalize;
use firehol::objects::{
    append_prerouting_rules, chain_command, named_element_command, set_command, table_command, NfListObject,
    NfObject, SetType,
};
use firehol::update::{
    ensure_table_and_sets, list_change, missing_objects, needed_set, replace_lists, run_document, NftAction, NftEvent,
    ListChange, Replacement, Request, RunError, TablePlan, UpdateError,
};
use firehol::whitelist::append_whitelist;

fn net(text: &str) -> IpNet {
    parse_network(text).unwrap()
}

fn text(text: &str) -> Json {
    Json::Text(text.to_owned())
}

fn object(members: Vec<(&str, Json)>) -> Json {
    Json::Object(
        members.into_iter().map(|(key, value)| Member { key: key.to_owned(), escaped: false, value }).collect(),
    )
}

fn report(entries: Vec<Json>) -> Json {
    object(vec![("nftables", Json::Array(entries))])
}

fn listed(kind: &str, name: &str) -> Json {
    object(vec![(kind, object(vec![("name", text(name))]))])
}

fn complete_table() -> Json {
    let mut entries: Vec<Json> = (0..8).map(|i| listed("set", needed_set(i).0)).collect();
    entries.push(listed("chain", "firehol_prerouting"));
    report(entries)
}

fn set_report(elements: &[&str]) -> Json {
    let elem = elements.iter().map(|element| text(element)).collect();
    report(vec![object(vec![("set", object(vec![("elem", Json::Array(elem))]))])])
}

fn all_missing() -> Vec<NfObject> {
    let mut commands = vec![
        set_command("FireholL1", SetType::Ipv4Addr),
        set_command("FireholL2", SetType::Ipv4Addr),
        set_command("FullBogonsIpv4", SetType::Ipv4Addr),
        set_command("FullBogonsIpv6", SetType::Ipv6Addr),
        set_command("firehol_whitelist_ipv4", SetType::Ipv4Addr),
        set_command("firehol_whitelist_ipv6", SetType::Ipv6Addr),
        set_command("GithubWhitelistIPv4", SetType::Ipv4Addr),
        set_command("GithubWhitelistIPv6", SetType::Ipv6Addr),
    ];
    commands.push(chain_command());
    commands
}

fn request(lists: Vec<Option<Vec<IpNet>>>) -> Request {
    Request { lists, whitelist_ipv4: None, whitelist_ipv6: None, github_networks: None, log_blocked: false }
}

fn go(update: Replacement, event: NftEvent) -> (Replacement, NftAction) {
    assert!(update.accepts(&event));
    update.step(event)
}

fn commands(action: NftAction) -> Vec<NfObject> {
    match action {
        NftAction::Run(commands) => commands,
        other => panic!("{:?}", other),
    }
}

#[test]
fn new_tables_get_everything() {
    match ensure_table_and_sets(false, &None) {
        TablePlan::CreateTable { table, missing } => {
            assert_eq!(table, vec![table_command()]);
            assert_eq!(missing, all_missing());
        },
        other => panic!("{:?}", other),
    }
}

#[test]
fn known_tables_get_what_they_lack() {
    let contents = TableContents { sets: vec!["FireholL1".to_owned(), "other".to_owned()], chains: vec![] };
    assert_eq!(missing_objects(&contents), all_missing().split_off(1));
    match ensure_table_and_sets(true, &Some(complete_table())) {
        TablePlan::Complete { missing } => assert!(missing.is_empty()),
        other => panic!("{:?}", other),
    }
    let chain = report(vec![listed("chain", "firehol_prerouting")]);
    match ensure_table_and_sets(true, &Some(chain)) {
        TablePlan::Complete { missing } => assert_eq!(missing, all_missing()[..8].to_vec()),
        other => panic!("{:?}", other),
    }
}

#[test]
fn malformed_table_reports_are_refused() {
    assert!(matches!(ensure_table_and_sets(true, &None), TablePlan::Malformed));
    assert!(matches!(ensure_table_and_sets(true, &Some(Json::Null)), TablePlan::Malformed));
}

#[test]
fn one_list_per_downloaded_set_is_needed() {
    assert!(matches!(replace_lists(request(vec![None, None, None])), Err(UpdateError::WrongListCount)));
    assert!(replace_lists(request(vec![None, None, None, None])).is_ok());
}

#[test]
fn table_is_created_before_the_sets() {
    let update = replace_lists(request(vec![None, None, None, None])).unwrap();
    let (update, action) = go(update, NftEvent::TableListed { listed: false, report: None });
    assert_eq!(commands(action), vec![table_command()]);
    let (update, action) = go(update, NftEvent::Ran);
    assert_eq!(commands(action), all_missing());
    let (update, action) = go(update, NftEvent::Ran);
    let mut rules = Vec::new();
    append_prerouting_rules(&mut rules, false);
    assert_eq!(commands(action), rules);
    let (update, action) = go(update, NftEvent::Ran);
    assert!(matches!(action, NftAction::Done));
    assert!(!update.accepts(&NftEvent::Ran));
}

#[test]
fn sets_are_changed_by_their_difference() {
    let wanted = request(vec![
        None,
        Some(vec![net("10.0.0.0/8"), net("192.0.2.9/24")]),
        None,
        Some(vec![net("2001:db8::/32")]),
    ]);
    let update = replace_lists(wanted).unwrap();
    let (update, action) = go(update, NftEvent::TableListed { listed: true, report: Some(complete_table()) });
    assert!(matches!(action, NftAction::ListSet(1)));
    let held = set_report(&["10.0.0.0/8", "198.51.100.1"]);
    let (update, action) = go(update, NftEvent::SetListed { listed: true, report: Some(held) });
    assert!(matches!(action, NftAction::ListSet(3)));
    let held = set_report(&["2001:db8::/32"]);
    let (_, action) = go(update, NftEvent::SetListed { listed: true, report: Some(held) });
    let mut expected = vec![
        named_element_command("FireholL2", &vec![net("198.51.100.1")], false).unwrap(),
        named_element_command("FireholL2", &vec![net("192.0.2.0/24")], true).unwrap(),
    ];
    append_prerouting_rules(&mut expected, false);
    assert_eq!(commands(action), expected);
}

#[test]
fn whitelists_come_before_the_lists() {
    let ipv4 = Some(vec!["10.0.0.0/8".to_owned()]);
    let ipv6 = Some(vec!["fc00::/7".to_owned()]);
    let github = Some(vec![net("192.30.252.0/22"), net("2a0a:a440::/29")]);
    let update = replace_lists(Request {
        lists: vec![Some(vec![net("10.0.0.0/8")]), None, None, None],
        whitelist_ipv4: ipv4.clone(),
        whitelist_ipv6: ipv6.clone(),
        github_networks: github.clone(),
        log_blocked: true,
    })
    .unwrap();
    let (update, action) = go(update, NftEvent::TableListed { listed: true, report: Some(complete_table()) });
    assert!(matches!(action, NftAction::ListSet(0)));
    let (_, action) = go(update, NftEvent::SetListed { listed: true, report: Some(set_report(&[])) });
    let mut expected = Vec::new();
    append_whitelist(&mut expected, &ipv4, &ipv6, &github).unwrap();
    expected.push(named_element_command("FireholL1", &vec![net("10.0.0.0/8")], true).unwrap());
    append_prerouting_rules(&mut expected, true);
    assert_eq!(commands(action), expected);
}

#[test]
fn updates_fail_on_an_invalid_whitelist() {
    let mut bad = request(vec![None, None, None, None]);
    bad.whitelist_ipv6 = Some(vec!["label".to_owned()]);
    let update = replace_lists(bad).unwrap();
    let (_, action) = go(update, NftEvent::TableListed { listed: true, report: Some(complete_table()) });
    assert!(matches!(action, NftAction::Failed(UpdateError::InvalidWhitelist(value)) if value == "label"));
}

#[test]
fn updates_fail_on_a_malformed_table() {
    let update = replace_lists(request(vec![None, None, None, None])).unwrap();
    let (_, action) = go(update, NftEvent::TableListed { listed: true, report: None });
    assert!(matches!(action, NftAction::Failed(UpdateError::TableMalformed)));
}

fn reading() -> Replacement {
    let update = replace_lists(request(vec![None, None, Some(vec![]), None])).unwrap();
    let (update, action) = go(update, NftEvent::TableListed { listed: true, report: Some(complete_table()) });
    assert!(matches!(action, NftAction::ListSet(2)));
    update
}

#[test]
fn updates_fail_on_a_set_that_cannot_be_read() {
    let (_, action) = go(reading(), NftEvent::SetListed { listed: false, report: None });
    assert!(matches!(action, NftAction::Failed(UpdateError::SetUnlisted(2))));
    let (_, action) = go(reading(), NftEvent::SetListed { listed: true, report: None });
    assert!(matches!(action, NftAction::Failed(UpdateError::SetMalformed(2))));
    let (_, action) = go(reading(), NftEvent::SetListed { listed: true, report: Some(Json::Null) });
    assert!(matches!(action, NftAction::Failed(UpdateError::SetMalformed(2))));
    let (_, action) = go(reading(), NftEvent::SetListed { listed: true, report: Some(set_report(&["x", "y"])) });
    assert!(matches!(
        action,
        NftAction::Failed(UpdateError::SetInvalid(2, ListedElement::Address(value))) if value == "x"
    ));
}

#[test]
fn sizes_of_sets_add_up() {
    let current = vec![net("10.0.0.0/8"), net("192.0.2.0/24"), net("198.51.100.1")];
    let wanted = vec![net("192.0.2.7/24"), net("203.0.113.0/24")];
    assert_eq!(
        list_change(&current, &wanted),
        ListChange { before: 3, additions: 1, deletions: 2, after: 2 },
    );
}

#[test]
fn rejected_commands_end_the_update() {
    let update = replace_lists(request(vec![None, None, None, None])).unwrap();
    let (update, action) = go(update, NftEvent::TableListed { listed: false, report: None });
    assert!(matches!(action, NftAction::Run(_)));
    let (update, action) = go(update, NftEvent::Failed);
    assert!(matches!(action, NftAction::Failed(UpdateError::Action)));
    assert!(!update.accepts(&NftEvent::Ran));
    assert!(!update.accepts(&NftEvent::Failed));
    let (_, action) = go(reading(), NftEvent::Failed);
    assert!(matches!(action, NftAction::Failed(UpdateError::Action)));
}

#[test]
fn written_elements_are_read_back() {
    let nets = vec![
        net("10.1.2.3/8"),
        net("192.0.2.1"),
        net("0.0.0.0/0"),
        net("2001:db8::/32"),
        net("::"),
        net("::ffff:192.0.2.1"),
        net("1:0:0:2::3"),
        net("ffff:ffff:ffff:ffff:ffff:ffff:ffff:ffff"),
    ];
    let elements = match named_element_command("FireholL1", &nets, true) {
        Some(NfObject::Add(NfListObject::Element { elem, .. })) => elem,
        other => panic!("{:?}", other),
    };
    let items = elements
        .iter()
        .map(|prefix| {
            let parts = vec![("addr", text(&prefix.addr)), ("len", Json::Unsigned(prefix.len.into()))];
            object(vec![("prefix", object(parts))])
        })
        .collect();
    let listing = report(vec![
        object(vec![("metainfo", Json::Null)]),
        object(vec![("set", object(vec![("elem", Json::Array(items))]))]),
    ]);
    let held = read_set_elements(&listing).unwrap();
    assert_eq!(held, normalize(&nets));

    let update = replace_lists(request(vec![Some(nets), None, None, None])).unwrap();
    let (update, _) = go(update, NftEvent::TableListed { listed: true, report: Some(complete_table()) });
    let (update, action) = go(update, NftEvent::SetListed { listed: true, report: Some(listing) });
    let mut rules = Vec::new();
    append_prerouting_rules(&mut rules, false);
    assert_eq!(commands(action), rules);
    assert_eq!(update.current[0], held);
}

#[test]
fn updates_wait_for_one_event_at_a_time() {
    let update = replace_lists(request(vec![None, None, None, None])).unwrap();
    assert!(!update.accepts(&NftEvent::Ran));
    assert!(!update.accepts(&NftEvent::SetListed { listed: true, report: None }));
    assert!(reading().accepts(&NftEvent::SetListed { listed: false, report: None }));
    assert!(!reading().accepts(&NftEvent::Ran));
}

#[test]
fn documents_must_be_written_and_accepted() {
    assert_eq!(run_document(true, true, "warning"), Ok(()));
    assert_eq!(run_document(false, true, ""), Err(RunError::Stream));
    assert_eq!(run_document(false, false, "x"), Err(RunError::Stream));
    assert_eq!(run_document(true, false, "\n Error: syntax \t\n"), Err(RunError::Rejected("Error: syntax".to_owned())));
}
