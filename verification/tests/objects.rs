use firehol::ipset::parse_network;
use firehol::net::IpNet;
use firehol::netset::{difference, net_before, normalize, sorted_set};
use firehol::objects::{
    append_prerouting_rules, chain_command, drop_rule, flush_set_command, named_element_command, rule_object,
    set_command, table_command, BaseChain, NfChainPolicy, NfChainType, NfFamily, NfHook, NfListObject, NfObject,
    Prefix, SetType, Statement,
};

fn net(text: &str) -> IpNet {
    parse_network(text).unwrap()
}

fn owned(text: &str) -> String {
    text.to_owned()
}

fn rule(protocol: &str, set: &str, rest: Vec<Statement>) -> NfObject {
    let mut expr = vec![Statement::MatchIn {
        protocol: owned(protocol),
        field: owned("saddr"),
        right: format!("@{}", set),
    }];
    expr.extend(rest);
    NfObject::Add(NfListObject::Rule {
        family: NfFamily::INet,
        table: owned("firehol"),
        chain: owned("firehol_prerouting"),
        expr,
    })
}

#[test]
fn sets_are_created_with_the_interval_flag() {
    assert_eq!(
        set_command("FireholL1", SetType::Ipv4Addr),
        NfObject::Add(NfListObject::NetSet {
            family: NfFamily::INet,
            table: owned("firehol"),
            name: owned("FireholL1"),
            set_type: SetType::Ipv4Addr,
            interval: true,
        }),
    );
    assert_eq!(
        flush_set_command("FireholL1", SetType::Ipv6Addr),
        NfObject::Flush(NfListObject::NetSet {
            family: NfFamily::INet,
            table: owned("firehol"),
            name: owned("FireholL1"),
            set_type: SetType::Ipv6Addr,
            interval: false,
        }),
    );
}

#[test]
fn table_and_chain_are_created() {
    assert_eq!(
        table_command(),
        NfObject::Add(NfListObject::Table { family: NfFamily::INet, name: owned("firehol") }),
    );
    assert_eq!(
        chain_command(),
        NfObject::Add(NfListObject::Chain {
            family: NfFamily::INet,
            table: owned("firehol"),
            name: owned("firehol_prerouting"),
            base: Some(BaseChain {
                chain_type: NfChainType::Filter,
                hook: NfHook::Prerouting,
                prio: -500,
                policy: NfChainPolicy::Accept,
            }),
        }),
    );
}

#[test]
fn drop_rules_log_only_if_wanted() {
    assert_eq!(drop_rule("ip", "FireholL1", false), rule("ip", "FireholL1", vec![Statement::Drop]));
    assert_eq!(
        drop_rule("ip6", "FullBogonsIpv6", true),
        rule(
            "ip6",
            "FullBogonsIpv6",
            vec![Statement::Log { prefix: owned("Blocked Iodrive-FullBogonsIpv6: ") }, Statement::Drop],
        ),
    );
    assert_eq!(rule_object("ip", "x", vec![Statement::Accept]), rule("ip", "x", vec![Statement::Accept]));
}

#[test]
fn whitelists_are_accepted_before_lists_are_dropped() {
    let mut commands = vec![table_command()];
    append_prerouting_rules(&mut commands, false);
    assert_eq!(
        commands,
        vec![
            table_command(),
            NfObject::Flush(NfListObject::Chain {
                family: NfFamily::INet,
                table: owned("firehol"),
                name: owned("firehol_prerouting"),
                base: None,
            }),
            rule("ip", "firehol_whitelist_ipv4", vec![Statement::Accept]),
            rule("ip", "GithubWhitelistIPv4", vec![Statement::Accept]),
            rule("ip", "FullBogonsIpv4", vec![Statement::Drop]),
            rule("ip", "FireholL1", vec![Statement::Drop]),
            rule("ip", "FireholL2", vec![Statement::Drop]),
            rule("ip6", "firehol_whitelist_ipv6", vec![Statement::Accept]),
            rule("ip6", "GithubWhitelistIPv6", vec![Statement::Accept]),
            rule("ip6", "FullBogonsIpv6", vec![Statement::Drop]),
        ],
    );
}

#[test]
fn elements_are_written_with_their_lowest_address() {
    let nets = vec![net("10.1.2.3/8"), net("2001:db8::1"), net("::ffff:192.0.2.1/128")];
    let elements = NfListObject::Element {
        family: NfFamily::INet,
        table: owned("firehol"),
        name: owned("FireholL1"),
        elem: vec![
            Prefix { addr: owned("10.0.0.0"), len: 8 },
            Prefix { addr: owned("2001:db8::1"), len: 128 },
            Prefix { addr: owned("::ffff:192.0.2.1"), len: 128 },
        ],
    };
    assert_eq!(named_element_command("FireholL1", &nets, true), Some(NfObject::Add(elements.clone())));
    assert_eq!(named_element_command("FireholL1", &nets, false), Some(NfObject::Delete(elements)));
}

#[test]
fn nothing_to_do_brings_no_command() {
    assert_eq!(named_element_command("FireholL1", &Vec::new(), true), None);
    assert_eq!(named_element_command("FireholL1", &Vec::new(), false), None);
}

#[test]
fn networks_are_ordered_by_family_address_and_prefix() {
    let nets = vec![net("::/0"), net("10.0.0.0/16"), net("10.0.0.0/8"), net("9.255.0.0/16"), net("10.0.0.0/8")];
    assert_eq!(
        sorted_set(&nets),
        vec![net("9.255.0.0/16"), net("10.0.0.0/8"), net("10.0.0.0/16"), net("::/0")],
    );
    assert!(net_before(&net("255.255.255.255"), &net("::/0")));
    assert!(!net_before(&net("::/0"), &net("255.255.255.255")));
    assert!(!net_before(&net("::/0"), &net("::/0")));
}

#[test]
fn differences_and_normal_forms() {
    let a = vec![net("10.0.0.1"), net("10.0.0.2"), net("::1")];
    let b = vec![net("10.0.0.2"), net("10.0.0.3")];
    assert_eq!(difference(&a, &b), vec![net("10.0.0.1"), net("::1")]);
    assert_eq!(difference(&b, &a), vec![net("10.0.0.3")]);
    assert_eq!(difference(&a, &a), Vec::new());
    assert_eq!(
        normalize(&vec![net("10.9.9.9/8"), net("9.1.1.1/16"), net("10.0.0.0/8")]),
        vec![net("9.1.0.0/16"), net("10.0.0.0/8")],
    );
}
