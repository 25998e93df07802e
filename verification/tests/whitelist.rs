use firehol::ipset::parse_network;
use firehol::net::{Family, IpNet};
use firehol::objects::{flush_set_command, named_element_command, NfObject, SetType};
use firehol::whitelist::{append_whitelist, append_whitelist_networks, append_whitelist_set, outermost_networks};

fn net(text: &str) -> IpNet {
    parse_network(text).unwrap()
}

fn owned(texts: &[&str]) -> Vec<String> {
    texts.iter().map(|text| text.to_string()).collect()
}

fn renewed(name: &str, set_type: SetType, nets: Vec<IpNet>) -> Vec<NfObject> {
    let mut commands = vec![flush_set_command(name, set_type)];
    commands.extend(named_element_command(name, &nets, true));
    commands
}

#[test]
fn enclosed_networks_are_left_out() {
    let nets = vec![net("10.1.0.0/16"), net("10.0.0.9/8"), net("10.0.0.0/8"), net("192.0.2.1"), net("::1")];
    assert_eq!(outermost_networks(&nets, Family::V4), vec![net("10.0.0.0/8"), net("192.0.2.1")]);
    assert_eq!(outermost_networks(&nets, Family::V6), vec![net("::1")]);
}

#[test]
fn neighbours_are_not_merged() {
    let nets = vec![net("10.0.0.0/9"), net("10.128.0.0/9")];
    assert_eq!(outermost_networks(&nets, Family::V4), nets);
}

#[test]
fn whitelist_is_emptied_and_filled_again() {
    let mut commands = Vec::new();
    append_whitelist_networks(&mut commands, "w", &vec![net("10.0.0.0/8"), net("::1")], true);
    assert_eq!(commands, renewed("w", SetType::Ipv4Addr, vec![net("10.0.0.0/8")]));
    let mut commands = Vec::new();
    append_whitelist_networks(&mut commands, "w", &vec![net("10.0.0.0/8")], false);
    assert_eq!(commands, vec![flush_set_command("w", SetType::Ipv6Addr)]);
}

#[test]
fn whitelist_values_may_be_addresses() {
    let mut commands = Vec::new();
    assert_eq!(append_whitelist_set(&mut commands, "w", &owned(&["192.0.2.7", "10.2.3.4/8"]), true), Ok(()));
    assert_eq!(commands, renewed("w", SetType::Ipv4Addr, vec![net("10.0.0.0/8"), net("192.0.2.7")]));
}

#[test]
fn first_invalid_whitelist_value_is_handed_back() {
    let mut commands = Vec::new();
    let result = append_whitelist_set(&mut commands, "w", &owned(&["10.0.0.0/8", "x", "y"]), true);
    assert_eq!(result, Err("x".to_owned()));
    assert!(commands.is_empty());
}

#[test]
fn all_given_whitelists_are_renewed() {
    let mut commands = Vec::new();
    let result = append_whitelist(
        &mut commands,
        &Some(owned(&["10.0.0.0/8"])),
        &Some(owned(&[])),
        &Some(vec![net("192.30.252.0/22"), net("2a0a:a440::/29")]),
    );
    assert_eq!(result, Ok(()));
    let mut expected = renewed("firehol_whitelist_ipv4", SetType::Ipv4Addr, vec![net("10.0.0.0/8")]);
    expected.extend(renewed("firehol_whitelist_ipv6", SetType::Ipv6Addr, vec![]));
    expected.extend(renewed("GithubWhitelistIPv4", SetType::Ipv4Addr, vec![net("192.30.252.0/22")]));
    expected.extend(renewed("GithubWhitelistIPv6", SetType::Ipv6Addr, vec![net("2a0a:a440::/29")]));
    assert_eq!(commands, expected);
}

#[test]
fn whitelists_that_are_not_given_stay() {
    let mut commands = Vec::new();
    assert_eq!(append_whitelist(&mut commands, &None, &None, &None), Ok(()));
    assert!(commands.is_empty());
}

#[test]
fn invalid_ipv4_value_comes_before_an_invalid_ipv6_value() {
    let mut commands = Vec::new();
    let result = append_whitelist(&mut commands, &Some(owned(&["a"])), &Some(owned(&["b"])), &None);
    assert_eq!(result, Err("a".to_owned()));
    let result = append_whitelist(&mut commands, &Some(owned(&["::1"])), &Some(owned(&["b"])), &None);
    assert_eq!(result, Err("b".to_owned()));
}
