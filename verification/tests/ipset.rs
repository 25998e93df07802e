use firehol::ipset::{parse_network, parse_networks, Ipset};
use firehol::net::{Family, IpNet};

fn net(text: &str) -> IpNet {
    parse_network(text).unwrap()
}

fn merged(text: &str) -> Vec<IpNet> {
    let mut set = Ipset::new().from(text);
    set.consolidate();
    assert!(set.networks.is_empty());
    set.ips
}

#[test]
fn consolidate_keeps_only_ip_addresses_and_networks() {
    let mut ipset = Ipset::new().from("192.0.2.0/32\n192.0.2.1\n192.0.2.2\n192.0.2.3\nlabel");

    ipset.consolidate();

    assert!(ipset.ips.contains(&parse_network("192.0.2.0/30").unwrap()));
    assert_eq!(ipset.ips.len(), 1);
}

#[test]
fn rows_name_networks_or_addresses() {
    assert_eq!(net("192.0.2.0/24"), IpNet { family: Family::V4, addr: 0xc0000200, prefix_len: 24 });
    assert_eq!(net("192.0.2.9/24"), IpNet { family: Family::V4, addr: 0xc0000209, prefix_len: 24 });
    assert_eq!(net("192.0.2.9"), IpNet { family: Family::V4, addr: 0xc0000209, prefix_len: 32 });
    assert_eq!(net("::1"), IpNet { family: Family::V6, addr: 1, prefix_len: 128 });
    assert_eq!(net("fc00::/7"), IpNet { family: Family::V6, addr: 0xfc00 << 112, prefix_len: 7 });
    assert_eq!(net("0.0.0.0/0"), IpNet { family: Family::V4, addr: 0, prefix_len: 0 });
    assert_eq!(parse_network("192.0.2.0/33"), None);
    assert_eq!(parse_network("192.0.2"), None);
    assert_eq!(parse_network("label"), None);
    assert_eq!(parse_network(""), None);
}

#[test]
fn comments_blanks_and_labels_are_passed_over() {
    let nets = parse_networks("# comment\r\n\r\n  10.0.0.0/8  \r\nlabel\n\t#x\n10.0.0.1 # no\n::1");
    assert_eq!(nets, vec![net("10.0.0.0/8"), net("::1")]);
}

#[test]
fn networks_keep_the_order_of_the_list() {
    let nets = parse_networks("10.0.0.2\n10.0.0.1\n10.0.0.2\n");
    assert_eq!(nets, vec![net("10.0.0.2"), net("10.0.0.1"), net("10.0.0.2")]);
}

#[test]
fn families_are_merged_apart_and_stand_in_order() {
    assert_eq!(
        merged("2001:db8::/33\n198.51.100.0/25\n2001:db8:8000::/33\n198.51.100.128/25\n192.0.2.1"),
        vec![net("192.0.2.1"), net("198.51.100.0/24"), net("2001:db8::/32")],
    );
}

#[test]
fn neighbours_that_fill_no_block_stay_apart() {
    assert_eq!(merged("10.0.0.1\n10.0.0.2"), vec![net("10.0.0.1"), net("10.0.0.2")]);
}

#[test]
fn enclosed_networks_disappear() {
    assert_eq!(merged("10.1.2.3\n10.0.0.0/8\n10.1.0.0/16"), vec![net("10.0.0.0/8")]);
}

#[test]
fn bits_behind_the_prefix_do_not_matter() {
    assert_eq!(merged("10.1.2.3/8"), vec![net("10.0.0.0/8")]);
}

#[test]
fn highest_addresses_are_merged() {
    assert_eq!(merged("255.255.255.254\n255.255.255.255"), vec![net("255.255.255.254/31")]);
    assert_eq!(merged("255.255.255.255"), vec![net("255.255.255.255/32")]);
    assert_eq!(
        merged("ffff:ffff:ffff:ffff:ffff:ffff:ffff:fffe\nffff:ffff:ffff:ffff:ffff:ffff:ffff:ffff"),
        vec![net("ffff:ffff:ffff:ffff:ffff:ffff:ffff:fffe/127")],
    );
}

#[test]
fn all_addresses_are_one_block() {
    assert_eq!(merged("128.0.0.0/1\n0.0.0.0/1"), vec![net("0.0.0.0/0")]);
    assert_eq!(merged("8000::/1\n::/1"), vec![net("::/0")]);
}

#[test]
fn merging_again_changes_nothing() {
    let text = "10.0.0.0\n10.0.0.1\n10.0.0.2\n10.0.0.4/30";
    let once = merged(text);
    assert_eq!(once, vec![net("10.0.0.0/31"), net("10.0.0.2"), net("10.0.0.4/30")]);
    let set = Ipset { ips: Vec::new(), networks: once.clone() };
    let mut set = set;
    set.consolidate();
    assert_eq!(set.ips, once);
}

#[test]
fn order_and_repetition_do_not_matter() {
    assert_eq!(merged("10.0.0.1\n10.0.0.0\n10.0.0.1"), merged("10.0.0.0/31"));
}

#[test]
fn blocks_stay_if_nothing_was_gathered() {
    let mut set = Ipset::new().from("10.0.0.1");
    set.consolidate();
    set.consolidate();
    assert_eq!(set.ips, vec![net("10.0.0.1")]);
}

#[test]
fn new_blocks_replace_the_old() {
    let mut set = Ipset::new().from("10.0.0.1");
    set.consolidate();
    let mut set = set.from("10.0.0.8");
    set.consolidate();
    assert_eq!(set.ips, vec![net("10.0.0.8")]);
}

#[test]
fn lists_are_gathered_together() {
    let mut set = Ipset::new().from("10.0.0.0").from("10.0.0.1");
    set.consolidate();
    assert_eq!(set.ips, vec![net("10.0.0.0/31")]);
}

#[test]
fn truncation_clears_the_bits_behind_the_prefix() {
    assert_eq!(net("10.1.2.3/8").trunc(), net("10.0.0.0/8"));
    assert_eq!(net("10.1.2.3").trunc(), net("10.1.2.3"));
    assert_eq!(net("255.255.255.255/0").trunc(), net("0.0.0.0/0"));
    assert_eq!(net("ffff::1/0").trunc(), net("::/0"));
    assert_eq!(net("2001:db8::5/64").network(), 0x20010db8 << 96);
}

#[test]
fn networks_contain_their_parts() {
    assert!(net("10.0.0.0/8").contains(&net("10.1.0.0/16")));
    assert!(net("10.0.0.0/8").contains(&net("10.0.0.0/8")));
    assert!(!net("10.1.0.0/16").contains(&net("10.0.0.0/8")));
    assert!(!net("10.0.0.0/8").contains(&net("11.0.0.0/16")));
    assert!(!net("0.0.0.0/0").contains(&net("::1")));
    assert!(net("::/0").contains(&net("ffff:ffff:ffff:ffff:ffff:ffff:ffff:ffff")));
}
