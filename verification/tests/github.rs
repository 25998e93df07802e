use firehol::github::{parse_github_ranges, GithubError, GithubField};
use firehol::ipset::parse_network;
use firehol::json::{Json, Member};
use firehol::net::IpNet;

fn net(text: &str) -> IpNet {
    parse_network(text).unwrap()
}

fn text(text: &str) -> Json {
    Json::Text(text.to_owned())
}

fn array(texts: &[&str]) -> Json {
    Json::Array(texts.iter().map(|item| text(item)).collect())
}

fn member(key: &str, value: Json) -> Member {
    Member { key: key.to_owned(), escaped: false, value }
}

fn complete() -> Vec<Member> {
    vec![
        member("verifiable_password_authentication", Json::Bool(false)),
        member("hooks", array(&["192.30.252.0/22", "2a0a:a440::/29"])),
        member("web", array(&[])),
        member("api", array(&["192.30.252.0/22"])),
        member("git", array(&[])),
    ]
}

#[test]
fn ranges_are_sorted_and_occur_once() {
    let mut members = complete();
    members.push(member("pages", array(&["192.30.252.153/32", "10.1.2.3/8", "no network", "192.0.2.1"])));
    assert_eq!(
        parse_github_ranges(&Json::Object(members)).unwrap(),
        vec![net("10.0.0.0/8"), net("192.30.252.0/22"), net("192.30.252.153/32"), net("2a0a:a440::/29")],
    );
}

#[test]
fn ranges_are_found_at_any_depth() {
    let mut members = complete();
    members.push(member(
        "domains",
        Json::Object(vec![
            Member { key: "escaped".to_owned(), escaped: true, value: Json::Array(vec![array(&["203.0.113.0/24"])]) },
            member("n", Json::Unsigned(7)),
            member("f", Json::Number),
            member("z", Json::Null),
        ]),
    ));
    members.push(member("ssh", text("198.51.100.0/24")));
    assert_eq!(
        parse_github_ranges(&Json::Object(members)).unwrap(),
        vec![net("192.30.252.0/22"), net("198.51.100.0/24"), net("203.0.113.0/24"), net("2a0a:a440::/29")],
    );
}

#[test]
fn repeated_fields_are_all_read() {
    let mut members = complete();
    members.push(member("web", array(&["203.0.113.0/24"])));
    assert_eq!(
        parse_github_ranges(&Json::Object(members)).unwrap(),
        vec![net("192.30.252.0/22"), net("203.0.113.0/24"), net("2a0a:a440::/29")],
    );
}

#[test]
fn metadata_must_be_an_object() {
    assert_eq!(parse_github_ranges(&Json::Null), Err(GithubError::Malformed));
    assert_eq!(parse_github_ranges(&array(&["10.0.0.0/8"])), Err(GithubError::Malformed));
}

#[test]
fn escaped_keys_are_refused() {
    let mut members = complete();
    members[0].escaped = true;
    assert_eq!(parse_github_ranges(&Json::Object(members)), Err(GithubError::Malformed));
}

#[test]
fn required_fields_must_be_arrays() {
    for at in 1..5 {
        let mut members = complete();
        members[at].value = text("192.30.252.0/22");
        assert_eq!(parse_github_ranges(&Json::Object(members)), Err(GithubError::Malformed));
    }
}

#[test]
fn required_fields_must_be_there() {
    let fields = [GithubField::Hooks, GithubField::Web, GithubField::Api, GithubField::Git];
    for at in 0..4 {
        let mut members = complete();
        members.remove(at + 1);
        assert_eq!(parse_github_ranges(&Json::Object(members)), Err(GithubError::Missing(fields[at])));
    }
    assert_eq!(parse_github_ranges(&Json::Object(Vec::new())), Err(GithubError::Missing(GithubField::Hooks)));
    assert_eq!(GithubField::Git.name(), "git");
}

#[test]
fn both_families_must_occur() {
    let mut members = complete();
    members[1].value = array(&["192.30.252.0/22"]);
    assert_eq!(parse_github_ranges(&Json::Object(members)), Err(GithubError::NoIpv6));
    let mut members = complete();
    members[1].value = array(&["2a0a:a440::/29"]);
    members[3].value = array(&[]);
    assert_eq!(parse_github_ranges(&Json::Object(members)), Err(GithubError::NoIpv4));
}
