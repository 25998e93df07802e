//! The address ranges in the metadata that GitHub publishes.

use vstd::prelude::*;

use crate::json::{Json, Member};
use crate::net::{all_truncated, all_wf, ascending, net_lt, Family, IpNet};
use crate::netset::{lemma_push_contains, sorted_set};
use crate::outside::{parse_ip_net, parsed_network};

verus! {

/// A field that the metadata must have.
#[derive(Clone, Copy, Debug, PartialEq, Eq, Structural)]
pub enum GithubField {
    Hooks,
    Web,
    Api,
    Git,
}

impl GithubField {
    /// The key of the field.
    pub open spec fn key(self) -> Seq<char> {
        match self {
            GithubField::Hooks => "hooks"@,
            GithubField::Web => "web"@,
            GithubField::Api => "api"@,
            GithubField::Git => "git"@,
        }
    }

    /// The key of the field.
    pub fn name(self) -> (name: &'static str)
        ensures
            name@ == self.key(),
    {
        match self {
            GithubField::Hooks => "hooks",
            GithubField::Web => "web",
            GithubField::Api => "api",
            GithubField::Git => "git",
        }
    }
}

/// Why metadata is refused.
#[derive(Clone, Copy, Debug, PartialEq, Eq, Structural)]
pub enum GithubError {
    /// It is no object, a key is written with an escape, or a required field is no array.
    Malformed,
    /// A required field is absent.
    Missing(GithubField),
    NoIpv4,
    NoIpv6,
}

/// Somewhere in the value stands a text that names the network.
pub open spec fn mentions(value: Json, net: IpNet) -> bool
    decreases value,
{
    match value {
        Json::Text(text) => match parsed_network(text@) {
            Some(n) => n.truncated() == net,
            None => false,
        },
        Json::Array(items) => exists|i: int| 0 <= i < items@.len() && mentions(#[trigger] items@[i], net),
        Json::Object(members) => exists|i: int|
            0 <= i < members@.len() && mentions((#[trigger] members@[i]).value, net),
        _ => false,
    }
}

/// The key belongs to a required field.
pub open spec fn is_required(key: Seq<char>) -> bool {
    exists|field: GithubField| key == #[trigger] field.key()
}

/// The member may stand in the metadata.
pub open spec fn member_ok(member: Member) -> bool {
    &&& !member.escaped
    &&& is_required(member.key@) ==> member.value is Array
}

/// The metadata is an object, and all of its members may stand there.
pub open spec fn metadata_ok(document: Json) -> bool {
    match document {
        Json::Object(members) => forall|i: int|
            0 <= i < members@.len() ==> member_ok(#[trigger] members@[i]),
        _ => false,
    }
}

/// The metadata has the field.
pub open spec fn has_field(document: Json, field: GithubField) -> bool {
    match document {
        Json::Object(members) => exists|i: int|
            0 <= i < members@.len() && (#[trigger] members@[i]).key@ == field.key(),
        _ => false,
    }
}

/// The metadata names a network of the family.
pub open spec fn has_family(document: Json, family: Family) -> bool {
    exists|net: IpNet| #[trigger] mentions(document, net) && net.family == family
}

/// The networks that the metadata names, in ascending order.
pub open spec fn is_ranges(document: Json, nets: Seq<IpNet>) -> bool {
    &&& ascending(nets)
    &&& forall|net: IpNet| #[trigger] nets.contains(net) <==> mentions(document, net)
}

/// Adds every network that the value names.
fn collect_ranges(value: &Json, ranges: &mut Vec<IpNet>)
    requires
        all_wf(old(ranges)@),
        all_truncated(old(ranges)@),
    ensures
        all_wf(final(ranges)@),
        all_truncated(final(ranges)@),
        forall|net: IpNet| #[trigger]
            final(ranges)@.contains(net) <==> old(ranges)@.contains(net) || mentions(*value, net),
    decreases *value,
{
    match value {
        Json::Text(text) => {
            if let Some(net) = parse_ip_net(text.as_str()) {
                ranges.push(net.trunc());
                proof {
                    assert forall|n: IpNet| #[trigger] ranges@.contains(n) <==> old(ranges)@.contains(n) || mentions(*value, n) by {
                        lemma_push_contains(old(ranges)@, net.truncated(), n);
                    }
                }
            }
        },
        Json::Array(items) => {
            let mut i: usize = 0;
            while i < items.len()
                invariant
                    i <= items@.len(),
                    *value == Json::Array(*items),
                    all_wf(ranges@),
                    all_truncated(ranges@),
                    forall|net: IpNet| #[trigger]
                        ranges@.contains(net) <==> old(ranges)@.contains(net) || exists|k: int|
                            0 <= k < i && mentions(#[trigger] items@[k], net),
                decreases items@.len() - i,
            {
                let ghost before = ranges@;
                assert(decreases_to!(*value => (*value)->Array_0@[i as int]));
                collect_ranges(&items[i], ranges);
                proof {
                    assert forall|net: IpNet| #[trigger] ranges@.contains(net) <==> old(ranges)@.contains(net) || exists|k: int|
                            0 <= k < i + 1 && mentions(#[trigger] items@[k], net) by {
                        assert(ranges@.contains(net) <==> before.contains(net) || mentions(items@[i as int], net));
                    }
                }
                i += 1;
            }
        },
        Json::Object(members) => {
            let mut i: usize = 0;
            while i < members.len()
                invariant
                    i <= members@.len(),
                    *value == Json::Object(*members),
                    all_wf(ranges@),
                    all_truncated(ranges@),
                    forall|net: IpNet| #[trigger]
                        ranges@.contains(net) <==> old(ranges)@.contains(net) || exists|k: int|
                            0 <= k < i && mentions((#[trigger] members@[k]).value, net),
                decreases members@.len() - i,
            {
                let ghost before = ranges@;
                assert(decreases_to!(*value => (*value)->Object_0@[i as int].value));
                collect_ranges(&members[i].value, ranges);
                proof {
                    assert forall|net: IpNet| #[trigger] ranges@.contains(net) <==> old(ranges)@.contains(net) || exists|k: int|
                            0 <= k < i + 1 && mentions((#[trigger] members@[k]).value, net) by {
                        assert(ranges@.contains(net) <==> before.contains(net) || mentions(members@[i as int].value, net));
                    }
                }
                i += 1;
            }
        },
        _ => {},
    }
}

/// The required field that a key belongs to.
fn required_field(key: &String) -> (field: Option<GithubField>)
    ensures
        field matches Some(f) ==> key@ == f.key(),
        field is None ==> !is_required(key@),
{
    if *key == "hooks".to_owned() {
        Some(GithubField::Hooks)
    } else if *key == "web".to_owned() {
        Some(GithubField::Web)
    } else if *key == "api".to_owned() {
        Some(GithubField::Api)
    } else if *key == "git".to_owned() {
        Some(GithubField::Git)
    } else {
        proof {
            assert forall|f: GithubField| key@ != #[trigger] f.key() by {
                match f {
                    GithubField::Hooks => {},
                    GithubField::Web => {},
                    GithubField::Api => {},
                    GithubField::Git => {},
                }
            }
        }
        None
    }
}

/// Whether a list of networks has one of the family.
fn any_of_family(nets: &Vec<IpNet>, family: Family) -> (any: bool)
    ensures
        any == exists|net: IpNet| #[trigger] nets@.contains(net) && net.family == family,
{
    let mut i: usize = 0;
    while i < nets.len()
        invariant
            i <= nets@.len(),
            forall|k: int| 0 <= k < i ==> (#[trigger] nets@[k]).family != family,
        decreases nets@.len() - i,
    {
        if nets[i].family == family {
            assert(nets@.contains(nets@[i as int]));
            return true;
        }
        i += 1;
    }
    false
}

/// The first required field, in the order in which they are looked for, that is absent.
pub open spec fn first_missing(document: Json) -> Option<GithubField> {
    if !has_field(document, GithubField::Hooks) {
        Some(GithubField::Hooks)
    } else if !has_field(document, GithubField::Web) {
        Some(GithubField::Web)
    } else if !has_field(document, GithubField::Api) {
        Some(GithubField::Api)
    } else if !has_field(document, GithubField::Git) {
        Some(GithubField::Git)
    } else {
        None
    }
}

/// What is wrong with the metadata, if anything is.
pub open spec fn metadata_error(document: Json) -> Option<GithubError> {
    if !metadata_ok(document) {
        Some(GithubError::Malformed)
    } else if first_missing(document) is Some {
        Some(GithubError::Missing(first_missing(document)->0))
    } else if !has_family(document, Family::V4) {
        Some(GithubError::NoIpv4)
    } else if !has_family(document, Family::V6) {
        Some(GithubError::NoIpv6)
    } else {
        None
    }
}

/// What is wrong with metadata that may not even be JSON, if anything is.
pub open spec fn document_error(document: Option<Json>) -> Option<GithubError> {
    match document {
        Some(document) => metadata_error(document),
        None => Some(GithubError::Malformed),
    }
}

/// The networks that the metadata names anywhere, in ascending order and each once, provided
/// that the required fields are arrays and that both families occur.
pub fn parse_github_ranges(document: &Json) -> (result: Result<Vec<IpNet>, GithubError>)
    ensures
        match metadata_error(*document) {
            Some(error) => result == Err::<Vec<IpNet>, GithubError>(error),
            None => result is Ok,
        },
        result matches Ok(nets) ==> {
            &&& is_ranges(*document, nets@)
            &&& all_wf(nets@)
            &&& all_truncated(nets@)
        },
{
    let members: &Vec<Member> = match document {
        Json::Object(members) => members,
        _ => return Err(GithubError::Malformed),
    };
    let mut hooks: bool = false;
    let mut web: bool = false;
    let mut api: bool = false;
    let mut git: bool = false;
    let mut i: usize = 0;
    while i < members.len()
        invariant
            i <= members@.len(),
            *document == Json::Object(*members),
            forall|k: int| 0 <= k < i ==> member_ok(#[trigger] members@[k]),
            hooks <==> exists|k: int| 0 <= k < i && (#[trigger] members@[k]).key@ == GithubField::Hooks.key(),
            web <==> exists|k: int| 0 <= k < i && (#[trigger] members@[k]).key@ == GithubField::Web.key(),
            api <==> exists|k: int| 0 <= k < i && (#[trigger] members@[k]).key@ == GithubField::Api.key(),
            git <==> exists|k: int| 0 <= k < i && (#[trigger] members@[k]).key@ == GithubField::Git.key(),
        decreases members@.len() - i,
    {
        let member: &Member = &members[i];
        if member.escaped {
            assert(!member_ok(members@[i as int]));
            return Err(GithubError::Malformed);
        }
        let required: Option<GithubField> = required_field(&member.key);
        let is_array: bool = matches!(member.value, Json::Array(_));
        if required.is_some() && !is_array {
            assert(!member_ok(members@[i as int])) by {
                assert(is_required(members@[i as int].key@));
            }
            return Err(GithubError::Malformed);
        }
        proof {
            lemma_keys_differ();
        }
        match required {
            Some(GithubField::Hooks) => {
                hooks = true;
            },
            Some(GithubField::Web) => {
                web = true;
            },
            Some(GithubField::Api) => {
                api = true;
            },
            Some(GithubField::Git) => {
                git = true;
            },
            None => {},
        }
        i += 1;
    }
    if !hooks {
        return Err(GithubError::Missing(GithubField::Hooks));
    }
    if !web {
        return Err(GithubError::Missing(GithubField::Web));
    }
    if !api {
        return Err(GithubError::Missing(GithubField::Api));
    }
    if !git {
        return Err(GithubError::Missing(GithubField::Git));
    }
    let mut found: Vec<IpNet> = Vec::new();
    collect_ranges(document, &mut found);
    if !any_of_family(&found, Family::V4) {
        assert forall|net: IpNet| #[trigger] mentions(*document, net) implies net.family != Family::V4 by {
            assert(found@.contains(net));
        }
        return Err(GithubError::NoIpv4);
    }
    if !any_of_family(&found, Family::V6) {
        assert forall|net: IpNet| #[trigger] mentions(*document, net) implies net.family != Family::V6 by {
            assert(found@.contains(net));
        }
        assert(has_family(*document, Family::V4));
        return Err(GithubError::NoIpv6);
    }
    assert(has_family(*document, Family::V4));
    assert(has_family(*document, Family::V6));
    let nets: Vec<IpNet> = sorted_set(&found);
    proof {
        assert forall|k: int| 0 <= k < nets@.len() implies (#[trigger] nets@[k]).wf() && nets@[k].is_truncated() by {
            assert(nets@.contains(nets@[k]));
            let j = found@.index_of(nets@[k]);
            assert(found@[j].wf() && found@[j].is_truncated());
        }
    }
    Ok(nets)
}

/// The keys of the required fields are four different texts.
proof fn lemma_keys_differ()
    ensures
        forall|a: GithubField, b: GithubField| #[trigger] a.key() == #[trigger] b.key() ==> a == b,
{
    reveal_strlit("hooks");
    reveal_strlit("web");
    reveal_strlit("api");
    reveal_strlit("git");
    assert("web"@[0] == 'w' && "api"@[0] == 'a' && "git"@[0] == 'g' && "hooks"@[0] == 'h');
}

/// What stands in the document at a path: each step is the place of an item in an array or of a
/// member in an object.
pub open spec fn at_path(document: Json, path: Seq<int>) -> Option<Json>
    decreases path.len(),
{
    if path.len() == 0 {
        Some(document)
    } else {
        match document {
            Json::Array(items) => if 0 <= path[0] < items@.len() {
                at_path(items@[path[0]], path.drop_first())
            } else {
                None
            },
            Json::Object(members) => if 0 <= path[0] < members@.len() {
                at_path(members@[path[0]].value, path.drop_first())
            } else {
                None
            },
            _ => None,
        }
    }
}

/// At the path stands a text that is the network.
pub open spec fn has_network_at(document: Json, path: Seq<int>, net: IpNet) -> bool {
    at_path(document, path) matches Some(Json::Text(text)) && parsed_network(text@) == Some(net)
}

proof fn lemma_path_counts(document: Json, path: Seq<int>, net: IpNet)
    requires
        has_network_at(document, path, net),
    ensures
        mentions(document, net.truncated()),
    decreases path.len(),
{
    if path.len() > 0 {
        match document {
            Json::Array(items) => {
                lemma_path_counts(items@[path[0]], path.drop_first(), net);
                assert(mentions(items@[path[0]], net.truncated()));
            },
            Json::Object(members) => {
                lemma_path_counts(members@[path[0]].value, path.drop_first(), net);
                assert(mentions(members@[path[0]].value, net.truncated()));
            },
            _ => {},
        }
    }
}

proof fn lemma_mention_has_path(document: Json, net: IpNet) -> (place: (Seq<int>, IpNet))
    requires
        mentions(document, net),
    ensures
        has_network_at(document, place.0, place.1),
        place.1.truncated() == net,
    decreases document,
{
    match document {
        Json::Text(text) => (Seq::<int>::empty(), parsed_network(text@)->0),
        Json::Array(items) => {
            let i = choose|i: int| 0 <= i < items@.len() && mentions(#[trigger] items@[i], net);
            let inner = lemma_mention_has_path(document->Array_0@[i], net);
            let path = seq![i] + inner.0;
            assert(path.drop_first() =~= inner.0);
            (path, inner.1)
        },
        Json::Object(members) => {
            let i = choose|i: int| 0 <= i < members@.len() && mentions((#[trigger] members@[i]).value, net);
            let inner = lemma_mention_has_path(document->Object_0@[i].value, net);
            let path = seq![i] + inner.0;
            assert(path.drop_first() =~= inner.0);
            (path, inner.1)
        },
        _ => (Seq::<int>::empty(), net),
    }
}

/// Every text of an accepted document counts, at whatever depth and place it stands: a network is
/// in the result exactly if some text is that network. It is named there by its lowest address.
pub proof fn law_every_text_counts(document: Json, nets: Seq<IpNet>, net: IpNet)
    requires
        is_ranges(document, nets),
    ensures
        nets.contains(net) <==> exists|path: Seq<int>, range: IpNet| #[trigger]
            has_network_at(document, path, range) && range.truncated() == net,
        forall|i: int, j: int| 0 <= i < j < nets.len() ==> net_lt(#[trigger] nets[i], #[trigger] nets[j]),
{
    if nets.contains(net) {
        let place = lemma_mention_has_path(document, net);
        assert(has_network_at(document, place.0, place.1) && place.1.truncated() == net);
    }
    assert forall|path: Seq<int>, range: IpNet| #[trigger] has_network_at(document, path, range) && range.truncated() == net implies nets.contains(net) by {
        lemma_path_counts(document, path, range);
    }
}

/// Every item of every field counts: the text at any place of the array in any member brings its
/// network.
pub proof fn law_every_item_counts(document: Json, nets: Seq<IpNet>, m: int, i: int, net: IpNet)
    requires
        is_ranges(document, nets),
        document matches Json::Object(members) && 0 <= m < members@.len() && (members@[m].value matches Json::Array(items)
            && 0 <= i < items@.len() && (items@[i] matches Json::Text(text) && parsed_network(text@) == Some(net))),
    ensures
        nets.contains(net.truncated()),
{
    let members = document->Object_0;
    let items = members@[m].value->Array_0;
    assert(mentions(items@[i], net.truncated()));
    assert(mentions(members@[m].value, net.truncated()));
    assert(mentions(document, net.truncated()));
}

/// A key of a required field.
proof fn lemma_required(key: Seq<char>)
    ensures
        is_required(key) <==> key == "hooks"@ || key == "web"@ || key == "api"@ || key == "git"@,
{
    if is_required(key) {
        let field = choose|field: GithubField| key == #[trigger] field.key();
        match field {
            GithubField::Hooks => {},
            GithubField::Web => {},
            GithubField::Api => {},
            GithubField::Git => {},
        }
    }
    if key == "hooks"@ {
        assert(key == GithubField::Hooks.key());
    }
    if key == "web"@ {
        assert(key == GithubField::Web.key());
    }
    if key == "api"@ {
        assert(key == GithubField::Api.key());
    }
    if key == "git"@ {
        assert(key == GithubField::Git.key());
    }
}

/// The document has a text that is a network of the family.
pub open spec fn has_range(document: Json, family: Family) -> bool {
    exists|path: Seq<int>, net: IpNet| #[trigger] has_network_at(document, path, net) && net.family == family
}

proof fn lemma_has_range(document: Json, family: Family)
    ensures
        has_family(document, family) <==> has_range(document, family),
{
    if has_family(document, family) {
        let net = choose|net: IpNet| #[trigger] mentions(document, net) && net.family == family;
        let place = lemma_mention_has_path(document, net);
        assert(has_network_at(document, place.0, place.1));
    }
    if has_range(document, family) {
        let (path, net) = choose|path: Seq<int>, net: IpNet| #[trigger] has_network_at(document, path, net) && net.family == family;
        lemma_path_counts(document, path, net);
    }
}

/// When metadata is refused, and for what: it is no object, a key is escaped or a required field
/// is no array; a required field is absent; or no text is a network of one of the families.
pub proof fn law_metadata_is_refused(document: Json)
    ensures
        document_error(None) == Some(GithubError::Malformed),
        !(document is Object) ==> document_error(Some(document)) == Some(GithubError::Malformed),
        document matches Json::Object(members) ==> {
            let error = document_error(Some(document));
            let malformed = exists|i: int|
                0 <= i < members@.len() && ((#[trigger] members@[i]).escaped || (members@[i].key@ == "hooks"@ || members@[i].key@
                    == "web"@ || members@[i].key@ == "api"@ || members@[i].key@ == "git"@) && !(members@[i].value is Array));
            let hooks = exists|i: int| 0 <= i < members@.len() && (#[trigger] members@[i]).key@ == "hooks"@;
            let web = exists|i: int| 0 <= i < members@.len() && (#[trigger] members@[i]).key@ == "web"@;
            let api = exists|i: int| 0 <= i < members@.len() && (#[trigger] members@[i]).key@ == "api"@;
            let git = exists|i: int| 0 <= i < members@.len() && (#[trigger] members@[i]).key@ == "git"@;
            &&& malformed ==> error == Some(GithubError::Malformed)
            &&& !malformed && !hooks ==> error == Some(GithubError::Missing(GithubField::Hooks))
            &&& !malformed && hooks && !web ==> error == Some(GithubError::Missing(GithubField::Web))
            &&& !malformed && hooks && web && !api ==> error == Some(GithubError::Missing(GithubField::Api))
            &&& !malformed && hooks && web && api && !git ==> error == Some(GithubError::Missing(GithubField::Git))
            &&& !malformed && hooks && web && api && git ==> {
                &&& !has_range(document, Family::V4) ==> error == Some(GithubError::NoIpv4)
                &&& has_range(document, Family::V4) && !has_range(document, Family::V6) ==> error == Some(
                    GithubError::NoIpv6,
                )
                &&& has_range(document, Family::V4) && has_range(document, Family::V6) ==> error is None
            }
        },
{
    lemma_has_range(document, Family::V4);
    lemma_has_range(document, Family::V6);
    if let Json::Object(members) = document {
        assert forall|i: int| 0 <= i < members@.len() implies (member_ok(#[trigger] members@[i]) <==> !(members@[i].escaped
            || (members@[i].key@ == "hooks"@ || members@[i].key@ == "web"@ || members@[i].key@ == "api"@ || members@[i].key@
            == "git"@) && !(members@[i].value is Array))) by {
            lemma_required(members@[i].key@);
        }
    }
}

} // verus!
