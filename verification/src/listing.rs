//! What nftables reports of its tables and sets.

use vstd::prelude::*;

use crate::ipset::{named_network, parse_network};
use crate::json::{field, field_of, find_member, has_key, only_key, Json, Member, Occurrence};
use crate::net::{all_truncated, all_wf, ascending, Family, IpNet};
use crate::netset::{lemma_push_contains, sorted_set};
use crate::outside::{parse_ip_addr, parsed_address, parsed_network};
use crate::text::texts;

verus! {

/// An entry in the report of a table.
#[derive(Debug)]
pub enum TableListingEntry {
    NetSet(String),
    Chain(String),
    Other,
}

/// The content of an entry.
pub enum EntryView {
    NetSet(Seq<char>),
    Chain(Seq<char>),
    Other,
}

impl View for TableListingEntry {
    type V = EntryView;

    open spec fn view(&self) -> EntryView {
        match *self {
            TableListingEntry::NetSet(name) => EntryView::NetSet(name@),
            TableListingEntry::Chain(name) => EntryView::Chain(name@),
            TableListingEntry::Other => EntryView::Other,
        }
    }
}

/// The name of a reported object.
pub open spec fn name_of(object: Json) -> Option<Seq<char>> {
    match field_of(object, "name"@) {
        Some(Json::Text(name)) => Some(name@),
        _ => None,
    }
}

/// What a member of an entry says, if it is well formed.
pub open spec fn member_entry(member: Member) -> Option<EntryView> {
    if member.key@ == "set"@ {
        match name_of(member.value) {
            Some(name) => Some(EntryView::NetSet(name)),
            None => None,
        }
    } else if member.key@ == "chain"@ {
        match name_of(member.value) {
            Some(name) => Some(EntryView::Chain(name)),
            None => None,
        }
    } else {
        Some(EntryView::Other)
    }
}

/// What an entry reports: all of its members are well formed, and the last one counts.
pub open spec fn entry_of(entry: Json) -> Option<EntryView> {
    match entry {
        Json::Object(members) => if exists|i: int|
            0 <= i < members@.len() && member_entry(#[trigger] members@[i]) is None {
            None
        } else if members@.len() == 0 {
            Some(EntryView::Other)
        } else {
            member_entry(members@.last())
        },
        _ => None,
    }
}

/// The entries of a report.
pub open spec fn report_items(report: Json) -> Option<Seq<Json>> {
    match field_of(report, "nftables"@) {
        Some(Json::Array(items)) => Some(items@),
        _ => None,
    }
}

/// The report of a table is well formed.
pub open spec fn table_ok(report: Json) -> bool {
    match report_items(report) {
        Some(items) => forall|i: int| 0 <= i < items.len() ==> entry_of(#[trigger] items[i]) is Some,
        None => false,
    }
}

/// The report of a table has the entry.
pub open spec fn table_lists(report: Json, entry: EntryView) -> bool {
    exists|i: int|
        0 <= i < report_items(report)->0.len() && entry_of(#[trigger] report_items(report)->0[i]) == Some(entry)
}

/// The text of a field named `name`.
fn object_name(object: &Json) -> (name: Option<String>)
    ensures
        match name {
            Some(n) => name_of(*object) == Some(n@),
            None => name_of(*object) is None,
        },
{
    match field(object, "name") {
        Some(Json::Text(name)) => Some(name.clone()),
        _ => None,
    }
}

/// What an entry reports, if it is well formed.
pub fn table_listing_entry(entry: &Json) -> (result: Option<TableListingEntry>)
    ensures
        match result {
            Some(e) => entry_of(*entry) == Some(e@),
            None => entry_of(*entry) is None,
        },
{
    let members: &Vec<Member> = match entry {
        Json::Object(members) => members,
        _ => return None,
    };
    let set_key: String = "set".to_owned();
    let chain_key: String = "chain".to_owned();
    let mut result: TableListingEntry = TableListingEntry::Other;
    let mut i: usize = 0;
    while i < members.len()
        invariant
            i <= members@.len(),
            *entry == Json::Object(*members),
            set_key@ == "set"@,
            chain_key@ == "chain"@,
            forall|k: int| 0 <= k < i ==> member_entry(#[trigger] members@[k]) is Some,
            i == 0 ==> result@ == EntryView::Other,
            i > 0 ==> member_entry(members@[i - 1]) == Some(result@),
        decreases members@.len() - i,
    {
        let member: &Member = &members[i];
        if member.key == set_key {
            match object_name(&member.value) {
                Some(name) => {
                    result = TableListingEntry::NetSet(name);
                },
                None => {
                    assert(member_entry(members@[i as int]) is None);
                    return None;
                },
            }
        } else if member.key == chain_key {
            match object_name(&member.value) {
                Some(name) => {
                    result = TableListingEntry::Chain(name);
                },
                None => {
                    assert(member_entry(members@[i as int]) is None);
                    return None;
                },
            }
        } else {
            result = TableListingEntry::Other;
        }
        i += 1;
    }
    Some(result)
}

/// The names of the sets and chains of a table.
#[derive(Debug)]
pub struct TableContents {
    pub sets: Vec<String>,
    pub chains: Vec<String>,
}

/// A list of strings has the text.
pub open spec fn has_text(list: Seq<String>, text: Seq<char>) -> bool {
    exists|i: int| 0 <= i < list.len() && (#[trigger] list[i])@ == text
}

proof fn lemma_push_text(list: Seq<String>, item: String, text: Seq<char>)
    ensures
        has_text(list.push(item), text) <==> has_text(list, text) || item@ == text,
{
    if has_text(list, text) {
        let i = choose|i: int| 0 <= i < list.len() && (#[trigger] list[i])@ == text;
        assert(list.push(item)[i]@ == text);
    }
    if item@ == text {
        assert(list.push(item)[list.len() as int]@ == text);
    }
}

/// The names of the sets and chains that a table is reported to have.
pub fn table_contents(report: &Json) -> (contents: Option<TableContents>)
    ensures
        contents is Some <==> table_ok(*report),
        contents matches Some(c) ==> {
            &&& forall|name: Seq<char>| #[trigger]
                has_text(c.sets@, name) <==> table_lists(*report, EntryView::NetSet(name))
            &&& forall|name: Seq<char>| #[trigger]
                has_text(c.chains@, name) <==> table_lists(*report, EntryView::Chain(name))
        },
{
    let items: &Vec<Json> = match field(report, "nftables") {
        Some(Json::Array(items)) => items,
        _ => return None,
    };
    let mut sets: Vec<String> = Vec::new();
    let mut chains: Vec<String> = Vec::new();
    let mut i: usize = 0;
    while i < items.len()
        invariant
            i <= items@.len(),
            report_items(*report) == Some(items@),
            forall|k: int| 0 <= k < i ==> entry_of(#[trigger] items@[k]) is Some,
            forall|name: Seq<char>| #[trigger]
                has_text(sets@, name) <==> exists|k: int|
                    0 <= k < i && entry_of(#[trigger] items@[k]) == Some(EntryView::NetSet(name)),
            forall|name: Seq<char>| #[trigger]
                has_text(chains@, name) <==> exists|k: int|
                    0 <= k < i && entry_of(#[trigger] items@[k]) == Some(EntryView::Chain(name)),
        decreases items@.len() - i,
    {
        let ghost sets_before = sets@;
        let ghost chains_before = chains@;
        let entry: TableListingEntry = match table_listing_entry(&items[i]) {
            Some(entry) => entry,
            None => {
                assert(entry_of(items@[i as int]) is None);
                return None;
            },
        };
        match entry {
            TableListingEntry::NetSet(name) => {
                sets.push(name);
                proof {
                    assert forall|n: Seq<char>| #[trigger] has_text(sets@, n) <==> has_text(sets_before, n) || name@ == n by {
                        lemma_push_text(sets_before, name, n);
                    }
                }
            },
            TableListingEntry::Chain(name) => {
                chains.push(name);
                proof {
                    assert forall|n: Seq<char>| #[trigger] has_text(chains@, n) <==> has_text(chains_before, n) || name@ == n by {
                        lemma_push_text(chains_before, name, n);
                    }
                }
            },
            TableListingEntry::Other => {},
        }
        proof {
            assert forall|n: Seq<char>| #[trigger] has_text(sets@, n) <==> exists|k: int|
                    0 <= k < i + 1 && entry_of(#[trigger] items@[k]) == Some(EntryView::NetSet(n)) by {
                assert(has_text(sets_before, n) <==> exists|k: int| 0 <= k < i && entry_of(#[trigger] items@[k]) == Some(EntryView::NetSet(n)));
                assert(entry_of(items@[i as int]) == Some(entry@));
            }
            assert forall|n: Seq<char>| #[trigger] has_text(chains@, n) <==> exists|k: int|
                    0 <= k < i + 1 && entry_of(#[trigger] items@[k]) == Some(EntryView::Chain(n)) by {
                assert(has_text(chains_before, n) <==> exists|k: int| 0 <= k < i && entry_of(#[trigger] items@[k]) == Some(EntryView::Chain(n)));
                assert(entry_of(items@[i as int]) == Some(entry@));
            }
        }
        i += 1;
    }
    Some(TableContents { sets, chains })
}

/// An element in the report of a set.
#[derive(Debug)]
pub enum ListedElement {
    Prefix { addr: String, len: u8 },
    Address(String),
    Other,
}

/// The content of an element.
pub enum ElementView {
    Prefix { addr: Seq<char>, len: u8 },
    Address(Seq<char>),
    Other,
}

impl View for ListedElement {
    type V = ElementView;

    open spec fn view(&self) -> ElementView {
        match *self {
            ListedElement::Prefix { addr, len } => ElementView::Prefix { addr: addr@, len },
            ListedElement::Address(text) => ElementView::Address(text@),
            ListedElement::Other => ElementView::Other,
        }
    }
}

/// The prefix that an address and a length make, if they are a text and a small number.
pub open spec fn prefix_parts(addr: Option<Json>, len: Option<Json>) -> Option<ElementView> {
    match (addr, len) {
        (Some(Json::Text(addr)), Some(Json::Unsigned(len))) => if len <= 255 {
            Some(ElementView::Prefix { addr: addr@, len: len as u8 })
        } else {
            None
        },
        _ => None,
    }
}

/// The prefix that a record of an address and a length holds: each the only member with its
/// key, or both the items of an array.
pub open spec fn prefix_of(record: Json) -> Option<ElementView> {
    match record {
        Json::Object(_) => prefix_parts(field_of(record, "addr"@), field_of(record, "len"@)),
        Json::Array(items) => if items@.len() == 2 {
            prefix_parts(Some(items@[0]), Some(items@[1]))
        } else {
            None
        },
        _ => None,
    }
}

/// The member at `i` is the last with the key.
pub open spec fn last_key(members: Seq<Member>, key: Seq<char>, i: int) -> bool {
    &&& has_key(members, key, i)
    &&& forall|k: int| #[trigger] has_key(members, key, k) ==> k <= i
}

/// A member that claims to be a prefix is none.
pub open spec fn bad_prefix(members: Seq<Member>, i: int) -> bool {
    has_key(members, "prefix"@, i) && prefix_of(members[i].value) is None
}

/// What an element is: an address, a prefix, or something else that is passed over.
pub open spec fn element_of(element: Json) -> Option<ElementView> {
    match element {
        Json::Text(text) => Some(ElementView::Address(text@)),
        Json::Object(members) => if exists|i: int| bad_prefix(members@, i) {
            None
        } else if exists|i: int| last_key(members@, "prefix"@, i) {
            prefix_of(members@[choose|i: int| last_key(members@, "prefix"@, i)].value)
        } else {
            Some(ElementView::Other)
        },
        _ => Some(ElementView::Other),
    }
}

/// The elements that a reported set holds; it may hold none.
pub open spec fn element_items(elem: Option<Json>) -> Option<Seq<Json>> {
    match elem {
        None => Some(Seq::empty()),
        Some(Json::Null) => Some(Seq::empty()),
        Some(Json::Array(items)) => Some(items@),
        _ => None,
    }
}

/// The elements of the record of a set.
pub open spec fn set_items(record: Json) -> Option<Seq<Json>> {
    match record {
        Json::Object(members) => if forall|i: int| !(#[trigger] has_key(members@, "elem"@, i)) {
            element_items(None)
        } else if exists|i: int| only_key(members@, "elem"@, i) {
            element_items(Some(members@[choose|i: int| only_key(members@, "elem"@, i)].value))
        } else {
            None
        },
        Json::Array(items) => if items@.len() == 1 {
            element_items(Some(items@[0]))
        } else {
            None
        },
        _ => None,
    }
}

/// The elements that an entry in the report of a set brings. The entry is named by a single key,
/// or by a text alone if it is of a kind without content.
pub open spec fn entry_items(entry: Json) -> Option<Seq<Json>> {
    match entry {
        Json::Text(kind) => if kind@ == "metainfo"@ || kind@ == "set"@ {
            None
        } else {
            Some(Seq::empty())
        },
        Json::Object(members) => if members@.len() != 1 {
            None
        } else if members@[0].key@ == "metainfo"@ {
            Some(Seq::empty())
        } else if members@[0].key@ == "set"@ {
            set_items(members@[0].value)
        } else if members@[0].value is Null {
            Some(Seq::empty())
        } else {
            None
        },
        _ => None,
    }
}

/// The entry in the report of a set is well formed.
pub open spec fn entry_ok(entry: Json) -> bool {
    match entry_items(entry) {
        Some(items) => forall|j: int| 0 <= j < items.len() ==> element_of(#[trigger] items[j]) is Some,
        None => false,
    }
}

/// The report of a set is well formed.
pub open spec fn set_ok(report: Json) -> bool {
    match report_items(report) {
        Some(items) => forall|i: int| 0 <= i < items.len() ==> entry_ok(#[trigger] items[i]),
        None => false,
    }
}

/// What the items are, in order.
pub open spec fn elements_of(items: Seq<Json>) -> Seq<ElementView> {
    items.map_values(|item: Json| element_of(item)->0)
}

/// The elements that the entries bring, in order.
pub open spec fn entries_elements(entries: Seq<Json>) -> Seq<ElementView>
    decreases entries.len(),
{
    if entries.len() == 0 {
        Seq::empty()
    } else {
        entries_elements(entries.drop_last()) + elements_of(entry_items(entries.last())->0)
    }
}

/// The elements in a well-formed report of a set, in order.
pub open spec fn set_elements(report: Json) -> Seq<ElementView> {
    entries_elements(report_items(report)->0)
}

/// The network of an address and a prefix length, if both are valid.
pub open spec fn prefix_network(addr: Seq<char>, len: u8) -> Option<IpNet> {
    match parsed_address(addr) {
        Some(address) => if len <= address.0.width() {
            Some(IpNet { family: address.0, addr: address.1, prefix_len: len })
        } else {
            None
        },
        None => None,
    }
}

/// The network that an element names. Elements of other kinds name none.
pub open spec fn element_network(element: ElementView) -> Option<IpNet> {
    match element {
        ElementView::Prefix { addr, len } => prefix_network(addr, len),
        ElementView::Address(text) => named_network(text),
        ElementView::Other => None,
    }
}

/// The element should name a network and does not.
pub open spec fn invalid_element(element: ElementView) -> bool {
    !(element is Other) && element_network(element) is None
}

/// The element at `i` is the first that should name a network and does not.
pub open spec fn first_invalid_element(elements: Seq<ElementView>, i: int) -> bool {
    &&& 0 <= i < elements.len()
    &&& invalid_element(elements[i])
    &&& forall|k: int| 0 <= k < i ==> !invalid_element(#[trigger] elements[k])
}

/// No element fails to name a network.
pub open spec fn all_valid(elements: Seq<ElementView>) -> bool {
    forall|k: int| 0 <= k < elements.len() ==> !invalid_element(#[trigger] elements[k])
}

/// The element names `net`.
pub open spec fn element_names(element: ElementView, net: IpNet) -> bool {
    match element_network(element) {
        Some(n) => n.truncated() == net,
        None => false,
    }
}

/// `net` is in the set that the report describes.
pub open spec fn set_has(report: Json, net: IpNet) -> bool {
    exists|i: int| 0 <= i < set_elements(report).len() && element_names(#[trigger] set_elements(report)[i], net)
}

/// The prefix that a record holds, if it is well formed.
fn listed_prefix(record: &Json) -> (prefix: Option<ListedElement>)
    ensures
        match prefix {
            Some(p) => prefix_of(*record) == Some(p@),
            None => prefix_of(*record) is None,
        },
{
    let (addr, len): (Option<&Json>, Option<&Json>) = match record {
        Json::Object(_) => (field(record, "addr"), field(record, "len")),
        Json::Array(items) => if items.len() == 2 {
            (Some(&items[0]), Some(&items[1]))
        } else {
            (None, None)
        },
        _ => (None, None),
    };
    match (addr, len) {
        (Some(Json::Text(addr)), Some(Json::Unsigned(len))) => if *len <= 255 {
            Some(ListedElement::Prefix { addr: addr.clone(), len: *len as u8 })
        } else {
            None
        },
        _ => None,
    }
}

/// What an element is, if it is well formed.
pub fn listed_element(element: &Json) -> (result: Option<ListedElement>)
    ensures
        match result {
            Some(e) => element_of(*element) == Some(e@),
            None => element_of(*element) is None,
        },
{
    match element {
        Json::Text(text) => Some(ListedElement::Address(text.clone())),
        Json::Object(members) => {
            let wanted: String = "prefix".to_owned();
            let mut result: ListedElement = ListedElement::Other;
            let ghost mut last: int = -1;
            let mut i: usize = 0;
            while i < members.len()
                invariant
                    i <= members@.len(),
                    *element == Json::Object(*members),
                    wanted@ == "prefix"@,
                    -1 <= last < i,
                    forall|k: int| k < i && #[trigger] has_key(members@, "prefix"@, k) ==> k <= last,
                    forall|k: int| k < i ==> !(#[trigger] bad_prefix(members@, k)),
                    last == -1 ==> result@ == ElementView::Other,
                    last >= 0 ==> has_key(members@, "prefix"@, last) && prefix_of(members@[last].value) == Some(result@),
                decreases members@.len() - i,
            {
                if members[i].key == wanted {
                    match listed_prefix(&members[i].value) {
                        Some(prefix) => {
                            result = prefix;
                        },
                        None => {
                            assert(bad_prefix(members@, i as int));
                            return None;
                        },
                    }
                    proof {
                        last = i as int;
                    }
                }
                i += 1;
            }
            proof {
                assert forall|k: int| !(#[trigger] bad_prefix(members@, k)) by {}
                if last >= 0 {
                    assert(last_key(members@, "prefix"@, last));
                    let other = choose|k: int| last_key(members@, "prefix"@, k);
                    assert(has_key(members@, "prefix"@, other));
                    assert(other == last);
                }
            }
            Some(result)
        },
        _ => Some(ListedElement::Other),
    }
}

/// The items of the record of a set, if it is well formed.
fn record_items<'a>(record: &'a Json) -> (items: Option<Option<&'a Vec<Json>>>)
    ensures
        match items {
            Some(Some(list)) => set_items(*record) == Some(list@),
            Some(None) => set_items(*record) == Some(Seq::<Json>::empty()),
            None => set_items(*record) is None,
        },
{
    let elem: Option<&Json> = match record {
        Json::Object(members) => match find_member(members, "elem") {
            Occurrence::Absent => None,
            Occurrence::Once(value) => {
                proof {
                    let i = choose|i: int| #[trigger] only_key(members@, "elem"@, i) && *value == members@[i].value;
                    assert(has_key(members@, "elem"@, i));
                }
                Some(value)
            },
            Occurrence::Repeated => return None,
        },
        Json::Array(items) => if items.len() == 1 {
            Some(&items[0])
        } else {
            return None;
        },
        _ => return None,
    };
    match elem {
        None => Some(None),
        Some(Json::Null) => Some(None),
        Some(Json::Array(list)) => Some(Some(list)),
        _ => None,
    }
}

/// The items that an entry in the report of a set brings, if it is well formed.
fn listing_items<'a>(entry: &'a Json) -> (items: Option<Option<&'a Vec<Json>>>)
    ensures
        match items {
            Some(Some(list)) => entry_items(*entry) == Some(list@),
            Some(None) => entry_items(*entry) == Some(Seq::<Json>::empty()),
            None => entry_items(*entry) is None,
        },
{
    let metainfo: String = "metainfo".to_owned();
    let set_kind: String = "set".to_owned();
    match entry {
        Json::Text(kind) => if *kind == metainfo || *kind == set_kind {
            None
        } else {
            Some(None)
        },
        Json::Object(members) => if members.len() != 1 {
            None
        } else if members[0].key == metainfo {
            Some(None)
        } else if members[0].key == set_kind {
            record_items(&members[0].value)
        } else if matches!(members[0].value, Json::Null) {
            Some(None)
        } else {
            None
        },
        _ => None,
    }
}

/// The network of an address and a prefix length, if both are valid.
pub fn parse_prefix(address: &str, prefix_len: u8) -> (net: Option<IpNet>)
    ensures
        net == prefix_network(address@, prefix_len),
        net matches Some(n) ==> n.wf(),
{
    match parse_ip_addr(address) {
        Some((family, addr)) => if prefix_len <= family.bits() {
            Some(IpNet { family, addr, prefix_len })
        } else {
            None
        },
        None => None,
    }
}

/// Why the report of a set is refused.
#[derive(Debug)]
pub enum SetListingError {
    /// The report is not well formed.
    Malformed,
    /// An element does not name a network.
    InvalidNetwork(ListedElement),
}

/// The contents of a list of elements.
spec fn element_views(list: Seq<ListedElement>) -> Seq<ElementView> {
    list.map_values(|element: ListedElement| element@)
}

/// Adds the elements that an entry brings; false if it is not well formed.
fn collect_entry(entry: &Json, elements: &mut Vec<ListedElement>) -> (ok: bool)
    ensures
        ok == entry_ok(*entry),
        ok ==> element_views(final(elements)@) == element_views(old(elements)@) + elements_of(entry_items(*entry)->0),
{
    let items: &Vec<Json> = match listing_items(entry) {
        None => return false,
        Some(None) => {
            assert(element_views(elements@) =~= element_views(elements@) + elements_of(Seq::<Json>::empty()));
            return true;
        },
        Some(Some(items)) => items,
    };
    let mut j: usize = 0;
    while j < items.len()
        invariant
            j <= items@.len(),
            entry_items(*entry) == Some(items@),
            forall|k: int| 0 <= k < j ==> element_of(#[trigger] items@[k]) is Some,
            element_views(elements@) =~= element_views(old(elements)@) + elements_of(items@.take(j as int)),
        decreases items@.len() - j,
    {
        let ghost before = element_views(elements@);
        match listed_element(&items[j]) {
            Some(element) => {
                elements.push(element);
                proof {
                    let item = items@[j as int];
                    assert(element_views(elements@) =~= before.push(element@));
                    assert(items@.take(j + 1) =~= items@.take(j as int).push(item));
                    assert(elements_of(items@.take(j + 1)) =~= elements_of(items@.take(j as int)).push(element_of(item)->0));
                }
            },
            None => {
                assert(element_of(items@[j as int]) is None);
                return false;
            },
        }
        j += 1;
    }
    assert(items@.take(j as int) == items@);
    true
}

/// The elements that a report has, if it is well formed.
fn listed_elements(report: &Json) -> (elements: Option<Vec<ListedElement>>)
    ensures
        elements is Some <==> set_ok(*report),
        elements matches Some(list) ==> element_views(list@) == set_elements(*report),
{
    let items: &Vec<Json> = match field(report, "nftables") {
        Some(Json::Array(items)) => items,
        _ => return None,
    };
    let mut elements: Vec<ListedElement> = Vec::new();
    let mut i: usize = 0;
    while i < items.len()
        invariant
            i <= items@.len(),
            report_items(*report) == Some(items@),
            forall|k: int| 0 <= k < i ==> entry_ok(#[trigger] items@[k]),
            element_views(elements@) =~= entries_elements(items@.take(i as int)),
        decreases items@.len() - i,
    {
        if !collect_entry(&items[i], &mut elements) {
            proof {
                let all = report_items(*report)->0;
                assert(!entry_ok(all[i as int]));
            }
            return None;
        }
        assert(items@.take(i + 1).drop_last() == items@.take(i as int));
        i += 1;
    }
    assert(items@.take(i as int) == items@);
    Some(elements)
}

/// Some element before `n` names `net`.
spec fn named_before(elements: Seq<ElementView>, n: int, net: IpNet) -> bool {
    exists|k: int| 0 <= k < n && element_names(#[trigger] elements[k], net)
}

/// The networks of the set that a report describes, in ascending order. A network is named by
/// its lowest address.
pub fn read_set_elements(report: &Json) -> (result: Result<Vec<IpNet>, SetListingError>)
    ensures
        result == Err::<Vec<IpNet>, SetListingError>(SetListingError::Malformed) <==> !set_ok(*report),
        result is Ok <==> set_ok(*report) && all_valid(set_elements(*report)),
        result matches Err(SetListingError::InvalidNetwork(e)) ==> exists|i: int| #[trigger]
            first_invalid_element(set_elements(*report), i) && e@ == set_elements(*report)[i],
        result matches Ok(nets) ==> {
            &&& ascending(nets@)
            &&& all_wf(nets@)
            &&& all_truncated(nets@)
            &&& forall|net: IpNet| #[trigger] nets@.contains(net) <==> set_has(*report, net)
        },
{
    let elements: Vec<ListedElement> = match listed_elements(report) {
        Some(elements) => elements,
        None => return Err(SetListingError::Malformed),
    };
    let ghost all = set_elements(*report);
    let ghost list = elements@;
    let mut nets: Vec<IpNet> = Vec::new();
    for element in it: elements
        invariant
            it.seq() == list,
            element_views(list) == all,
            all == set_elements(*report),
            set_ok(*report),
            all_wf(nets@),
            all_truncated(nets@),
            forall|k: int| 0 <= k < it.index() ==> !invalid_element(#[trigger] all[k]),
            forall|net: IpNet| #[trigger] nets@.contains(net) <==> named_before(all, it.index() as int, net),
    {
        let ghost at = it.index();
        let ghost before = nets@;
        assert(element_views(list)[at] == element@);
        let net: Option<IpNet> = match &element {
            ListedElement::Prefix { addr, len } => parse_prefix(addr.as_str(), *len),
            ListedElement::Address(text) => parse_network(text.as_str()),
            ListedElement::Other => None,
        };
        assert(net == element_network(all[at]));
        match net {
            Some(net) => {
                nets.push(net.trunc());
                proof {
                    assert forall|n: IpNet| #[trigger] nets@.contains(n) <==> before.contains(n) || net.truncated() == n by {
                        lemma_push_contains(before, net.truncated(), n);
                    }
                }
            },
            None => {
                if !matches!(element, ListedElement::Other) {
                    assert(first_invalid_element(all, at as int));
                    return Err(SetListingError::InvalidNetwork(element));
                }
            },
        }
        proof {
            assert forall|n: IpNet| #[trigger] nets@.contains(n) <==> named_before(all, at + 1, n) by {
                assert(before.contains(n) <==> named_before(all, at as int, n));
                assert(element_names(all[at], n) <==> (net matches Some(m) && m.truncated() == n));
            }
        }
    }
    let set: Vec<IpNet> = sorted_set(&nets);
    proof {
        assert forall|k: int| 0 <= k < set@.len() implies (#[trigger] set@[k]).wf() && set@[k].is_truncated() by {
            assert(set@.contains(set@[k]));
            let j = nets@.index_of(set@[k]);
            assert(nets@[j].wf() && nets@[j].is_truncated());
        }
        assert forall|net: IpNet| #[trigger] set@.contains(net) <==> set_has(*report, net) by {
            assert(nets@.contains(net) <==> named_before(all, all.len() as int, net));
        }
    }
    Ok(set)
}

/// A reported prefix is read as it stands: the address that is read in its text, with the very
/// length that was reported. It must fit in 32 bits or in 128 bits.
pub proof fn law_prefix_is_read_as_it_stands(addr: Seq<char>, len: u8)
    ensures
        parsed_address(addr) is None ==> prefix_network(addr, len) is None,
        parsed_address(addr) matches Some((family, a)) ==> {
            let bits = match family {
                Family::V4 => 32int,
                Family::V6 => 128int,
            };
            &&& prefix_network(addr, len) is Some <==> len <= bits
            &&& prefix_network(addr, len) matches Some(net) ==> net.family == family && net.addr == a && net.prefix_len
                == len
        },
{
}

/// The name that an object is reported with: the text in its only field `name`.
pub open spec fn is_named(object: Json, name: Seq<char>) -> bool {
    field_of(object, "name"@) matches Some(Json::Text(text)) && text@ == name
}

/// Every entry of a table counts: a set or a chain is listed exactly if some entry ends in a
/// member that names it.
pub proof fn law_every_entry_is_listed(report: Json, name: Seq<char>)
    requires
        table_ok(report),
    ensures
        field_of(report, "nftables"@) matches Some(Json::Array(entries)) && {
            &&& table_lists(report, EntryView::NetSet(name)) <==> exists|i: int|
                0 <= i < entries@.len() && (#[trigger] entries@[i] matches Json::Object(members) && members@.len() > 0
                    && members@.last().key@ == "set"@ && is_named(members@.last().value, name))
            &&& table_lists(report, EntryView::Chain(name)) <==> exists|i: int|
                0 <= i < entries@.len() && (#[trigger] entries@[i] matches Json::Object(members) && members@.len() > 0
                    && members@.last().key@ == "chain"@ && is_named(members@.last().value, name))
        },
{
    let items = report_items(report)->0;
    reveal_strlit("set");
    reveal_strlit("chain");
    assert("set"@.len() == 3 && "chain"@.len() == 5);
    assert forall|i: int| 0 <= i < items.len() implies {
        &&& entry_of(#[trigger] items[i]) == Some(EntryView::NetSet(name)) <==> (items[i] matches Json::Object(members)
            && members@.len() > 0 && members@.last().key@ == "set"@ && is_named(members@.last().value, name))
        &&& entry_of(items[i]) == Some(EntryView::Chain(name)) <==> (items[i] matches Json::Object(members)
            && members@.len() > 0 && members@.last().key@ == "chain"@ && is_named(members@.last().value, name))
    } by {
        assert(entry_of(items[i]) is Some);
    }
    let entries = field_of(report, "nftables"@)->0->Array_0;
    assert(entries@ == items);
    if table_lists(report, EntryView::NetSet(name)) {
        let i = choose|i: int| 0 <= i < items.len() && entry_of(#[trigger] items[i]) == Some(EntryView::NetSet(name));
        assert(entries@[i] is Object);
    }
    if table_lists(report, EntryView::Chain(name)) {
        let i = choose|i: int| 0 <= i < items.len() && entry_of(#[trigger] items[i]) == Some(EntryView::Chain(name));
        assert(entries@[i] is Object);
    }
}

/// The report of a table is refused exactly if it has no list of entries, or one of them is no
/// object or has a set or a chain without a name.
pub proof fn law_table_report_is_refused(report: Json)
    ensures
        table_ok(report) <==> (field_of(report, "nftables"@) matches Some(Json::Array(entries)) && forall|i: int|
            0 <= i < entries@.len() ==> (#[trigger] entries@[i] matches Json::Object(members) && forall|m: int|
                0 <= m < members@.len() && ((#[trigger] members@[m]).key@ == "set"@ || members@[m].key@ == "chain"@)
                    ==> exists|name: Seq<char>| is_named(members@[m].value, name))),
{
    assert forall|object: Json| (exists|name: Seq<char>| is_named(object, name)) <==> #[trigger] name_of(object) is Some by {
        if name_of(object) is Some {
            assert(is_named(object, name_of(object)->0));
        }
    }
    if let Some(Json::Array(entries)) = field_of(report, "nftables"@) {
        assert forall|i: int| 0 <= i < entries@.len() implies (entry_of(#[trigger] entries@[i]) is Some <==> (entries@[i] matches Json::Object(members) && forall|m: int|
            0 <= m < members@.len() && ((#[trigger] members@[m]).key@ == "set"@ || members@[m].key@ == "chain"@)
                ==> exists|name: Seq<char>| is_named(members@[m].value, name))) by {
            if let Json::Object(members) = entries@[i] {
                assert forall|m: int| 0 <= m < members@.len() implies (member_entry(#[trigger] members@[m]) is None <==> (
                members@[m].key@ == "set"@ || members@[m].key@ == "chain"@) && !(exists|name: Seq<char>| is_named(members@[m].value, name))) by {
                    assert(name_of(members@[m].value) is Some <==> exists|name: Seq<char>| is_named(members@[m].value, name));
                }
            }
        }
    }
}

/// The item at `j` of the set in the entry at `i` of a report.
pub open spec fn element_at(report: Json, i: int, j: int) -> Option<Json> {
    match field_of(report, "nftables"@) {
        Some(Json::Array(entries)) => if 0 <= i < entries@.len() {
            match entries@[i] {
                Json::Object(members) => if members@.len() == 1 && members@[0].key@ == "set"@ {
                    match field_of(members@[0].value, "elem"@) {
                        Some(Json::Array(items)) => if 0 <= j < items@.len() {
                            Some(items@[j])
                        } else {
                            None
                        },
                        _ => None,
                    }
                } else {
                    None
                },
                _ => None,
            }
        } else {
            None
        },
        _ => None,
    }
}

/// The text is a network, or else the single address of that network.
pub open spec fn text_reads(text: Seq<char>, net: IpNet) -> bool {
    ||| parsed_network(text) == Some(net)
    ||| parsed_network(text) is None && parsed_address(text) == Some((net.family, net.addr)) && net.prefix_len == (
    match net.family {
        Family::V4 => 32u8,
        Family::V6 => 128u8,
    })
}

/// The text is a network or an address.
pub open spec fn is_readable(text: Seq<char>) -> bool {
    exists|net: IpNet| text_reads(text, net)
}

/// The address and the length, as they are reported, are those of the network.
pub open spec fn parts_read(addr: Option<Json>, len: Option<Json>, net: IpNet) -> bool {
    &&& addr matches Some(Json::Text(text)) && parsed_address(text@) == Some((net.family, net.addr))
    &&& len == Some(Json::Unsigned(net.prefix_len as u64))
    &&& net.prefix_len <= match net.family {
        Family::V4 => 32int,
        Family::V6 => 128int,
    }
}

/// The record of a prefix is that of the network: by the fields for the address and the length, or
/// by an array of the two.
pub open spec fn record_reads(record: Json, net: IpNet) -> bool {
    match record {
        Json::Object(_) => parts_read(field_of(record, "addr"@), field_of(record, "len"@), net),
        Json::Array(items) => items@.len() == 2 && parts_read(Some(items@[0]), Some(items@[1]), net),
        _ => false,
    }
}

/// The last member named `prefix` is at `m`.
pub open spec fn last_prefix(members: Seq<Member>, m: int) -> bool {
    &&& 0 <= m < members.len()
    &&& members[m].key@ == "prefix"@
    &&& forall|k: int| m < k < members.len() ==> (#[trigger] members[k]).key@ != "prefix"@
}

/// The element of a set is the network: as a text, or as a prefix.
pub open spec fn element_reads(element: Json, net: IpNet) -> bool {
    match element {
        Json::Text(text) => text_reads(text@, net),
        Json::Object(members) => exists|m: int| #[trigger] last_prefix(members@, m) && record_reads(members@[m].value, net),
        _ => false,
    }
}

proof fn lemma_record_reads(record: Json, net: IpNet)
    ensures
        record_reads(record, net) <==> (prefix_of(record) matches Some(prefix) && element_network(prefix) == Some(net)),
{
}

proof fn lemma_element_reads(element: Json, net: IpNet)
    requires
        element_of(element) is Some,
    ensures
        element_reads(element, net) <==> element_network(element_of(element)->0) == Some(net),
{
    if let Json::Object(members) = element {
        if exists|m: int| last_key(members@, "prefix"@, m) {
            let m = choose|m: int| last_key(members@, "prefix"@, m);
            assert(last_prefix(members@, m)) by {
                assert forall|k: int| m < k < members@.len() implies (#[trigger] members@[k]).key@ != "prefix"@ by {
                    assert(has_key(members@, "prefix"@, k) ==> k <= m);
                }
            }
            lemma_record_reads(members@[m].value, net);
            assert forall|k: int| #[trigger] last_prefix(members@, k) implies k == m by {
                assert(has_key(members@, "prefix"@, k) && has_key(members@, "prefix"@, m));
                if k < m {
                    assert(members@[m].key@ == "prefix"@);
                }
            }
        } else {
            assert forall|m: int| !(#[trigger] last_prefix(members@, m)) by {
                if last_prefix(members@, m) {
                    assert forall|k: int| #[trigger] has_key(members@, "prefix"@, k) implies k <= m by {
                        if k > m {
                            assert(members@[k].key@ != "prefix"@);
                        }
                    }
                    assert(last_key(members@, "prefix"@, m));
                }
            }
        }
    }
}

/// The record of a set with a list in its field `elem` has the items of that list.
proof fn lemma_set_items(record: Json)
    requires
        set_items(record) is Some,
    ensures
        match field_of(record, "elem"@) {
            Some(Json::Array(items)) => set_items(record) == Some(items@),
            _ => set_items(record) == Some(Seq::<Json>::empty()),
        },
{
    if let Json::Object(members) = record {
        if forall|i: int| !(#[trigger] has_key(members@, "elem"@, i)) {
            if exists|i: int| only_key(members@, "elem"@, i) {
                let i = choose|i: int| only_key(members@, "elem"@, i);
                assert(has_key(members@, "elem"@, i));
            }
        }
    }
}

/// The elements of entries, one by one.
proof fn lemma_entries_elements(entries: Seq<Json>, element: ElementView)
    ensures
        entries_elements(entries).contains(element) <==> exists|i: int, j: int|
            #![trigger entries[i], entry_items(entries[i])->0[j]]
            0 <= i < entries.len() && 0 <= j < entry_items(entries[i])->0.len() && element_of(
                entry_items(entries[i])->0[j],
            )->0 == element,
    decreases entries.len(),
{
    if entries.len() > 0 {
        let front = entries.drop_last();
        let before = entries_elements(front);
        let last = elements_of(entry_items(entries.last())->0);
        lemma_entries_elements(front, element);
        if entries_elements(entries).contains(element) {
            let k = (before + last).index_of(element);
            if k < before.len() {
                assert(before[k] == element);
                let (i, j) = choose|i: int, j: int|
                    #![trigger front[i], entry_items(front[i])->0[j]]
                    0 <= i < front.len() && 0 <= j < entry_items(front[i])->0.len() && element_of(
                        entry_items(front[i])->0[j],
                    )->0 == element;
                assert(entries[i] == front[i]);
                assert(element_of(entry_items(entries[i])->0[j])->0 == element);
            } else {
                let i = entries.len() - 1;
                let j = k - before.len();
                assert(last[j] == element);
                assert(element_of(entry_items(entries[i])->0[j])->0 == element);
            }
        }
        if exists|i: int, j: int|
            #![trigger entries[i], entry_items(entries[i])->0[j]]
            0 <= i < entries.len() && 0 <= j < entry_items(entries[i])->0.len() && element_of(
                entry_items(entries[i])->0[j],
            )->0 == element {
            let (i, j) = choose|i: int, j: int|
                #![trigger entries[i], entry_items(entries[i])->0[j]]
                0 <= i < entries.len() && 0 <= j < entry_items(entries[i])->0.len() && element_of(
                    entry_items(entries[i])->0[j],
                )->0 == element;
            if i < front.len() {
                assert(front[i] == entries[i]);
                assert(element_of(entry_items(front[i])->0[j])->0 == element);
                let k = before.index_of(element);
                assert((before + last)[k] == element);
            } else {
                assert((before + last)[before.len() + j] == element);
            }
        }
    }
}

/// Where an item of an entry stands in a well-formed report.
proof fn lemma_element_at(report: Json, i: int, j: int)
    requires
        set_ok(report),
    ensures
        ({
            let entries = report_items(report)->0;
            match element_at(report, i, j) {
                Some(item) => 0 <= i < entries.len() && 0 <= j < entry_items(entries[i])->0.len() && entry_items(
                    entries[i],
                )->0[j] == item && element_of(item) is Some,
                None => !(0 <= i < entries.len() && 0 <= j < entry_items(entries[i])->0.len()),
            }
        }),
{
    let entries = report_items(report)->0;
    if 0 <= i < entries.len() {
        assert(entry_ok(entries[i]));
        reveal_strlit("set");
        reveal_strlit("metainfo");
        assert("set"@.len() == 3 && "metainfo"@.len() == 8);
        if let Json::Object(members) = entries[i] {
            if members@.len() == 1 && members@[0].key@ == "set"@ {
                lemma_set_items(members@[0].value);
            }
        }
    }
}

/// Every element of a set counts, and nothing else: a network is in the set exactly if it is the
/// element at some place of some entry in the report. It is named by its lowest address.
pub proof fn law_every_element_counts(report: Json, net: IpNet)
    requires
        set_ok(report),
    ensures
        set_has(report, net) <==> exists|i: int, j: int, named: IpNet|
            element_at(report, i, j) is Some && #[trigger] element_reads(element_at(report, i, j)->0, named)
                && named.truncated() == net,
{
    let entries = report_items(report)->0;
    let elements = set_elements(report);
    if set_has(report, net) {
        let k = choose|k: int| 0 <= k < elements.len() && element_names(#[trigger] elements[k], net);
        let element = elements[k];
        assert(elements.contains(element));
        lemma_entries_elements(entries, element);
        let (i, j) = choose|i: int, j: int|
            #![trigger entries[i], entry_items(entries[i])->0[j]]
            0 <= i < entries.len() && 0 <= j < entry_items(entries[i])->0.len() && element_of(
                entry_items(entries[i])->0[j],
            )->0 == element;
        lemma_element_at(report, i, j);
        let named = element_network(element)->0;
        lemma_element_reads(element_at(report, i, j)->0, named);
        assert(element_reads(element_at(report, i, j)->0, named));
    }
    if exists|i: int, j: int, named: IpNet|
        element_at(report, i, j) is Some && #[trigger] element_reads(element_at(report, i, j)->0, named)
            && named.truncated() == net {
        let (i, j, named) = choose|i: int, j: int, named: IpNet|
            element_at(report, i, j) is Some && #[trigger] element_reads(element_at(report, i, j)->0, named)
                && named.truncated() == net;
        lemma_element_at(report, i, j);
        let item = element_at(report, i, j)->0;
        lemma_element_reads(item, named);
        let element = element_of(item)->0;
        assert(entries[i] == entries[i] && element_of(entry_items(entries[i])->0[j])->0 == element);
        lemma_entries_elements(entries, element);
        let k = elements.index_of(element);
        assert(element_names(elements[k], net));
    }
}

/// The set in a report is refused for an element exactly if that element, at whatever place it
/// stands, is a text or a prefix and no network.
pub proof fn law_invalid_element_is_refused(report: Json)
    requires
        set_ok(report),
    ensures
        all_valid(set_elements(report)) <==> forall|i: int, j: int|
            (#[trigger] element_at(report, i, j) matches Some(item) && (item is Text || (item matches Json::Object(members)
                && exists|m: int| last_prefix(members@, m)))) ==> exists|net: IpNet| element_reads(
                element_at(report, i, j)->0,
                net,
            ),
{
    let entries = report_items(report)->0;
    let elements = set_elements(report);
    assert forall|i: int, j: int| (#[trigger] element_at(report, i, j)) is Some implies ({
        let item = element_at(report, i, j)->0;
        let element = element_of(item)->0;
        &&& elements.contains(element)
        &&& invalid_element(element) <==> (item is Text || (item matches Json::Object(members) && exists|m: int|
            last_prefix(members@, m))) && !(exists|net: IpNet| element_reads(item, net))
    }) by {
        lemma_element_at(report, i, j);
        let item = element_at(report, i, j)->0;
        let element = element_of(item)->0;
        assert(entries[i] == entries[i] && element_of(entry_items(entries[i])->0[j])->0 == element);
        lemma_entries_elements(entries, element);
        assert forall|net: IpNet| element_reads(item, net) <==> element_network(element) == Some(net) by {
            lemma_element_reads(item, net);
        }
        if element_network(element) is Some {
            assert(element_reads(item, element_network(element)->0));
        }
        if let Json::Object(members) = item {
            if exists|m: int| last_prefix(members@, m) {
                let m = choose|m: int| last_prefix(members@, m);
                assert forall|k: int| #[trigger] has_key(members@, "prefix"@, k) implies k <= m by {
                    if k > m {
                        assert(members@[k].key@ != "prefix"@);
                    }
                }
                assert(last_key(members@, "prefix"@, m));
            }
            if exists|m: int| last_key(members@, "prefix"@, m) {
                let m = choose|m: int| last_key(members@, "prefix"@, m);
                assert forall|k: int| m < k < members@.len() implies (#[trigger] members@[k]).key@ != "prefix"@ by {
                    assert(has_key(members@, "prefix"@, k) ==> k <= m);
                }
                assert(last_prefix(members@, m));
                assert(!bad_prefix(members@, m));
            }
        }
    }
    assert forall|k: int| 0 <= k < elements.len() implies exists|i: int, j: int|
        (#[trigger] element_at(report, i, j)) is Some && element_of(element_at(report, i, j)->0)->0 == #[trigger] elements[k] by {
        assert(elements.contains(elements[k]));
        lemma_entries_elements(entries, elements[k]);
        let (i, j) = choose|i: int, j: int|
            #![trigger entries[i], entry_items(entries[i])->0[j]]
            0 <= i < entries.len() && 0 <= j < entry_items(entries[i])->0.len() && element_of(
                entry_items(entries[i])->0[j],
            )->0 == elements[k];
        lemma_element_at(report, i, j);
        assert(element_at(report, i, j) is Some);
    }
    if all_valid(elements) {
        assert forall|i: int, j: int|
            (#[trigger] element_at(report, i, j) matches Some(item) && (item is Text || (item matches Json::Object(members)
                && exists|m: int| last_prefix(members@, m)))) implies exists|net: IpNet| element_reads(
                element_at(report, i, j)->0,
                net,
            ) by {
            let element = element_of(element_at(report, i, j)->0)->0;
            let k = elements.index_of(element);
            assert(!invalid_element(elements[k]));
        }
    } else {
        let k = choose|k: int| 0 <= k < elements.len() && invalid_element(#[trigger] elements[k]);
        let (i, j) = choose|i: int, j: int|
            (#[trigger] element_at(report, i, j)) is Some && element_of(element_at(report, i, j)->0)->0 == elements[k];
        assert(element_at(report, i, j) is Some);
    }
}

/// The elements of a report are taken entry by entry and in order.
pub proof fn law_entries_are_read_in_order(first: Seq<Json>, second: Seq<Json>, entry: Json)
    ensures
        entries_elements(first + second) == entries_elements(first) + entries_elements(second),
        entry_items(entry) matches Some(items) ==> entries_elements(seq![entry]).len() == items.len() && forall|j: int|
            0 <= j < items.len() ==> #[trigger] entries_elements(seq![entry])[j] == element_of(items[j])->0,
    decreases second.len(),
{
    if second.len() == 0 {
        assert(first + second =~= first);
        assert(entries_elements(first + second) =~= entries_elements(first) + entries_elements(second));
    } else {
        assert((first + second).drop_last() =~= first + second.drop_last());
        law_entries_are_read_in_order(first, second.drop_last(), entry);
        assert(entries_elements(first + second) =~= entries_elements(first) + entries_elements(second));
    }
    let one = seq![entry];
    assert(one.drop_last() =~= Seq::<Json>::empty());
    assert(entries_elements(one.drop_last()) =~= Seq::<ElementView>::empty());
    assert(entries_elements(one) =~= elements_of(entry_items(entry)->0));
}

/// The record of a prefix is well formed: it has an address, which is a text, and a length, which
/// fits in eight bits.
pub open spec fn is_prefix_record(record: Json) -> bool {
    match record {
        Json::Object(_) => field_of(record, "addr"@) matches Some(Json::Text(_)) && (field_of(record, "len"@) matches Some(
            Json::Unsigned(len),
        ) && len <= 255),
        Json::Array(items) => items@.len() == 2 && items@[0] is Text && (items@[1] matches Json::Unsigned(len) && len
            <= 255),
        _ => false,
    }
}

/// An element is refused exactly if it is an object in which a prefix is not well formed.
pub proof fn law_element_is_refused(element: Json)
    ensures
        element_of(element) is None <==> (element matches Json::Object(members) && exists|m: int|
            0 <= m < members@.len() && (#[trigger] members@[m]).key@ == "prefix"@ && !is_prefix_record(members@[m].value)),
{
    assert forall|record: Json| is_prefix_record(record) <==> #[trigger] prefix_of(record) is Some by {}
    if let Json::Object(members) = element {
        if exists|m: int|
            0 <= m < members@.len() && (#[trigger] members@[m]).key@ == "prefix"@ && !is_prefix_record(members@[m].value) {
            let m = choose|m: int|
                0 <= m < members@.len() && (#[trigger] members@[m]).key@ == "prefix"@ && !is_prefix_record(members@[m].value);
            assert(prefix_of(members@[m].value) is None);
            assert(bad_prefix(members@, m));
        }
        if exists|m: int| bad_prefix(members@, m) {
            let m = choose|m: int| bad_prefix(members@, m);
            assert(prefix_of(members@[m].value) is None);
            assert(members@[m].key@ == "prefix"@ && !is_prefix_record(members@[m].value));
        } else if exists|m: int| last_key(members@, "prefix"@, m) {
            let m = choose|m: int| last_key(members@, "prefix"@, m);
            assert(!bad_prefix(members@, m));
        }
    }
}

/// The report of a set is refused exactly if it has no list of entries, an entry is none of those
/// that nft reports, the elements of a set are no list, or one of the elements is refused.
pub proof fn law_set_report_is_refused(report: Json)
    ensures
        set_ok(report) <==> (field_of(report, "nftables"@) matches Some(Json::Array(entries)) && forall|i: int|
            0 <= i < entries@.len() ==> match #[trigger] entries@[i] {
                Json::Text(kind) => kind@ != "metainfo"@ && kind@ != "set"@,
                Json::Object(members) => members@.len() == 1 && {
                    ||| members@[0].key@ == "metainfo"@
                    ||| members@[0].key@ == "set"@ && (members@[0].value is Object || members@[0].value is Array) && match field_of(
                        members@[0].value,
                        "elem"@,
                    ) {
                        Some(Json::Null) => true,
                        Some(Json::Array(items)) => forall|j: int|
                            0 <= j < items@.len() ==> element_of(#[trigger] items@[j]) is Some,
                        Some(_) => false,
                        None => members@[0].value matches Json::Object(fields) && forall|m: int|
                            0 <= m < fields@.len() ==> (#[trigger] fields@[m]).key@ != "elem"@,
                    }
                    ||| members@[0].key@ != "set"@ && members@[0].value is Null
                },
                _ => false,
            }),
{
    reveal_strlit("set");
    reveal_strlit("metainfo");
    assert("set"@.len() == 3 && "metainfo"@.len() == 8);
    if let Some(Json::Array(entries)) = field_of(report, "nftables"@) {
        assert forall|i: int| 0 <= i < entries@.len() implies (entry_ok(#[trigger] entries@[i]) <==> match entries@[i] {
            Json::Text(kind) => kind@ != "metainfo"@ && kind@ != "set"@,
            Json::Object(members) => members@.len() == 1 && {
                ||| members@[0].key@ == "metainfo"@
                ||| members@[0].key@ == "set"@ && (members@[0].value is Object || members@[0].value is Array) && match field_of(
                    members@[0].value,
                    "elem"@,
                ) {
                    Some(Json::Null) => true,
                    Some(Json::Array(items)) => forall|j: int|
                        0 <= j < items@.len() ==> element_of(#[trigger] items@[j]) is Some,
                    Some(_) => false,
                    None => members@[0].value matches Json::Object(fields) && forall|m: int|
                        0 <= m < fields@.len() ==> (#[trigger] fields@[m]).key@ != "elem"@,
                }
                ||| members@[0].key@ != "set"@ && members@[0].value is Null
            },
            _ => false,
        }) by {
            if let Json::Object(members) = entries@[i] {
                if members@.len() == 1 && members@[0].key@ == "set"@ {
                    if let Json::Object(fields) = members@[0].value {
                        if forall|m: int| 0 <= m < fields@.len() ==> (#[trigger] fields@[m]).key@ != "elem"@ {
                            assert forall|m: int| !(#[trigger] has_key(fields@, "elem"@, m)) by {}
                            if exists|m: int| only_key(fields@, "elem"@, m) {
                                let m = choose|m: int| only_key(fields@, "elem"@, m);
                                assert(has_key(fields@, "elem"@, m));
                            }
                        } else {
                            let m = choose|m: int| 0 <= m < fields@.len() && (#[trigger] fields@[m]).key@ == "elem"@;
                            assert(has_key(fields@, "elem"@, m));
                        }
                    }
                }
            }
        }
    }
}

/// What an element is, if it is not refused: a text as it stands; what the last prefix of an object
/// says; or something else.
pub proof fn law_element_is_taken_as_it_stands(element: Json, m: int)
    requires
        element_of(element) is Some,
    ensures
        element matches Json::Text(text) ==> element_of(element) == Some(ElementView::Address(text@)),
        !(element is Text) && !(element is Object) ==> element_of(element) == Some(ElementView::Other),
        element matches Json::Object(members) ==> {
            &&& (forall|k: int| 0 <= k < members@.len() ==> (#[trigger] members@[k]).key@ != "prefix"@) ==> element_of(element)
                == Some(ElementView::Other)
            &&& last_prefix(members@, m) ==> {
                let record = members@[m].value;
                let parts = match record {
                    Json::Array(items) => (Some(items@[0]), Some(items@[1])),
                    _ => (field_of(record, "addr"@), field_of(record, "len"@)),
                };
                &&& parts.0 matches Some(Json::Text(addr)) && (parts.1 matches Some(Json::Unsigned(len)) && len <= 255
                    && element_of(element) == Some(ElementView::Prefix { addr: addr@, len: len as u8 }))
            }
        },
{
    if let Json::Object(members) = element {
        if forall|k: int| 0 <= k < members@.len() ==> (#[trigger] members@[k]).key@ != "prefix"@ {
            if exists|k: int| last_key(members@, "prefix"@, k) {
                let k = choose|k: int| last_key(members@, "prefix"@, k);
                assert(members@[k].key@ != "prefix"@);
            }
        }
        if last_prefix(members@, m) {
            assert forall|k: int| #[trigger] has_key(members@, "prefix"@, k) implies k <= m by {
                if k > m {
                    assert(members@[k].key@ != "prefix"@);
                }
            }
            assert(has_key(members@, "prefix"@, m));
            assert(last_key(members@, "prefix"@, m));
            let other = choose|k: int| last_key(members@, "prefix"@, k);
            assert(has_key(members@, "prefix"@, other));
            assert(!bad_prefix(members@, m));
        }
    }
}

/// The element that a set is refused for is the first that is a text or a prefix and no network.
pub proof fn law_first_invalid_element(elements: Seq<ElementView>, i: int)
    requires
        0 <= i < elements.len(),
    ensures
        first_invalid_element(elements, i) <==> is_unreadable(elements[i]) && forall|k: int|
            0 <= k < i ==> !is_unreadable(#[trigger] elements[k]),
{
    assert forall|k: int| 0 <= k < elements.len() implies (invalid_element(#[trigger] elements[k]) <==> is_unreadable(elements[k])) by {
        if let ElementView::Address(text) = elements[k] {
            if named_network(text) is Some {
                assert(text_reads(text, named_network(text)->0));
            }
        }
    }
}

/// The element is a text or a prefix and no network.
pub open spec fn is_unreadable(element: ElementView) -> bool {
    match element {
        ElementView::Prefix { addr, len } => match parsed_address(addr) {
            Some((Family::V4, _)) => len > 32,
            Some((Family::V6, _)) => len > 128,
            None => true,
        },
        ElementView::Address(text) => !is_readable(text),
        ElementView::Other => false,
    }
}

/// A list of strings has the texts that stand in it, at whatever place, and no others.
pub proof fn law_list_has_its_texts(list: Seq<String>, text: Seq<char>)
    ensures
        has_text(list, text) <==> texts(list).contains(text),
{
    if has_text(list, text) {
        let i = choose|i: int| 0 <= i < list.len() && (#[trigger] list[i])@ == text;
        assert(texts(list)[i] == text);
    }
    if texts(list).contains(text) {
        let i = texts(list).index_of(text);
        assert(list[i]@ == text);
    }
}

/// The content of an element or an entry is all of it.
pub proof fn law_content_is_all_of_a_report(element: ListedElement, entry: TableListingEntry)
    ensures
        match element {
            ListedElement::Prefix { addr, len } => element@ == (ElementView::Prefix { addr: addr@, len }),
            ListedElement::Address(text) => element@ == ElementView::Address(text@),
            ListedElement::Other => element@ == ElementView::Other,
        },
        match entry {
            TableListingEntry::NetSet(name) => entry@ == EntryView::NetSet(name@),
            TableListingEntry::Chain(name) => entry@ == EntryView::Chain(name@),
            TableListingEntry::Other => entry@ == EntryView::Other,
        },
{
}

} // verus!
