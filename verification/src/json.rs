//! JSON documents as they stand in a text: members keep their order, and a key may occur twice.

use vstd::prelude::*;

verus! {

/// A JSON value.
#[derive(Debug)]
pub enum Json {
    Null,
    Bool(bool),
    /// A whole number that is not negative and fits in 64 bits.
    Unsigned(u64),
    /// Any other number.
    Number,
    Text(String),
    Array(Vec<Json>),
    Object(Vec<Member>),
}

/// A member of an object.
#[derive(Debug)]
pub struct Member {
    pub key: String,
    /// Whether the key is written with an escape.
    pub escaped: bool,
    pub value: Json,
}

/// The member at `i` has the key.
pub open spec fn has_key(members: Seq<Member>, key: Seq<char>, i: int) -> bool {
    0 <= i < members.len() && members[i].key@ == key
}

/// The member at `i`, and no other, has the key.
pub open spec fn only_key(members: Seq<Member>, key: Seq<char>, i: int) -> bool {
    &&& has_key(members, key, i)
    &&& forall|k: int| #[trigger] has_key(members, key, k) ==> k == i
}

/// The members with a key.
pub enum Occurrence<'a> {
    Absent,
    Once(&'a Json),
    Repeated,
}

/// How often a key occurs, and the value if it occurs once.
pub fn find_member<'a>(members: &'a Vec<Member>, key: &str) -> (found: Occurrence<'a>)
    ensures
        match found {
            Occurrence::Absent => forall|i: int| !(#[trigger] has_key(members@, key@, i)),
            Occurrence::Once(value) => exists|i: int| #[trigger]
                only_key(members@, key@, i) && *value == members@[i].value,
            Occurrence::Repeated => exists|i: int, k: int|
                i < k && #[trigger] has_key(members@, key@, i) && #[trigger] has_key(members@, key@, k),
        },
{
    let wanted: String = key.to_owned();
    let mut found: Option<usize> = None;
    let mut i: usize = 0;
    while i < members.len()
        invariant
            i <= members@.len(),
            wanted@ == key@,
            found matches Some(at) ==> at < i && has_key(members@, key@, at as int),
            forall|k: int| k < i && #[trigger] has_key(members@, key@, k) ==> found == Some(k as usize),
        decreases members@.len() - i,
    {
        if members[i].key == wanted {
            assert(has_key(members@, key@, i as int));
            if let Some(at) = found {
                assert(has_key(members@, key@, at as int));
                return Occurrence::Repeated;
            }
            found = Some(i);
        }
        i += 1;
    }
    match found {
        None => Occurrence::Absent,
        Some(at) => {
            assert(only_key(members@, key@, at as int));
            Occurrence::Once(&members[at].value)
        },
    }
}

/// What a record of the single field `name` holds: the value of the only member with that key,
/// or the only item of an array.
pub open spec fn field_of(record: Json, name: Seq<char>) -> Option<Json> {
    match record {
        Json::Object(members) => if exists|i: int| only_key(members@, name, i) {
            Some(members@[choose|i: int| only_key(members@, name, i)].value)
        } else {
            None
        },
        Json::Array(items) => if items@.len() == 1 {
            Some(items@[0])
        } else {
            None
        },
        _ => None,
    }
}

/// What a record of the single field `name` holds.
pub fn field<'a>(record: &'a Json, name: &str) -> (value: Option<&'a Json>)
    ensures
        match value {
            Some(v) => field_of(*record, name@) == Some(*v),
            None => field_of(*record, name@) is None,
        },
{
    match record {
        Json::Object(members) => match find_member(members, name) {
            Occurrence::Once(value) => Some(value),
            Occurrence::Absent => None,
            Occurrence::Repeated => None,
        },
        Json::Array(items) => if items.len() == 1 {
            Some(&items[0])
        } else {
            None
        },
        _ => None,
    }
}

/// The member at `i` is the only one with the key, and holds the value.
pub open spec fn is_only_member(record: Json, key: Seq<char>, i: int, value: Json) -> bool {
    record matches Json::Object(members) && {
        &&& 0 <= i < members@.len()
        &&& members@[i].key@ == key
        &&& members@[i].value == value
        &&& forall|k: int| 0 <= k < members@.len() && k != i ==> (#[trigger] members@[k]).key@ != key
    }
}

/// A field is what the only member with its key holds, wherever that member stands, or the only
/// item of an array. A key that is absent or occurs twice gives nothing.
pub proof fn law_field_is_the_only_member(record: Json, key: Seq<char>, value: Json)
    ensures
        field_of(record, key) == Some(value) <==> (exists|i: int| is_only_member(record, key, i, value)) || (record matches Json::Array(
            items,
        ) && items@.len() == 1 && items@[0] == value),
        record matches Json::Object(members) ==> (field_of(record, key) is None <==> (forall|i: int|
            0 <= i < members@.len() ==> (#[trigger] members@[i]).key@ != key) || (exists|i: int, k: int|
            0 <= i < k < members@.len() && (#[trigger] members@[i]).key@ == key && (#[trigger] members@[k]).key@ == key)),
{
    if let Json::Object(members) = record {
        if exists|i: int| only_key(members@, key, i) {
            let i = choose|i: int| only_key(members@, key, i);
            assert forall|k: int| 0 <= k < members@.len() && k != i implies (#[trigger] members@[k]).key@ != key by {
                assert(has_key(members@, key, k) ==> k == i);
            }
            assert(members@[i].key@ == key);
            if field_of(record, key) == Some(value) {
                assert(is_only_member(record, key, i, value));
            }
        } else if exists|i: int| 0 <= i < members@.len() && (#[trigger] members@[i]).key@ == key {
            let i = choose|i: int| 0 <= i < members@.len() && (#[trigger] members@[i]).key@ == key;
            assert(!only_key(members@, key, i));
            let k = choose|k: int| #[trigger] has_key(members@, key, k) && k != i;
            assert(members@[i].key@ == key && members@[k].key@ == key);
            if i < k {
                assert(0 <= i < k < members@.len());
            } else {
                assert(0 <= k < i < members@.len());
            }
        }
        assert forall|i: int| is_only_member(record, key, i, value) implies field_of(record, key) == Some(value) by {
            assert(has_key(members@, key, i));
            assert(only_key(members@, key, i));
            let other = choose|k: int| only_key(members@, key, k);
            assert(has_key(members@, key, other));
        }
    }
}

} // verus!
