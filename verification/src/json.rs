//! JSON values as `serde_json` holds them, and what its accessors say about them.

use vstd::prelude::*;

use crate::text;

verus! {

/// What a JSON value holds. The entries of an object stand in the order in which `serde_json`
/// walks them; no key occurs twice.
pub enum JsonTree {
    Null,
    Bool(bool),
    /// A number: how it is printed, its value where it is an unsigned integer, and how its
    /// floating-point value is printed.
    Number { printed: Seq<char>, unsigned: Option<u64>, float_printed: Seq<char> },
    Text(Seq<char>),
    List(Seq<JsonTree>),
    Object(Seq<(Seq<char>, JsonTree)>),
}

impl JsonTree {
    /// The value under a key of an object.
    pub open spec fn entry(self, key: Seq<char>) -> Option<JsonTree> {
        match self {
            JsonTree::Object(entries) => if exists|i: int|
                0 <= i < entries.len() && (#[trigger] entries[i]).0 == key {
                Some(entries[choose|i: int|
                    0 <= i < entries.len() && (#[trigger] entries[i]).0 == key].1)
            } else {
                None
            },
            _ => None,
        }
    }

    pub open spec fn text(self) -> Option<Seq<char>> {
        match self {
            JsonTree::Text(s) => Some(s),
            _ => None,
        }
    }

    pub open spec fn unsigned(self) -> Option<u64> {
        match self {
            JsonTree::Number { unsigned, .. } => unsigned,
            _ => None,
        }
    }

    pub open spec fn boolean(self) -> Option<bool> {
        match self {
            JsonTree::Bool(b) => Some(b),
            _ => None,
        }
    }

    pub open spec fn list(self) -> Option<Seq<JsonTree>> {
        match self {
            JsonTree::List(items) => Some(items),
            _ => None,
        }
    }

    /// The text under a key.
    pub open spec fn text_at(self, key: Seq<char>) -> Option<Seq<char>> {
        match self.entry(key) {
            Some(v) => v.text(),
            None => None,
        }
    }

    pub open spec fn text_or(self, key: Seq<char>, default: Seq<char>) -> Seq<char> {
        match self.text_at(key) {
            Some(s) => s,
            None => default,
        }
    }

    /// The object with another value under one of its keys.
    pub open spec fn with_entry(self, key: Seq<char>, item: JsonTree) -> JsonTree {
        match self {
            JsonTree::Object(entries) => JsonTree::Object(
                entries.map_values(
                    |e: (Seq<char>, JsonTree)|
                        if e.0 == key {
                            (key, item)
                        } else {
                            e
                        },
                ),
            ),
            _ => self,
        }
    }

    pub open spec fn unsigned_at(self, key: Seq<char>) -> Option<u64> {
        match self.entry(key) {
            Some(v) => v.unsigned(),
            None => None,
        }
    }

    pub open spec fn boolean_at(self, key: Seq<char>) -> Option<bool> {
        match self.entry(key) {
            Some(v) => v.boolean(),
            None => None,
        }
    }

    pub open spec fn list_at(self, key: Seq<char>) -> Option<Seq<JsonTree>> {
        match self.entry(key) {
            Some(v) => v.list(),
            None => None,
        }
    }
}

/// A JSON value of `serde_json`.
#[verifier::external_type_specification]
#[verifier::external_body]
pub struct ExValue(serde_json::Value);

/// What a `serde_json::Value` holds.
pub uninterp spec fn json_tree(v: serde_json::Value) -> JsonTree;

/// What `serde_json::from_str` makes of a text: what it holds, or what the error says.
pub uninterp spec fn json_read(s: Seq<char>) -> Result<JsonTree, Seq<char>>;

/// What a text holds; `None` where it is not JSON.
pub open spec fn json_parsed(s: Seq<char>) -> Option<JsonTree> {
    match json_read(s) {
        Ok(t) => Some(t),
        Err(_) => None,
    }
}

/// What the error says where a text is not JSON.
pub open spec fn json_error(s: Seq<char>) -> Seq<char> {
    match json_read(s) {
        Ok(_) => Seq::empty(),
        Err(e) => e,
    }
}

/// How `Value::to_string` prints a value.
pub uninterp spec fn json_printed(t: JsonTree) -> Seq<char>;

/// How `serde_json::to_string_pretty` prints a value.
pub uninterp spec fn json_pretty(t: JsonTree) -> Seq<char>;

pub open spec fn json_trees(v: Seq<serde_json::Value>) -> Seq<JsonTree> {
    v.map_values(|x: serde_json::Value| json_tree(x))
}

/// `serde_json::from_str`, asked for a `Value`: what comes back, the value or the error's
/// message, depends on the text alone.
#[verifier::external_body]
pub(crate) fn parse_value(s: &str) -> (r: Result<serde_json::Value, String>)
    ensures
        match r {
            Ok(v) => json_read(s@) == Ok::<JsonTree, Seq<char>>(json_tree(v)),
            Err(e) => json_read(s@) == Err::<JsonTree, Seq<char>>(e@),
        },
{
    serde_json::from_str(s).map_err(|e| e.to_string())
}

/// `Value::get` with a string: the value under the key, in an object that has it.
#[verifier::external_body]
pub(crate) fn get<'a>(v: &'a serde_json::Value, key: &str) -> (r: Option<&'a serde_json::Value>)
    ensures
        match r {
            Some(x) => json_tree(*v).entry(key@) == Some(json_tree(*x)),
            None => json_tree(*v).entry(key@) is None,
        },
{
    v.get(key)
}

/// `Value::as_str`: the text, of a string.
#[verifier::external_body]
pub(crate) fn as_str(v: &serde_json::Value) -> (r: Option<String>)
    ensures
        match r {
            Some(s) => json_tree(*v).text() == Some(s@),
            None => json_tree(*v).text() is None,
        },
{
    v.as_str().map(|s| s.to_string())
}

/// `Value::as_u64`: the number, where it is an integer that fits.
#[verifier::external_body]
pub(crate) fn as_u64(v: &serde_json::Value) -> (r: Option<u64>)
    ensures
        r == json_tree(*v).unsigned(),
{
    v.as_u64()
}

/// `Value::as_bool`: the truth value, of a boolean.
#[verifier::external_body]
pub(crate) fn as_bool(v: &serde_json::Value) -> (r: Option<bool>)
    ensures
        r == json_tree(*v).boolean(),
{
    v.as_bool()
}

/// `Value::as_array`: the items, of a list.
#[verifier::external_body]
pub(crate) fn as_array(v: &serde_json::Value) -> (r: Option<&Vec<serde_json::Value>>)
    ensures
        match r {
            Some(items) => json_tree(*v).list() == Some(json_trees(items@)),
            None => json_tree(*v).list() is None,
        },
{
    v.as_array()
}

/// `Value::as_object`: the entries, of an object, in the order in which its map walks them.
#[verifier::external_body]
pub(crate) fn as_object(v: &serde_json::Value) -> (r: Option<Vec<(String, serde_json::Value)>>)
    ensures
        match r {
            Some(entries) => json_tree(*v) == JsonTree::Object(
                entries@.map_values(|e: (String, serde_json::Value)| (e.0@, json_tree(e.1))),
            ),
            None => !(json_tree(*v) is Object),
        },
{
    v.as_object().map(|m| m.iter().map(|(k, x)| (k.clone(), x.clone())).collect())
}

/// `Value::as_number` and the number's `Display`: how a number is printed.
#[verifier::external_body]
pub(crate) fn number_text(v: &serde_json::Value) -> (r: Option<String>)
    ensures
        match r {
            Some(s) => json_tree(*v) is Number && json_tree(*v)->printed == s@,
            None => !(json_tree(*v) is Number),
        },
{
    v.as_number().map(|n| n.to_string())
}

/// `Value::as_f64` and that float's `Display`: the floating-point value of a number, printed.
#[verifier::external_body]
pub(crate) fn float_text(v: &serde_json::Value) -> (r: Option<String>)
    ensures
        match r {
            Some(s) => json_tree(*v) is Number && json_tree(*v)->float_printed == s@,
            None => !(json_tree(*v) is Number),
        },
{
    v.as_f64().map(|x| x.to_string())
}

/// `Value::to_string`: the value printed without white space.
#[verifier::external_body]
pub(crate) fn to_text(v: &serde_json::Value) -> (r: String)
    ensures
        r@ == json_printed(json_tree(*v)),
{
    v.to_string()
}

/// `serde_json::to_string_pretty` on a `Value`, which has only string keys and so does not fail.
#[verifier::external_body]
pub(crate) fn to_pretty_text(v: &serde_json::Value) -> (r: Result<String, String>)
    ensures
        r is Ok,
        r->Ok_0@ == json_pretty(json_tree(*v)),
{
    serde_json::to_string_pretty(v).map_err(|e| e.to_string())
}

/// `Value::clone`: a value that holds the same.
#[verifier::external_body]
pub(crate) fn copy_value(v: &serde_json::Value) -> (r: serde_json::Value)
    ensures
        json_tree(r) == json_tree(*v),
{
    v.clone()
}

/// `Value::Array`: the list of the given values.
#[verifier::external_body]
pub(crate) fn list_value(items: Vec<serde_json::Value>) -> (r: serde_json::Value)
    ensures
        json_tree(r) == JsonTree::List(json_trees(items@)),
{
    serde_json::Value::Array(items)
}

/// Assignment through `Value::index_mut`: the value under a key that an object has is replaced.
/// On anything but an object the index panics, so the key is asked for.
#[verifier::external_body]
pub(crate) fn with_item(v: serde_json::Value, key: &str, item: serde_json::Value) -> (r:
    serde_json::Value)
    requires
        json_tree(v).entry(key@) is Some,
    ensures
        json_tree(r) == json_tree(v).with_entry(key@, json_tree(item)),
{
    let mut out = v;
    out[key] = item;
    out
}

// ---- Reading an entry of an object ----

pub fn text_at(v: &serde_json::Value, key: &str) -> (r: Option<String>)
    ensures
        match r {
            Some(s) => json_tree(*v).text_at(key@) == Some(s@),
            None => json_tree(*v).text_at(key@) is None,
        },
{
    match get(v, key) {
        Some(x) => as_str(x),
        None => None,
    }
}

pub fn unsigned_at(v: &serde_json::Value, key: &str) -> (r: Option<u64>)
    ensures
        r == json_tree(*v).unsigned_at(key@),
{
    match get(v, key) {
        Some(x) => as_u64(x),
        None => None,
    }
}

pub fn bool_at(v: &serde_json::Value, key: &str) -> (r: Option<bool>)
    ensures
        r == json_tree(*v).boolean_at(key@),
{
    match get(v, key) {
        Some(x) => as_bool(x),
        None => None,
    }
}

pub fn list_at<'a>(v: &'a serde_json::Value, key: &str) -> (r: Option<&'a Vec<serde_json::Value>>)
    ensures
        match r {
            Some(items) => json_tree(*v).list_at(key@) == Some(json_trees(items@)),
            None => json_tree(*v).list_at(key@) is None,
        },
{
    match get(v, key) {
        Some(x) => as_array(x),
        None => None,
    }
}

/// The text under a key, or the given one where there is none.
pub fn text_or(v: &serde_json::Value, key: &str, default: &str) -> (r: String)
    ensures
        r@ == json_tree(*v).text_or(key@, default@),
{
    match text_at(v, key) {
        Some(s) => s,
        None => text::copy_text(default),
    }
}

/// An object's entry is one that stands under its key, a value is of one kind only, and an entry that
/// is replaced is the new one from then on.
pub proof fn law_entries_stand_under_their_keys(
    entries: Seq<(Seq<char>, JsonTree)>,
    key: Seq<char>,
    item: JsonTree,
    i: int,
)
    requires
        0 <= i < entries.len(),
    ensures
        ({
            let v = JsonTree::Object(entries);
            let after = v.with_entry(key, item);
            &&& v.entry(key) matches Some(e) ==> entries.contains((key, e))
            &&& entries[i].0 == key ==> v.entry(key) is Some
            &&& (forall|j: int| 0 <= j < entries.len() ==> (#[trigger] entries[j]).0 != key)
                ==> v.entry(key) is None && after == v
            &&& entries[i].0 == key ==> after.entry(key) == Some(item)
            &&& v.entry(key) == Some(item) ==> v.text_at(key) == item.text() && v.unsigned_at(key)
                == item.unsigned() && v.boolean_at(key) == item.boolean() && v.list_at(key)
                == item.list()
            &&& v.entry(key) is None ==> v.text_at(key) is None && v.unsigned_at(key) is None
                && v.boolean_at(key) is None && v.list_at(key) is None
        }),
{
    let v = JsonTree::Object(entries);
    let after = v.with_entry(key, item);
    if v.entry(key) is Some {
        let e = v.entry(key)->Some_0;
        if !entries.contains((key, e)) {
            assert forall|j: int| 0 <= j < entries.len() && (#[trigger] entries[j]).0 == key implies entries[j].1
                != e by {
                assert(entries[j] == (key, entries[j].1));
            }
        }
    }
    match after {
        JsonTree::Object(changed) => {
            assert(changed.len() == entries.len());
            assert forall|k: int| 0 <= k < changed.len() implies (#[trigger] changed[k]).0 == entries[k].0
                && (entries[k].0 == key ==> changed[k].1 == item) && (entries[k].0 != key ==> changed[k]
                == entries[k]) by {}
            if forall|j: int| 0 <= j < entries.len() ==> (#[trigger] entries[j]).0 != key {
                assert(changed =~= entries);
            }
            if entries[i].0 == key {
                assert(changed[i].0 == key);
                let k = choose|k: int| 0 <= k < changed.len() && (#[trigger] changed[k]).0 == key;
                assert(entries[k].0 == key);
            }
        },
        _ => {},
    }
}

/// What a value is read as goes by its kind, and where a text is missing another stands in for it.
pub proof fn law_values_are_read_by_kind(
    v: JsonTree,
    s: Seq<char>,
    b: bool,
    items: Seq<JsonTree>,
    key: Seq<char>,
    other: Seq<char>,
)
    ensures
        JsonTree::Text(s).text() == Some(s),
        JsonTree::Bool(b).boolean() == Some(b),
        JsonTree::List(items).list() == Some(items),
        v.text() is Some ==> v is Text,
        v.boolean() is Some ==> v is Bool,
        v.list() is Some ==> v is List,
        v.unsigned() is Some ==> v is Number,
        v.text_at(key) matches Some(t) ==> v.text_or(key, other) == t,
        v.text_at(key) is None ==> v.text_or(key, other) == other,
        v !is Object ==> v.entry(key) is None,
{
}

} // verus!
