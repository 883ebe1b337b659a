//! JSON values of `serde_json`, seen through what they hold.
//!
//! A `serde_json::Value` is opaque to the verifier. What it holds is the tree [`Json`], and each
//! operation that the library performs on a value is stated over that tree.

use vstd::prelude::*;

verus! {

/// A JSON tree. An object has no order of its keys. A number is one of the three forms that
/// `serde_json` keeps: an integer from zero up, a negative integer, or a floating-point number,
/// which stands here by its 64-bit pattern.
pub enum Json {
    Null,
    Bool(bool),
    Unsigned(u64),
    Negative(i64),
    Float(u64),
    Text(Seq<char>),
    Array(Seq<Json>),
    Object(Map<Seq<char>, Json>),
}

impl Json {
    /// What stands under `key`: null where the tree is no object or lacks the key.
    pub open spec fn member(self, key: Seq<char>) -> Json {
        match self {
            Json::Object(m) => if m.contains_key(key) {
                m[key]
            } else {
                Json::Null
            },
            _ => Json::Null,
        }
    }

    /// What stands at `index`: null where the tree is no array or is too short.
    pub open spec fn item(self, index: int) -> Json {
        match self {
            Json::Array(s) => if 0 <= index < s.len() {
                s[index]
            } else {
                Json::Null
            },
            _ => Json::Null,
        }
    }

    /// The text of a string.
    pub open spec fn text(self) -> Option<Seq<char>> {
        match self {
            Json::Text(s) => Some(s),
            _ => None,
        }
    }

    /// The items of an array.
    pub open spec fn items(self) -> Option<Seq<Json>> {
        match self {
            Json::Array(s) => Some(s),
            _ => None,
        }
    }

    /// The value of a non-negative integer.
    pub open spec fn unsigned(self) -> Option<u64> {
        match self {
            Json::Unsigned(n) => Some(n),
            _ => None,
        }
    }

    /// The text of a string, or `default` for any other tree.
    pub open spec fn text_or(self, default: Seq<char>) -> Seq<char> {
        match self {
            Json::Text(s) => s,
            _ => default,
        }
    }

    /// An object without entries.
    pub open spec fn empty() -> Json {
        Json::Object(Map::empty())
    }

    /// The object with `value` under `key`, in place of what stood there.
    pub open spec fn with(self, key: Seq<char>, value: Json) -> Json {
        Json::Object(self->Object_0.insert(key, value))
    }
}

/// `serde_json::Value`.
#[verifier::external_type_specification]
#[verifier::external_body]
pub struct ExValue(serde_json::Value);

/// `serde_json::Error`.
#[verifier::external_type_specification]
#[verifier::external_body]
pub struct ExError(serde_json::Error);

/// The tree that a value holds.
pub uninterp spec fn tree(v: serde_json::Value) -> Json;

/// The trees of a list of values.
pub open spec fn trees(vs: Seq<serde_json::Value>) -> Seq<Json> {
    vs.map_values(|v: serde_json::Value| tree(v))
}

/// The tree that `serde_json::from_str` reads from a text, if the text is JSON to it.
pub uninterp spec fn parsed(text: Seq<char>) -> Option<Json>;

/// The text that `serde_json` writes for a tree, without added white space.
pub uninterp spec fn written(j: Json) -> Seq<char>;

/// `serde_json::from_str` into a `Value`: the tree that the text denotes, or an error where it
/// denotes none.
#[verifier::external_body]
fn parse(text: &str) -> (r: Result<serde_json::Value, serde_json::Error>)
    ensures
        r matches Ok(v) ==> parsed(text@) == Some(tree(v)),
        r is Err ==> parsed(text@) is None,
{
    serde_json::from_str(text)
}

/// `Value::to_string`: the text of the tree.
#[verifier::external_body]
pub(crate) fn write_text(v: &serde_json::Value) -> (r: String)
    ensures
        r@ == written(tree(*v)),
{
    v.to_string()
}

/// Indexing a `Value` by a key: what stands under the key, or null.
#[verifier::external_body]
pub(crate) fn member<'a>(v: &'a serde_json::Value, key: &str) -> (r: &'a serde_json::Value)
    ensures
        tree(*r) == tree(*v).member(key@),
{
    &v[key]
}

/// Indexing a `Value` by a position: what stands at the position, or null.
#[verifier::external_body]
pub(crate) fn item(v: &serde_json::Value, index: usize) -> (r: &serde_json::Value)
    ensures
        tree(*r) == tree(*v).item(index as int),
{
    &v[index]
}

/// `Value::as_str`: the text of a string, and nothing for any other value.
#[verifier::external_body]
pub(crate) fn as_text(v: &serde_json::Value) -> (r: Option<&str>)
    ensures
        r matches Some(s) ==> tree(*v).text() == Some(s@),
        r is None ==> tree(*v).text() is None,
{
    v.as_str()
}

/// `Value::as_array`: the items of an array, and nothing for any other value.
#[verifier::external_body]
pub(crate) fn as_items(v: &serde_json::Value) -> (r: Option<&Vec<serde_json::Value>>)
    ensures
        r matches Some(s) ==> tree(*v).items() == Some(trees(s@)),
        r is None ==> tree(*v).items() is None,
{
    v.as_array()
}

/// `Value::as_u64`: the value of a non-negative integer, and nothing for any other value.
#[verifier::external_body]
pub(crate) fn as_unsigned(v: &serde_json::Value) -> (r: Option<u64>)
    ensures
        r == tree(*v).unsigned(),
{
    v.as_u64()
}

/// Assigning to a `Value` indexed by a key: the entry is added or replaced. The value must be an
/// object; serde_json also takes null for one, which the library never hands it.
#[verifier::external_body]
pub(crate) fn put(v: &mut serde_json::Value, key: &str, item: serde_json::Value)
    requires
        tree(*old(v)) is Object,
    ensures
        tree(*final(v)) == tree(*old(v)).with(key@, tree(item)),
{
    v[key] = item;
}

/// `serde_json::Map::new` as a `Value`: an object without entries.
#[verifier::external_body]
pub(crate) fn object() -> (r: serde_json::Value)
    ensures
        tree(r) == Json::empty(),
{
    serde_json::Value::Object(serde_json::Map::new())
}

/// The variant `Value::String`: a string.
#[verifier::external_body]
pub(crate) fn text(s: String) -> (r: serde_json::Value)
    ensures
        tree(r) == Json::Text(s@),
{
    serde_json::Value::String(s)
}

/// The variant `Value::Array`: a list of values.
#[verifier::external_body]
pub(crate) fn array(items: Vec<serde_json::Value>) -> (r: serde_json::Value)
    ensures
        tree(r) == Json::Array(trees(items@)),
{
    serde_json::Value::Array(items)
}

/// The variant `Value::Bool`: a truth value.
#[verifier::external_body]
pub(crate) fn boolean(b: bool) -> (r: serde_json::Value)
    ensures
        tree(r) == Json::Bool(b),
{
    serde_json::Value::Bool(b)
}

/// `Value::from` for a `u64`: a non-negative integer.
#[verifier::external_body]
pub(crate) fn unsigned(n: u64) -> (r: serde_json::Value)
    ensures
        tree(r) == Json::Unsigned(n),
{
    serde_json::Value::from(n)
}

/// Adding a value to a list adds its tree to the list's.
pub proof fn lemma_trees_push(vs: Seq<serde_json::Value>, v: serde_json::Value)
    ensures
        trees(vs.push(v)) == trees(vs).push(tree(v)),
{
    assert(trees(vs.push(v)) =~= trees(vs).push(tree(v)));
}

/// The text under a key, or `default` where there is none.
pub fn text_or(v: &serde_json::Value, key: &str, default: &str) -> (r: String)
    ensures
        r@ == tree(*v).member(key@).text_or(default@),
{
    match as_text(member(v, key)) {
        Some(s) => s.to_owned(),
        None => default.to_owned(),
    }
}

/// The value that a text denotes, if it is JSON.
pub fn read(text: &str) -> (r: Option<serde_json::Value>)
    ensures
        r matches Some(v) ==> parsed(text@) == Some(tree(v)),
        r is None ==> parsed(text@) is None,
{
    match parse(text) {
        Ok(v) => Some(v),
        Err(_) => None,
    }
}

// ---- laws ---------------------------------------------------------------------------------

/// What is put under a key is found under it, and under other keys stands what stood there.
pub proof fn law_entries_are_found(
    entries: Map<Seq<char>, Json>,
    key: Seq<char>,
    value: Json,
    other: Seq<char>,
)
    ensures
        Json::Object(entries).with(key, value).member(key) == value,
        other != key ==> Json::Object(entries).with(key, value).member(other) == Json::Object(
            entries,
        ).member(other),
        Json::empty().member(key) == Json::Null,
        entries.contains_key(key) ==> Json::Object(entries).member(key) == entries[key],
        !entries.contains_key(key) ==> Json::Object(entries).member(key) == Json::Null,
{
}

/// The items of an array are found by their positions, and nothing beyond them; only an array has
/// items, and only an object has members.
pub proof fn law_items_are_found(items: Seq<Json>, i: int, other: Json, key: Seq<char>)
    ensures
        0 <= i < items.len() ==> Json::Array(items).item(i) == items[i],
        i < 0 || i >= items.len() ==> Json::Array(items).item(i) == Json::Null,
        !(other is Array) ==> other.item(i) == Json::Null && other.items() is None,
        !(other is Object) ==> other.member(key) == Json::Null,
        Json::Array(items).items() == Some(items),
{
}

/// Only a string has a text, and only a number from zero up without a fraction is one.
pub proof fn law_texts_and_numbers_are_found(s: Seq<char>, n: u64, other: Json, default: Seq<char>)
    ensures
        Json::Text(s).text() == Some(s),
        Json::Text(s).text_or(default) == s,
        !(other is Text) ==> other.text() is None && other.text_or(default) == default,
        Json::Unsigned(n).unsigned() == Some(n),
        !(other is Unsigned) ==> other.unsigned() is None,
{
}

/// A list of values holds the tree of each, in order.
pub proof fn law_trees_are_of_the_values(vs: Seq<serde_json::Value>)
    ensures
        trees(vs).len() == vs.len(),
        forall|i: int| 0 <= i < vs.len() ==> #[trigger] trees(vs)[i] == tree(vs[i]),
{
}

} // verus!
