//! JSON values: what a `serde_json::Value` holds, how it is read and how it is built.
use vstd::prelude::*;

verus! {

/// What a JSON value holds. A number that is no integer keeps only its kind.
#[verifier::ext_equal]
pub enum Json {
    Null,
    Bool(bool),
    Int(int),
    Fraction,
    Text(Seq<char>),
    List(Seq<Json>),
    Record(Map<Seq<char>, Json>),
}

impl Json {
    /// The value that a record holds under a key.
    pub open spec fn field(self, key: Seq<char>) -> Option<Json> {
        if self is Record && self->Record_0.contains_key(key) {
            Some(self->Record_0[key])
        } else {
            None
        }
    }

    /// The value that a list holds at a position.
    pub open spec fn item(self, index: int) -> Option<Json> {
        if self is List && 0 <= index < self->List_0.len() {
            Some(self->List_0[index])
        } else {
            None
        }
    }

    /// The characters of a text.
    pub open spec fn text(self) -> Option<Seq<char>> {
        if self is Text {
            Some(self->Text_0)
        } else {
            None
        }
    }

    /// The number, where it is an integer of 64 bits.
    pub open spec fn int64(self) -> Option<i64> {
        if self is Int && i64::MIN <= self->Int_0 <= i64::MAX {
            Some(self->Int_0 as i64)
        } else {
            None
        }
    }
}

/// `serde_json::Value`, carried as an opaque value.
#[verifier::external_type_specification]
#[verifier::external_body]
pub struct ExValue(serde_json::Value);

/// `serde_json::Map`, carried as an opaque value.
#[verifier::external_type_specification]
#[verifier::external_body]
#[verifier::reject_recursive_types(K)]
#[verifier::reject_recursive_types(V)]
pub struct ExMap<K, V>(serde_json::Map<K, V>);

/// `serde_json::Error`, carried as an opaque value.
#[verifier::external_type_specification]
#[verifier::external_body]
pub struct ExError(serde_json::Error);

/// What a `serde_json::Value` holds.
pub uninterp spec fn contents(value: serde_json::Value) -> Json;

/// What a `serde_json::Map` holds under its keys.
pub uninterp spec fn entries(map: serde_json::Map<String, serde_json::Value>) -> Map<Seq<char>, Json>;

/// What `serde_json::from_str` reads from a text; `None` where it reports an error.
pub uninterp spec fn parsed(text: Seq<char>) -> Option<Json>;

/// What each value of a sequence holds.
pub open spec fn all_contents(values: Seq<serde_json::Value>) -> Seq<Json> {
    Seq::new(values.len(), |i: int| contents(values[i]))
}

/// Calls `serde_json::from_str`: a function of the text alone, whose result is named
/// `parsed`.
#[verifier::external_body]
pub(crate) fn parse(text: &str) -> (r: Result<serde_json::Value, serde_json::Error>)
    ensures
        match r {
            Ok(value) => parsed(text@) == Some(contents(value)),
            Err(_) => parsed(text@) is None,
        },
{
    serde_json::from_str::<serde_json::Value>(text)
}

/// Calls `serde_json::Value::get` with a key: the value under that key, where the value is
/// an object that has the key.
#[verifier::external_body]
pub(crate) fn field<'a>(value: &'a serde_json::Value, key: &str) -> (r: Option<
    &'a serde_json::Value,
>)
    ensures
        match r {
            Some(inner) => contents(*value).field(key@) == Some(contents(*inner)),
            None => contents(*value).field(key@) is None,
        },
{
    value.get(key)
}

/// Calls `serde_json::Value::get` with a position: the value at that position, where the
/// value is an array that is long enough.
#[verifier::external_body]
pub(crate) fn item<'a>(value: &'a serde_json::Value, index: usize) -> (r: Option<
    &'a serde_json::Value,
>)
    ensures
        match r {
            Some(inner) => contents(*value).item(index as int) == Some(contents(*inner)),
            None => contents(*value).item(index as int) is None,
        },
{
    value.get(index)
}

/// Calls `serde_json::Value::as_str`: the text, where the value is a string.
#[verifier::external_body]
pub(crate) fn as_text<'a>(value: &'a serde_json::Value) -> (r: Option<&'a str>)
    ensures
        match r {
            Some(text) => contents(*value).text() == Some(text@),
            None => contents(*value).text() is None,
        },
{
    value.as_str()
}

/// Calls `serde_json::Value::as_i64`: the number, where the value is an integer that fits.
#[verifier::external_body]
pub(crate) fn as_int64(value: &serde_json::Value) -> (r: Option<i64>)
    ensures
        r == contents(*value).int64(),
{
    value.as_i64()
}

/// Calls `serde_json::Value::from` on a `String`: the JSON string with that text.
#[verifier::external_body]
pub(crate) fn of_text(text: String) -> (r: serde_json::Value)
    ensures
        contents(r) == Json::Text(text@),
{
    serde_json::Value::from(text)
}

/// Calls `serde_json::Value::from` on an `i64`: the JSON number with that value.
#[verifier::external_body]
pub(crate) fn of_i64(number: i64) -> (r: serde_json::Value)
    ensures
        contents(r) == Json::Int(number as int),
{
    serde_json::Value::from(number)
}

/// Calls `serde_json::Value::from` on a `u64`: the JSON number with that value.
#[verifier::external_body]
pub(crate) fn of_u64(number: u64) -> (r: serde_json::Value)
    ensures
        contents(r) == Json::Int(number as int),
{
    serde_json::Value::from(number)
}

/// Calls `serde_json::Value::from` on a `bool`: the JSON boolean with that value.
#[verifier::external_body]
pub(crate) fn of_bool(flag: bool) -> (r: serde_json::Value)
    ensures
        contents(r) == Json::Bool(flag),
{
    serde_json::Value::from(flag)
}

/// Calls `serde_json::Value::from` on a `Vec`: the JSON array with those items in that
/// order.
#[verifier::external_body]
pub(crate) fn of_list(items: Vec<serde_json::Value>) -> (r: serde_json::Value)
    ensures
        contents(r) == Json::List(all_contents(items@)),
{
    serde_json::Value::from(items)
}

/// Calls `serde_json::Value::from` on a `serde_json::Map`: the JSON object with those
/// entries.
#[verifier::external_body]
pub(crate) fn of_record(map: serde_json::Map<String, serde_json::Value>) -> (r: serde_json::Value)
    ensures
        contents(r) == Json::Record(entries(map)),
{
    serde_json::Value::from(map)
}

/// Calls `serde_json::Map::new`: a map without entries.
#[verifier::external_body]
pub(crate) fn empty_record() -> (r: serde_json::Map<String, serde_json::Value>)
    ensures
        (entries(r) == Map::<Seq<char>, Json>::empty()),
{
    serde_json::Map::new()
}

/// Calls `serde_json::Map::insert`: the entry under the key is set, the others stay, and
/// the value that the key had before comes back.
#[verifier::external_body]
pub(crate) fn insert(
    map: &mut serde_json::Map<String, serde_json::Value>,
    key: String,
    value: serde_json::Value,
) -> (r: Option<serde_json::Value>)
    ensures
        entries(*final(map)) == entries(*old(map)).insert(key@, contents(value)),
        match r {
            Some(previous) => entries(*old(map)).contains_key(key@) && contents(previous)
                == entries(*old(map))[key@],
            None => !entries(*old(map)).contains_key(key@),
        },
{
    map.insert(key, value)
}

/// Sets one entry of a map that is being built.
pub(crate) fn put(
    map: &mut serde_json::Map<String, serde_json::Value>,
    key: &str,
    value: serde_json::Value,
)
    ensures
        entries(*final(map)) == entries(*old(map)).insert(key@, contents(value)),
{
    let _ = insert(map, key.to_owned(), value);
}

/// Sets one entry to a text.
pub(crate) fn put_text(
    map: &mut serde_json::Map<String, serde_json::Value>,
    key: &str,
    text: &str,
)
    ensures
        entries(*final(map)) == entries(*old(map)).insert(key@, Json::Text(text@)),
{
    put(map, key, of_text(text.to_owned()));
}

/// A value gives what it holds and nothing else: a record its entries, a list its items, a
/// text its characters, and an integer itself where it has 64 bits.
pub proof fn law_what_a_value_gives(
    value: Json,
    key: Seq<char>,
    index: int,
    values: Seq<serde_json::Value>,
)
    ensures
        value.field(key) is Some <==> value is Record && value->Record_0.contains_key(key),
        value.field(key) is Some ==> value.field(key)->Some_0 == value->Record_0[key],
        value.item(index) is Some <==> value is List && 0 <= index < value->List_0.len(),
        value.item(index) is Some ==> value.item(index)->Some_0 == value->List_0[index],
        value.text() is Some <==> value is Text,
        value.text() is Some ==> value.text()->Some_0 == value->Text_0,
        value.int64() is Some <==> value is Int && -0x8000_0000_0000_0000 <= value->Int_0
            < 0x8000_0000_0000_0000,
        value.int64() is Some ==> value.int64()->Some_0 == value->Int_0,
        all_contents(values).len() == values.len(),
        forall|i: int|
            0 <= i < values.len() ==> #[trigger] all_contents(values)[i] == contents(values[i]),
{
}

}
