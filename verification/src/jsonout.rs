//! The JSON output value and its serialization, through the `json` crate.
//!
//! The document under construction is a `json::JsonValue` object. Its
//! contents are modeled by [`jv_entries`]: the ordered key-value entries,
//! where inserting an existing key replaces its value in place and a new
//! key is appended ([`spec_set_entry`]), exactly as the crate's
//! `Object::insert` behaves. [`jv_clean`] marks a value as built purely
//! of these operations, so that its serialized text is a function of its
//! entries alone.

use vstd::prelude::*;

verus! {

/// The mathematical model of a JSON value this library emits: a signed
/// 64-bit integer, a boolean, a string, or an object of ordered entries.
#[verifier::ext_equal]
pub ghost enum JsonModel {
    Int(i64),
    Bool(bool),
    Str(Seq<char>),
    Obj(Seq<(Seq<char>, JsonModel)>),
}

/// Inserts or overrides one entry: an existing key keeps its position
/// and gets the new value; a new key is appended at the end.
pub open spec fn spec_set_entry(
    entries: Seq<(Seq<char>, JsonModel)>,
    key: Seq<char>,
    val: JsonModel,
) -> Seq<(Seq<char>, JsonModel)>
    decreases entries.len(),
{
    if entries.len() == 0 {
        seq![(key, val)]
    } else if entries[0].0 == key {
        seq![(key, val)] + entries.drop_first()
    } else {
        seq![entries[0]] + spec_set_entry(entries.drop_first(), key, val)
    }
}

/// The value under `key`, if any.
pub open spec fn spec_lookup_entry(
    entries: Seq<(Seq<char>, JsonModel)>,
    key: Seq<char>,
) -> Option<JsonModel>
    decreases entries.len(),
{
    if entries.len() == 0 {
        Option::None
    } else if entries[0].0 == key {
        Option::Some(entries[0].1)
    } else {
        spec_lookup_entry(entries.drop_first(), key)
    }
}

/// The ordered entries of a JSON object value.
pub uninterp spec fn jv_entries(v: json::JsonValue) -> Seq<(Seq<char>, JsonModel)>;

/// Whether a JSON value was built of nothing but [`jv_new_object`] and
/// the insert operations below, so that [`jv_entries`] models it exactly.
pub uninterp spec fn jv_clean(v: json::JsonValue) -> bool;

/// The serialized text of a JSON object with these entries.
pub uninterp spec fn json_text_of(entries: Seq<(Seq<char>, JsonModel)>) -> Seq<char>;

#[verifier::external_type_specification]
#[verifier::external_body]
pub struct ExJsonValue(json::JsonValue);

/// Relies on `json::JsonValue::new_object`: an empty JSON object.
#[verifier::external_body]
pub(crate) fn jv_new_object() -> (v: json::JsonValue)
    ensures
        jv_clean(v),
        jv_entries(v) == Seq::<(Seq<char>, JsonModel)>::empty(),
{
    json::JsonValue::new_object()
}

/// Relies on `json::JsonValue::insert` (`json::object::Object::insert`):
/// an existing key's value is replaced in place, a new key is appended.
/// The least 64-bit integer is excluded: the crate's `From<i64>` negates
/// a negative argument, which overflows on that one value; it is inserted
/// through [`jv_insert_i64_min`] instead.
#[verifier::external_body]
pub(crate) fn jv_insert_i64(v: &mut json::JsonValue, key: &str, value: i64)
    requires
        jv_clean(*old(v)),
        i64::MIN < value,
    ensures
        jv_clean(*final(v)),
        jv_entries(*final(v)) == spec_set_entry(jv_entries(*old(v)), key@, JsonModel::Int(value)),
{
    let _ = v.insert(key, value);
}

/// Relies on `json::number::Number::from_parts` and
/// `json::JsonValue::insert`: the least 64-bit integer, built as sign and
/// magnitude (its magnitude is one more than `i64::MAX`, so negating it
/// as `From<i64>` does would overflow), inserted like any other entry.
#[verifier::external_body]
pub(crate) fn jv_insert_i64_min(v: &mut json::JsonValue, key: &str)
    requires
        jv_clean(*old(v)),
    ensures
        jv_clean(*final(v)),
        jv_entries(*final(v)) == spec_set_entry(
            jv_entries(*old(v)),
            key@,
            JsonModel::Int(i64::MIN),
        ),
{
    let num = json::number::Number::from_parts(false, 9223372036854775808, 0);
    let _ = v.insert(key, num);
}

/// Relies on `json::JsonValue::insert` (`json::object::Object::insert`):
/// an existing key's value is replaced in place, a new key is appended.
#[verifier::external_body]
pub(crate) fn jv_insert_bool(v: &mut json::JsonValue, key: &str, value: bool)
    requires
        jv_clean(*old(v)),
    ensures
        jv_clean(*final(v)),
        jv_entries(*final(v)) == spec_set_entry(jv_entries(*old(v)), key@, JsonModel::Bool(value)),
{
    let _ = v.insert(key, value);
}

/// Relies on `json::JsonValue::insert` (`json::object::Object::insert`):
/// an existing key's value is replaced in place, a new key is appended.
#[verifier::external_body]
pub(crate) fn jv_insert_str(v: &mut json::JsonValue, key: &str, value: &str)
    requires
        jv_clean(*old(v)),
    ensures
        jv_clean(*final(v)),
        jv_entries(*final(v)) == spec_set_entry(
            jv_entries(*old(v)),
            key@,
            JsonModel::Str(value@),
        ),
{
    let _ = v.insert(key, value);
}

/// Relies on `json::JsonValue::insert` (`json::object::Object::insert`):
/// an existing key's value is replaced in place, a new key is appended.
#[verifier::external_body]
pub(crate) fn jv_insert_obj(v: &mut json::JsonValue, key: &str, child: json::JsonValue)
    requires
        jv_clean(*old(v)),
        jv_clean(child),
    ensures
        jv_clean(*final(v)),
        jv_entries(*final(v)) == spec_set_entry(
            jv_entries(*old(v)),
            key@,
            JsonModel::Obj(jv_entries(child)),
        ),
{
    let _ = v.insert(key, child);
}

/// Relies on `json::stringify` (`json::JsonValue::dump`): the compact
/// serialized text of a JSON object, iterating its entries in order; it
/// is a function of the keys and values alone.
#[verifier::external_body]
pub(crate) fn jv_stringify(v: json::JsonValue) -> (r: String)
    requires
        jv_clean(v),
    ensures
        r@ == json_text_of(jv_entries(v)),
{
    json::stringify(v)
}

} // verus!
