//! The emitter: resolved objects and global fields to one JSON document.
//!
//! Each literal's raw text is coerced, trying in order: a signed 64-bit
//! integer, a boolean (`true`/`false` exactly), else a string. The
//! document gets one entry per global field and one per object, the
//! object's entry being a nested object of its resolved fields; a later
//! entry under the same key wins.

use vstd::prelude::*;
use crate::ast::Field;
use crate::ast::FieldModel;
use crate::ast::Object;
use crate::ast::ObjectModel;
use crate::ast::spec_fields;
use crate::ast::spec_objects;
use crate::chars::chars_eq_str;
use crate::chars::str_to_chars;
use crate::jsonout::JsonModel;
use crate::jsonout::json_text_of;
use crate::jsonout::jv_entries;
use crate::jsonout::jv_insert_bool;
use crate::jsonout::jv_insert_i64;
use crate::jsonout::jv_insert_i64_min;
use crate::jsonout::jv_insert_obj;
use crate::jsonout::jv_insert_str;
use crate::jsonout::jv_new_object;
use crate::jsonout::jv_stringify;
use crate::jsonout::spec_set_entry;
use crate::token::spec_is_digit;

verus! {

/// The numeric value of one decimal digit character.
pub open spec fn spec_digit_val(c: char) -> int {
    c as u32 - 48
}

/// Whether every character of `s` is a decimal digit.
pub open spec fn spec_all_digits(s: Seq<char>) -> bool {
    forall|j: int| 0 <= j < s.len() ==> spec_is_digit(s[j])
}

/// The value of a decimal digit string.
pub open spec fn spec_digits_value(s: Seq<char>) -> int
    decreases s.len(),
{
    if s.len() == 0 {
        0
    } else {
        10 * spec_digits_value(s.drop_last()) + spec_digit_val(s.last())
    }
}

/// The value of a digit string is never negative.
proof fn lemma_digits_value_nonneg(s: Seq<char>)
    requires
        spec_all_digits(s),
    ensures
        spec_digits_value(s) >= 0,
    decreases s.len(),
{
    if s.len() > 0 {
        assert(spec_all_digits(s.drop_last()));
        lemma_digits_value_nonneg(s.drop_last());
    }
}

/// A digit string is worth at least any of its prefixes.
proof fn lemma_digits_value_extend(s: Seq<char>, k: int)
    requires
        0 <= k <= s.len(),
        spec_all_digits(s),
    ensures
        spec_digits_value(s.subrange(0, k)) <= spec_digits_value(s),
    decreases s.len() - k,
{
    if k == s.len() {
        assert(s.subrange(0, k) =~= s);
    } else {
        assert(spec_all_digits(s.subrange(0, k)));
        lemma_digits_value_nonneg(s.subrange(0, k));
        assert(s.subrange(0, k + 1).drop_last() =~= s.subrange(0, k));
        assert(spec_digits_value(s.subrange(0, k + 1)) == 10 * spec_digits_value(
            s.subrange(0, k),
        ) + spec_digit_val(s[k]));
        lemma_digits_value_extend(s, k + 1);
    }
}

/// Parsing a signed 64-bit integer out of raw text: an optional sign,
/// then nothing but decimal digits, the value fitting in 64 signed bits.
pub open spec fn spec_parse_i64(s: Seq<char>) -> Option<i64> {
    let neg = s.len() > 0 && s[0] == '-';
    let body = if s.len() > 0 && (s[0] == '+' || s[0] == '-') {
        s.subrange(1, s.len() as int)
    } else {
        s
    };
    if body.len() == 0 || !spec_all_digits(body) {
        Option::None
    } else {
        let m = spec_digits_value(body);
        if neg {
            if -m >= i64::MIN {
                Option::Some((-m) as i64)
            } else {
                Option::None
            }
        } else {
            if m <= i64::MAX {
                Option::Some(m as i64)
            } else {
                Option::None
            }
        }
    }
}

/// Parses a signed 64-bit integer out of raw text, exactly as
/// [`spec_parse_i64`] describes.
#[verifier::loop_isolation(false)]
pub fn parse_i64_chars(s: &Vec<char>) -> (r: Option<i64>)
    ensures
        r == spec_parse_i64(s@),
{
    let n: usize = s.len();
    let mut start: usize = 0;
    let mut neg: bool = false;
    if n > 0 && (s[0] == '+' || s[0] == '-') {
        neg = s[0] == '-';
        start = 1;
    }
    let ghost body = s@.subrange(start as int, n as int);
    proof {
        if start == 0 {
            assert(body =~= s@);
        }
    }
    if start >= n {
        proof {
            assert(body.len() == 0);
        }
        return Option::None;
    }
    let bound: u64 = if neg {
        9223372036854775808
    } else {
        9223372036854775807
    };
    let mut acc: u64 = 0;
    let mut j: usize = start;
    while j < n
        invariant
            start <= j <= n,
            n == s@.len(),
            start <= 1,
            body == s@.subrange(start as int, n as int),
            spec_all_digits(body.subrange(0, j - start)),
            acc as int == spec_digits_value(body.subrange(0, j - start)),
            acc <= bound,
            bound == (if neg {
                9223372036854775808u64
            } else {
                9223372036854775807u64
            }),
        decreases n - j,
    {
        let c = s[j];
        let d: u32 = c as u32;
        proof {
            assert(body[j - start] == s@[j as int]);
        }
        if !(48 <= d && d <= 57) {
            proof {
                assert(!spec_is_digit(body[j - start]));
                assert(!spec_all_digits(body));
            }
            return Option::None;
        }
        let dv: u64 = (d - 48) as u64;
        proof {
            assert(body.subrange(0, j + 1 - start).drop_last() =~= body.subrange(0, j - start));
            assert(body.subrange(0, j + 1 - start).last() == body[j - start]);
        }
        if acc > (bound - dv) / 10 {
            // The value is already too large for a signed 64-bit integer,
            // and appending further digits can only grow it.
            proof {
                assert(spec_digits_value(body.subrange(0, j + 1 - start)) == 10 * (acc as int)
                    + dv);
                assert(10 * (acc as int) + dv > bound) by (nonlinear_arith)
                    requires
                        acc as int > ((bound - dv) as int) / 10,
                        0 <= dv <= 9,
                        dv <= bound,
                ;
                if spec_all_digits(body) {
                    lemma_digits_value_extend(body, j + 1 - start);
                    assert(spec_digits_value(body) > bound);
                }
            }
            return Option::None;
        }
        proof {
            assert(acc * 10 + dv <= bound) by (nonlinear_arith)
                requires
                    acc <= (bound - dv) / 10,
                    0 <= dv <= 9,
                    dv <= bound,
            ;
        }
        acc = acc * 10 + dv;
        j = j + 1;
        proof {
            assert(spec_all_digits(body.subrange(0, j - start)));
        }
    }
    proof {
        assert(body.subrange(0, n - start) =~= body);
    }
    if neg {
        if acc == 9223372036854775808 {
            return Option::Some(i64::MIN);
        }
        return Option::Some(-(acc as i64));
    }
    Option::Some(acc as i64)
}

/// One emitted scalar: the coercion of one literal's raw text.
pub enum JsonLeaf {
    Int(i64),
    Bool(bool),
    Str(String),
}

impl View for JsonLeaf {
    type V = JsonModel;

    open spec fn view(&self) -> JsonModel {
        match self {
            JsonLeaf::Int(v) => JsonModel::Int(*v),
            JsonLeaf::Bool(b) => JsonModel::Bool(*b),
            JsonLeaf::Str(s) => JsonModel::Str(s@),
        }
    }
}

/// Coercion of a literal's raw text, tried in order: a signed 64-bit
/// integer, a boolean (`true`/`false` exactly), else the text itself.
pub open spec fn spec_coerce(s: Seq<char>) -> JsonModel {
    match spec_parse_i64(s) {
        Option::Some(v) => JsonModel::Int(v),
        Option::None => {
            if s == "true"@ {
                JsonModel::Bool(true)
            } else if s == "false"@ {
                JsonModel::Bool(false)
            } else {
                JsonModel::Str(s)
            }
        },
    }
}

/// Coerces a literal's raw text, exactly as [`spec_coerce`] describes.
pub fn coerce(text: &String) -> (r: JsonLeaf)
    ensures
        r@ == spec_coerce(text@),
{
    let cs = str_to_chars(text.as_str());
    match parse_i64_chars(&cs) {
        Option::Some(v) => JsonLeaf::Int(v),
        Option::None => {
            if chars_eq_str(&cs, "true") {
                JsonLeaf::Bool(true)
            } else if chars_eq_str(&cs, "false") {
                JsonLeaf::Bool(false)
            } else {
                JsonLeaf::Str(text.clone())
            }
        },
    }
}

/// The document entries after emitting the fields from position `i` on
/// into `entries`, one entry per field, its value the coerced literal.
pub open spec fn spec_emit_fields(
    entries: Seq<(Seq<char>, JsonModel)>,
    fields: Seq<FieldModel>,
    i: int,
) -> Seq<(Seq<char>, JsonModel)>
    decreases fields.len() - i,
{
    if i < 0 || i >= fields.len() {
        entries
    } else {
        spec_emit_fields(
            spec_set_entry(entries, fields[i].identifier, spec_coerce(fields[i].value.text)),
            fields,
            i + 1,
        )
    }
}

/// The entries of one emitted object: its resolved fields in order, each
/// coerced; a later field under the same name wins.
pub open spec fn spec_object_entries(fields: Seq<FieldModel>) -> Seq<(Seq<char>, JsonModel)> {
    spec_emit_fields(Seq::empty(), fields, 0)
}

/// The document entries after emitting the objects from position `i` on
/// into `entries`: one entry per object, holding its nested object value.
pub open spec fn spec_emit_objects(
    entries: Seq<(Seq<char>, JsonModel)>,
    objects: Seq<ObjectModel>,
    i: int,
) -> Seq<(Seq<char>, JsonModel)>
    decreases objects.len() - i,
{
    if i < 0 || i >= objects.len() {
        entries
    } else {
        spec_emit_objects(
            spec_set_entry(
                entries,
                objects[i].object_name,
                JsonModel::Obj(spec_object_entries(objects[i].fields)),
            ),
            objects,
            i + 1,
        )
    }
}

/// The whole document: one entry per global field, then one per resolved
/// object, in a flat namespace where the last write to a key wins.
pub open spec fn spec_doc(
    objects: Seq<ObjectModel>,
    gfields: Seq<FieldModel>,
) -> Seq<(Seq<char>, JsonModel)> {
    spec_emit_objects(spec_emit_fields(Seq::empty(), gfields, 0), objects, 0)
}

/// Inserts one coerced leaf under a key.
fn jv_insert_leaf(data: &mut json::JsonValue, key: &str, leaf: JsonLeaf)
    requires
        crate::jsonout::jv_clean(*old(data)),
    ensures
        crate::jsonout::jv_clean(*final(data)),
        jv_entries(*final(data)) == spec_set_entry(jv_entries(*old(data)), key@, leaf@),
{
    match leaf {
        JsonLeaf::Int(v) => {
            if v == i64::MIN {
                jv_insert_i64_min(data, key);
            } else {
                jv_insert_i64(data, key, v);
            }
        },
        JsonLeaf::Bool(b) => jv_insert_bool(data, key, b),
        JsonLeaf::Str(s) => jv_insert_str(data, key, s.as_str()),
    }
}

/// Builds one object's nested JSON value out of its resolved fields.
#[verifier::loop_isolation(false)]
fn emit_object_value(fields: &Vec<Field>) -> (v: json::JsonValue)
    ensures
        crate::jsonout::jv_clean(v),
        jv_entries(v) == spec_object_entries(spec_fields(fields@)),
{
    let mut inner = jv_new_object();
    let ghost fm = spec_fields(fields@);
    let mut i: usize = 0;
    while i < fields.len()
        invariant
            i <= fields@.len(),
            crate::jsonout::jv_clean(inner),
            spec_object_entries(fm) == spec_emit_fields(jv_entries(inner), fm, i as int),
        decreases fields@.len() - i,
    {
        proof {
            assert(fm.len() == fields@.len());
            assert(fm[i as int] == fields@[i as int]@);
        }
        let f = &fields[i];
        let leaf = coerce(&f.value.token);
        jv_insert_leaf(&mut inner, f.identifier.as_str(), leaf);
        i = i + 1;
    }
    inner
}

/// Emits the whole document: one entry per global field (coerced), then
/// one per resolved object (a nested object of its coerced fields), the
/// last write to a key winning, serialized compactly by the `json` crate.
#[verifier::loop_isolation(false)]
pub fn emit_json(typed_objects: &Vec<Object>, user_fields: &Vec<Field>) -> (r: String)
    ensures
        r@ == json_text_of(spec_doc(spec_objects(typed_objects@), spec_fields(user_fields@))),
{
    let mut data = jv_new_object();
    let ghost gm = spec_fields(user_fields@);
    let ghost om = spec_objects(typed_objects@);
    let mut i: usize = 0;
    while i < user_fields.len()
        invariant
            i <= user_fields@.len(),
            crate::jsonout::jv_clean(data),
            spec_emit_fields(Seq::empty(), gm, 0) == spec_emit_fields(
                jv_entries(data),
                gm,
                i as int,
            ),
        decreases user_fields@.len() - i,
    {
        proof {
            assert(gm.len() == user_fields@.len());
            assert(gm[i as int] == user_fields@[i as int]@);
        }
        let f = &user_fields[i];
        let leaf = coerce(&f.value.token);
        jv_insert_leaf(&mut data, f.identifier.as_str(), leaf);
        i = i + 1;
    }
    let mut k: usize = 0;
    while k < typed_objects.len()
        invariant
            k <= typed_objects@.len(),
            crate::jsonout::jv_clean(data),
            spec_doc(om, gm) == spec_emit_objects(jv_entries(data), om, k as int),
        decreases typed_objects@.len() - k,
    {
        proof {
            assert(om.len() == typed_objects@.len());
            assert(om[k as int] == typed_objects@[k as int]@);
        }
        let o = &typed_objects[k];
        let inner = emit_object_value(&o.fields);
        jv_insert_obj(&mut data, o.object_name.as_str(), inner);
        k = k + 1;
    }
    jv_stringify(data)
}

} // verus!
