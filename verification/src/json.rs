//! JSON values as plain data, and the trusted bridge to the JSON
//! parser.
//!
//! A parsed JSON document is held as a [`JsonVal`] tree of plain
//! values: numbers keep the decimal rendering the parser produced, so
//! no floating point enters the library, and object fields arrive in
//! the parser's key order. All navigation over the tree is verified;
//! only the parse itself is trusted.
use vstd::prelude::*;

use crate::chars::chars_of;
use crate::matcher::eq_chars;

verus! {

/// A JSON value as plain data. `Num` carries the number's decimal
/// rendering.
pub enum JsonVal {
    Null,
    Bool(bool),
    Num(String),
    Str(String),
    Arr(Vec<JsonVal>),
    Obj(Vec<(String, JsonVal)>),
}

/// The value tree that parsing a given text yields, if the text is
/// valid JSON.
pub uninterp spec fn json_of(s: Seq<char>) -> Option<JsonVal>;

/// The serialized texts of the elements of a given text, if the text is
/// a valid JSON array.
pub uninterp spec fn json_array_texts_of(s: Seq<char>) -> Option<Seq<Seq<char>>>;

#[verifier::external_type_specification]
#[verifier::external_body]
pub struct ExValue(serde_json::Value);

/// Relies on `serde_json::Value`: moves each variant into the matching
/// plain variant; a number is carried as its decimal rendering, from
/// `Number`'s `Display`.
#[verifier::external_body]
fn value_to_plain(v: &serde_json::Value) -> JsonVal {
    match v {
        serde_json::Value::Null => JsonVal::Null,
        serde_json::Value::Bool(b) => JsonVal::Bool(*b),
        serde_json::Value::Number(n) => JsonVal::Num(n.to_string()),
        serde_json::Value::String(s) => JsonVal::Str(s.clone()),
        serde_json::Value::Array(a) => JsonVal::Arr(a.iter().map(value_to_plain).collect()),
        serde_json::Value::Object(o) => JsonVal::Obj(
            o.iter().map(|(k, x)| (k.clone(), value_to_plain(x))).collect(),
        ),
    }
}

/// Relies on `serde_json::from_str`: parses JSON text; the result
/// depends on the text alone.
#[verifier::external_body]
pub fn parse_json(s: &str) -> (r: Option<JsonVal>)
    ensures
        r == json_of(s@),
{
    match serde_json::from_str::<serde_json::Value>(s) {
        Ok(v) => Some(value_to_plain(&v)),
        Err(_) => None,
    }
}

/// Relies on `serde_json::from_str` and `Value`'s `Display`: the
/// serialized text of each element of a JSON array; the result depends
/// on the text alone.
#[verifier::external_body]
pub fn json_array_texts(s: &str) -> (r: Option<Vec<String>>)
    ensures
        match r {
            Some(v) => json_array_texts_of(s@) == Some(v.deep_view()),
            None => json_array_texts_of(s@) is None,
        },
{
    match serde_json::from_str::<Vec<serde_json::Value>>(s) {
        Ok(a) => Some(a.iter().map(|v| v.to_string()).collect()),
        Err(_) => None,
    }
}

/// The value under `key` in the field list, scanning from `i`.
pub open spec fn obj_get_from(
    fields: Seq<(String, JsonVal)>,
    key: Seq<char>,
    i: int,
) -> Option<JsonVal>
    decreases fields.len() - i,
{
    if i < 0 || i >= fields.len() {
        None
    } else if fields[i].0@ == key {
        Some(fields[i].1)
    } else {
        obj_get_from(fields, key, i + 1)
    }
}

/// The value under `key`, for an object; `None` for any other value.
pub open spec fn spec_obj_get(v: JsonVal, key: Seq<char>) -> Option<JsonVal> {
    match v {
        JsonVal::Obj(fields) => obj_get_from(fields@, key, 0),
        _ => None,
    }
}

/// Look a field up in a JSON object.
pub fn obj_get<'a>(v: &'a JsonVal, key: &str) -> (r: Option<&'a JsonVal>)
    ensures
        match r {
            Some(x) => spec_obj_get(*v, key@) == Some(*x),
            None => spec_obj_get(*v, key@) is None,
        },
{
    let kv = chars_of(key);
    match v {
        JsonVal::Obj(fields) => {
            let n = fields.len();
            let mut i: usize = 0;
            while i < n
                invariant
                    i <= n == fields.len(),
                    kv@ == key@,
                    spec_obj_get(*v, key@) == obj_get_from(fields@, key@, i as int),
                decreases n - i,
            {
                let field: &(String, JsonVal) = &fields[i];
                let fk = chars_of(field.0.as_str());
                if eq_chars(&fk, &kv) {
                    proof {
                        assert(fields@[i as int].0@ == key@);
                        assert(obj_get_from(fields@, key@, i as int) == Some(
                            fields@[i as int].1,
                        ));
                    }
                    return Some(&field.1);
                }
                i = i + 1;
            }
            None
        },
        _ => None,
    }
}

/// The text of a JSON string value.
pub open spec fn spec_as_str(v: JsonVal) -> Option<String> {
    match v {
        JsonVal::Str(s) => Some(s),
        _ => None,
    }
}

/// The string a JSON string value holds.
pub fn as_str_val(v: &JsonVal) -> (r: Option<String>)
    ensures
        r == spec_as_str(*v),
{
    match v {
        JsonVal::Str(s) => Some(s.clone()),
        _ => None,
    }
}

/// The decimal rendering of a JSON number, or the text of a JSON
/// string. Numeric fields in the scanned markup arrive in both forms.
pub open spec fn spec_num_or_str(v: JsonVal) -> Option<String> {
    match v {
        JsonVal::Num(s) => Some(s),
        JsonVal::Str(s) => Some(s),
        _ => None,
    }
}

/// The text a JSON number or string holds.
pub fn num_or_str_val(v: &JsonVal) -> (r: Option<String>)
    ensures
        r == spec_num_or_str(*v),
{
    match v {
        JsonVal::Num(s) => Some(s.clone()),
        JsonVal::Str(s) => Some(s.clone()),
        _ => None,
    }
}

/// The decimal rendering of a JSON number value alone.
pub open spec fn spec_as_num_text(v: JsonVal) -> Option<String> {
    match v {
        JsonVal::Num(s) => Some(s),
        _ => None,
    }
}

/// The rendering a JSON number holds.
pub fn as_num_text(v: &JsonVal) -> (r: Option<String>)
    ensures
        r == spec_as_num_text(*v),
{
    match v {
        JsonVal::Num(s) => Some(s.clone()),
        _ => None,
    }
}

/// Decide whether a value is a JSON object.
pub fn is_obj(v: &JsonVal) -> (r: bool)
    ensures
        r == (*v is Obj),
{
    match v {
        JsonVal::Obj(_) => true,
        _ => false,
    }
}

/// The elements of a JSON array value.
pub open spec fn spec_as_arr(v: JsonVal) -> Option<Vec<JsonVal>> {
    match v {
        JsonVal::Arr(items) => Some(items),
        _ => None,
    }
}

/// Borrow the elements of a JSON array.
pub fn as_arr<'a>(v: &'a JsonVal) -> (r: Option<&'a Vec<JsonVal>>)
    ensures
        match r {
            Some(items) => spec_as_arr(*v) == Some(*items),
            None => spec_as_arr(*v) is None,
        },
{
    match v {
        JsonVal::Arr(items) => Some(items),
        _ => None,
    }
}

} // verus!
