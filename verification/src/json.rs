//! JSON documents as plain values, read by `serde_json`, and the lookups the scene format
//! needs: a key of an object, an element of an array, a number's exact value.
use vstd::prelude::*;
use vstd::arithmetic::power2::pow2;
use serde_json::Value;

verus! {

#[verifier::external_type_specification]
#[verifier::external_body]
pub struct ExJsonValue(serde_json::Value);

/// A JSON value. A number is kept as `serde_json` holds it: a non-negative integer, a
/// negative integer, or the bits of a binary64 float. An object's members are in key order,
/// each key once.
#[derive(Debug)]
pub enum Json {
    Null,
    Bool(bool),
    UInt(u64),
    Int(i64),
    Float(u64),
    Text(String),
    Array(Vec<Json>),
    Object(Vec<(String, Json)>),
}

/// What `serde_json::from_str` reads from `text` as a `Value`, if the text is JSON.
pub uninterp spec fn json_parsed(text: Seq<char>) -> Option<Json>;

/// The library's copy of a `serde_json::Value`: the same variant, with each number as
/// `serde_json::Number` reports it (`as_u64`, else `as_i64`, else the bits of `as_f64`) and
/// each member and element converted in order. Trusted: nothing is stated of it on its own;
/// `parse_json`, its one caller, names the whole result.
#[verifier::external_body]
fn json_of(value: &serde_json::Value) -> (json: Json) {
    match value {
        Value::Null => Json::Null,
        Value::Bool(b) => Json::Bool(*b),
        Value::Number(n) => match (n.as_u64(), n.as_i64()) {
            (Some(u), _) => Json::UInt(u),
            (_, Some(i)) => Json::Int(i),
            _ => Json::Float(n.as_f64().unwrap_or_default().to_bits()),
        },
        Value::String(s) => Json::Text(s.clone()),
        Value::Array(a) => Json::Array(a.iter().map(json_of).collect()),
        Value::Object(m) => Json::Object(m.iter().map(|e| (e.0.clone(), json_of(e.1))).collect()),
    }
}

/// Reads JSON text. Trusted: `serde_json::from_str` into a `serde_json::Value`, converted
/// by `json_of`; what it gives is named by `json_parsed`, and text that is not JSON gives
/// `None`.
#[verifier::external_body]
pub(crate) fn parse_json(text: &str) -> (json: Option<Json>)
    ensures
        json == json_parsed(text@),
{
    serde_json::from_str::<serde_json::Value>(text).ok().map(|v| json_of(&v))
}

/// The member `key` of the first `n` members.
pub open spec fn member_in(members: Seq<(String, Json)>, key: Seq<char>, n: nat) -> Option<Json>
    decreases n,
{
    if n == 0 || n > members.len() {
        None
    } else {
        match member_in(members, key, (n - 1) as nat) {
            Some(v) => Some(v),
            None => if members[n - 1].0@ == key {
                Some(members[n - 1].1)
            } else {
                None
            },
        }
    }
}

/// The member `key` of an object (`Value::get`); nothing for a missing key or a value that
/// is not an object.
pub open spec fn member(j: Json, key: Seq<char>) -> Option<Json> {
    match j {
        Json::Object(members) => member_in(members@, key, members@.len()),
        _ => None,
    }
}

/// `value[key]`: the member, or null.
pub open spec fn at_key(j: Json, key: Seq<char>) -> Json {
    match member(j, key) {
        Some(v) => v,
        None => Json::Null,
    }
}

/// `value[i]`: the element, or null.
pub open spec fn at_index(j: Json, i: int) -> Json {
    match j {
        Json::Array(items) => if 0 <= i < items@.len() {
            items@[i]
        } else {
            Json::Null
        },
        _ => Json::Null,
    }
}

/// `as_u64`: a non-negative integer.
pub open spec fn as_u64(j: Json) -> Option<u64> {
    match j {
        Json::UInt(n) => Some(n),
        _ => None,
    }
}

/// `as_str`: a string's text.
pub open spec fn as_text(j: Json) -> Option<Seq<char>> {
    match j {
        Json::Text(s) => Some(s@),
        _ => None,
    }
}

/// Whether the value is the string `s` (`value == s`).
pub open spec fn is_text(j: Json, s: Seq<char>) -> bool {
    as_text(j) == Some(s)
}

/// The sign, significand and exponent of the binary64 float with these bits: the float is
/// `significand * 2^exponent`, negated when the sign is set.
pub open spec fn float_parts(bits: u64) -> (bool, nat, int) {
    let biased = ((bits >> 52u64) & 0x7FFu64) as int;
    let fraction = (bits & 0xF_FFFF_FFFF_FFFFu64) as nat;
    (
        (bits >> 63u64) == 1,
        if biased == 0 {
            fraction
        } else {
            fraction + 0x10_0000_0000_0000
        },
        if biased == 0 {
            -1074
        } else {
            biased - 1075
        },
    )
}

/// Whether the float with these bits is finite (not an infinity or NaN).
pub open spec fn float_finite(bits: u64) -> bool {
    ((bits >> 52u64) & 0x7FFu64) != 0x7FFu64
}

/// A number's exact value as `(numerator, k)`, meaning `numerator / 2^k`: what `as_f64`
/// gives, exactly; nothing for a value that is not a finite number.
pub open spec fn exact_value(j: Json) -> Option<(int, nat)> {
    match j {
        Json::UInt(n) => Some((n as int, 0)),
        Json::Int(i) => Some((i as int, 0)),
        Json::Float(bits) => if float_finite(bits) {
            let (negative, m, e) = float_parts(bits);
            let magnitude = if e >= 0 {
                (m * pow2(e as nat)) as int
            } else {
                m as int
            };
            Some((if negative {
                -magnitude
            } else {
                magnitude
            }, if e >= 0 {
                0
            } else {
                (-e) as nat
            }))
        } else {
            None
        },
        _ => None,
    }
}

proof fn lemma_member_in_stable(members: Seq<(String, Json)>, key: Seq<char>, n: nat, m: nat)
    requires
        n <= m <= members.len(),
        member_in(members, key, n) is Some,
    ensures
        member_in(members, key, m) == member_in(members, key, n),
    decreases m - n,
{
    if n < m {
        lemma_member_in_stable(members, key, n, (m - 1) as nat);
    }
}

/// The member `key` of an object, if it has one.
pub fn member_of<'a>(j: &'a Json, key: &str) -> (found: Option<&'a Json>)
    ensures
        match found {
            Some(v) => member(*j, key@) == Some(*v),
            None => member(*j, key@) is None,
        },
{
    match *j {
        Json::Object(ref members) => {
            let mut i: usize = 0;
            while i < members.len()
                invariant
                    *j == Json::Object(*members),
                    i <= members@.len(),
                    member_in(members@, key@, i as nat) is None,
                decreases members@.len() - i,
            {
                if crate::text_scan::same_text(members[i].0.as_str(), key) {
                    assert(members@[i as int].0@ == key@);
                    assert(member_in(members@, key@, (i + 1) as nat) == Some(members@[i as int].1));
                    proof {
                        lemma_member_in_stable(members@, key@, (i + 1) as nat, members@.len());
                    }
                    let found = &members[i].1;
                    assert(*found == members@[i as int].1);
                    return Some(&members[i].1);
                }
                i += 1;
            }
            None
        },
        _ => None,
    }
}

/// `value[key]`.
pub fn key_of<'a>(j: &'a Json, key: &str, null: &'a Json) -> (v: &'a Json)
    requires
        *null == Json::Null,
    ensures
        *v == at_key(*j, key@),
{
    match member_of(j, key) {
        Some(v) => v,
        None => null,
    }
}

/// Whether `j` is the string `s`.
pub fn text_is(j: &Json, s: &str) -> (r: bool)
    ensures
        r == is_text(*j, s@),
{
    match j {
        Json::Text(t) => crate::text_scan::same_text(t.as_str(), s),
        _ => false,
    }
}

} // verus!
