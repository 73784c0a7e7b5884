//! The JSON document model the library works on.
//!
//! A number carries the forms that a JSON number offers its readers: its
//! integer form (when it is an integer) and its floating-point forms, given as
//! IEEE-754 bit patterns together with the saturating integer conversions of
//! that float.

use vstd::prelude::*;

verus! {

/// Integer form of a JSON number.
#[derive(Debug, Clone, Copy, PartialEq, Eq, Structural)]
pub enum NumberInt {
    /// A non-negative integer.
    PosInt(u64),
    /// A negative integer.
    NegInt(i64),
    /// Not an integer (written with a fraction or an exponent).
    NotInt,
}

/// Floating-point forms of a JSON number (its value as an `f64`).
#[derive(Debug, Clone, Copy, PartialEq, Eq, Structural)]
pub struct FloatForms {
    /// Bit pattern of the `f64` value.
    pub f64_bits: u64,
    /// Bit pattern of the `f64` value converted to `f32`.
    pub f32_bits: u32,
    /// The `f64` value converted to `i64` (saturating, NaN to 0).
    pub to_i64: i64,
    /// The `f64` value converted to `u64` (saturating, NaN to 0).
    pub to_u64: u64,
}

/// A JSON number.
#[derive(Debug, Clone, Copy, PartialEq, Eq, Structural)]
pub struct JsonNumber {
    pub int: NumberInt,
    pub float: FloatForms,
}

/// A JSON value. Object members are kept in order; lookups find the first
/// member with a given key.
#[derive(Debug)]
pub enum JsonValue {
    Null,
    Bool(bool),
    Number(JsonNumber),
    String(String),
    Array(Vec<JsonValue>),
    Object(Vec<(String, JsonValue)>),
}

/// The number as an `i64`, when it is an integer in range.
pub open spec fn number_as_i64(n: JsonNumber) -> Option<i64> {
    match n.int {
        NumberInt::PosInt(u) => if u <= i64::MAX { Some(u as i64) } else { None },
        NumberInt::NegInt(i) => Some(i),
        NumberInt::NotInt => None,
    }
}

/// The number as a `u64`, when it is a non-negative integer.
pub open spec fn number_as_u64(n: JsonNumber) -> Option<u64> {
    match n.int {
        NumberInt::PosInt(u) => Some(u),
        _ => None,
    }
}

impl JsonNumber {
    /// The number as an `i64`, when it is an integer in range.
    pub fn as_i64(&self) -> (r: Option<i64>)
        ensures
            r == number_as_i64(*self),
    {
        match self.int {
            NumberInt::PosInt(u) => if u <= 0x7fff_ffff_ffff_ffff { Some(u as i64) } else { None },
            NumberInt::NegInt(i) => Some(i),
            NumberInt::NotInt => None,
        }
    }

    /// The number as a `u64`, when it is a non-negative integer.
    pub fn as_u64(&self) -> (r: Option<u64>)
        ensures
            r == number_as_u64(*self),
    {
        match self.int {
            NumberInt::PosInt(u) => Some(u),
            _ => None,
        }
    }
}

/// Value of the first member of `entries` whose key is `key`.
pub open spec fn lookup(entries: Seq<(String, JsonValue)>, key: Seq<char>) -> Option<JsonValue>
    decreases entries.len(),
{
    if entries.len() == 0 {
        None
    } else if entries[0].0@ == key {
        Some(entries[0].1)
    } else {
        lookup(entries.drop_first(), key)
    }
}

/// Index of the first member of `entries` whose key is `key`.
pub open spec fn lookup_index(entries: Seq<(String, JsonValue)>, key: Seq<char>) -> Option<int>
    decreases entries.len(),
{
    if entries.len() == 0 {
        None
    } else if entries[0].0@ == key {
        Some(0)
    } else {
        match lookup_index(entries.drop_first(), key) {
            Some(i) => Some(i + 1),
            None => None,
        }
    }
}

proof fn lemma_lookup_index(entries: Seq<(String, JsonValue)>, key: Seq<char>)
    ensures
        match lookup_index(entries, key) {
            Some(i) => 0 <= i < entries.len() && entries[i].0@ == key && lookup(entries, key)
                == Some(entries[i].1) && forall|j: int| 0 <= j < i ==> entries[j].0@ != key,
            None => lookup(entries, key) is None && forall|j: int|
                0 <= j < entries.len() ==> entries[j].0@ != key,
        },
    decreases entries.len(),
{
    if entries.len() > 0 && entries[0].0@ != key {
        lemma_lookup_index(entries.drop_first(), key);
        match lookup_index(entries.drop_first(), key) {
            Some(i) => {
                assert forall|j: int| 0 <= j < i + 1 implies entries[j].0@ != key by {
                    if j > 0 {
                        assert(entries[j] == entries.drop_first()[j - 1]);
                    }
                }
            },
            None => {
                assert forall|j: int| 0 <= j < entries.len() implies entries[j].0@ != key by {
                    if j > 0 {
                        assert(entries[j] == entries.drop_first()[j - 1]);
                    }
                }
            },
        }
    }
}

/// Finds the first member of `entries` whose key is `key`.
pub fn find_member<'a>(entries: &'a Vec<(String, JsonValue)>, key: &String) -> (r: Option<&'a JsonValue>)
    ensures
        match lookup(entries@, key@) {
            Some(v) => r == Some(&v),
            None => r is None,
        },
{
    proof {
        lemma_lookup_index(entries@, key@);
    }
    let mut i: usize = 0;
    while i < entries.len()
        invariant
            i <= entries@.len(),
            forall|j: int| 0 <= j < i ==> entries@[j].0@ != key@,
            match lookup_index(entries@, key@) {
                Some(k) => 0 <= k < entries@.len() && entries@[k].0@ == key@ && lookup(entries@, key@)
                    == Some(entries@[k].1) && forall|j: int| 0 <= j < k ==> entries@[j].0@ != key@,
                None => lookup(entries@, key@) is None && forall|j: int|
                    0 <= j < entries@.len() ==> entries@[j].0@ != key@,
            },
        decreases entries@.len() - i,
    {
        if entries[i].0 == *key {
            proof {
                match lookup_index(entries@, key@) {
                    Some(k) => {
                        assert(k == i);
                    },
                    None => {
                        assert(entries@[i as int].0@ == key@);
                    },
                }
            }
            return Some(&entries[i].1);
        }
        i = i + 1;
    }
    None
}

/// Name of the kind of a JSON value, as used in error messages.
pub open spec fn kind_name(v: JsonValue) -> Seq<char> {
    match v {
        JsonValue::Null => "null"@,
        JsonValue::Bool(_) => "bool"@,
        JsonValue::Number(_) => "number"@,
        JsonValue::String(_) => "string"@,
        JsonValue::Array(_) => "array"@,
        JsonValue::Object(_) => "object"@,
    }
}

/// Name of the kind of a JSON value, as used in error messages.
pub fn json_type_name(v: &JsonValue) -> (s: String)
    ensures
        s@ == kind_name(*v),
{
    match v {
        JsonValue::Null => crate::text::string_of("null"),
        JsonValue::Bool(_) => crate::text::string_of("bool"),
        JsonValue::Number(_) => crate::text::string_of("number"),
        JsonValue::String(_) => crate::text::string_of("string"),
        JsonValue::Array(_) => crate::text::string_of("array"),
        JsonValue::Object(_) => crate::text::string_of("object"),
    }
}

} // verus!
