//! Encoding a JSON document into a FlatBuffers binary under a compiled
//! schema: the inverse of walking a binary and decoding its annotations.

use vstd::prelude::*;
use crate::buffer::{
    align_buf, append_bytes, append_zeros, bits_of_i64, buf_len, i64_bits, le16, le32, le_bytes,
    le_low, lemma_le_low_len, lemma_pad_len, pad, pad_len, patch_u32_le, splice, write_at,
    write_u16_le, write_u32_le, zeros, same_prefix, lemma_same_prefix_append,
    lemma_same_prefix_splice, lemma_same_prefix_update, lemma_same_prefix_trans,
};
use crate::json::{
    find_member, json_type_name, kind_name, lookup, number_as_i64, number_as_u64, JsonValue,
};
use crate::schema::{
    base_type_name, base_type_name_spec, base_type_of, bt_of, element_of, element_type_of,
    field_id, field_inline_size, field_offset, index_of, inline_layout, is_scalar_spec,
    layout_bound, name_or_q, name_or_question, obj_byte_size, obj_min_align, object_wf,
    scalar_size_spec, schema_wf,
    type_index_of, BaseType, Enum, EnumVal, Field, FieldType, Object, Schema, max_id,
    field_order, entries_of, as_ints, lemma_order_below, compute_field_order,
};
use crate::text::{decimal, decimal_int, push_decimal, push_decimal_i64, push_str, string_of};
use crate::permalink::{lemma_read_le32, read_le32};

verus! {

/// Nesting depth beyond which encoding stops.
pub const MAX_DEPTH: usize = 64;

/// Why a JSON document could not be encoded.
#[derive(Debug, Clone, PartialEq)]
pub enum JsonEncodeError {
    RootTypeNotFound { name: String },
    ExpectedObject { object_name: String, actual: String },
    ExpectedArray { field_name: String, actual: String },
    ExpectedNumber { field_name: String, base_type: String, actual: String },
    ExpectedString { field_name: String, actual: String },
    UnknownField { object_name: String, field_name: String },
    UnknownEnumValue { enum_name: String, value: String },
    MissingUnionType { field_name: String },
    ObjectIndexOutOfRange { index: usize, count: usize },
    EnumIndexOutOfRange { index: usize, count: usize },
    MaxDepthExceeded { max: usize },
    MissingStructField { field_name: String },
    NumberOutOfRange { field_name: String, base_type: String, value: String },
}

/// The contents of a [`JsonEncodeError`], with texts as character sequences.
pub enum EncodeFault {
    RootTypeNotFound { name: Seq<char> },
    ExpectedObject { object_name: Seq<char>, actual: Seq<char> },
    ExpectedArray { field_name: Seq<char>, actual: Seq<char> },
    ExpectedNumber { field_name: Seq<char>, base_type: Seq<char>, actual: Seq<char> },
    ExpectedString { field_name: Seq<char>, actual: Seq<char> },
    UnknownField { object_name: Seq<char>, field_name: Seq<char> },
    UnknownEnumValue { enum_name: Seq<char>, value: Seq<char> },
    MissingUnionType { field_name: Seq<char> },
    ObjectIndexOutOfRange { index: nat, count: nat },
    EnumIndexOutOfRange { index: nat, count: nat },
    MaxDepthExceeded { max: nat },
    MissingStructField { field_name: Seq<char> },
    NumberOutOfRange { field_name: Seq<char>, base_type: Seq<char>, value: Seq<char> },
}

impl View for JsonEncodeError {
    type V = EncodeFault;

    open spec fn view(&self) -> EncodeFault {
        match self {
            JsonEncodeError::RootTypeNotFound { name } => EncodeFault::RootTypeNotFound { name: name@ },
            JsonEncodeError::ExpectedObject { object_name, actual } => EncodeFault::ExpectedObject {
                object_name: object_name@,
                actual: actual@,
            },
            JsonEncodeError::ExpectedArray { field_name, actual } => EncodeFault::ExpectedArray {
                field_name: field_name@,
                actual: actual@,
            },
            JsonEncodeError::ExpectedNumber { field_name, base_type, actual } =>
                EncodeFault::ExpectedNumber {
                    field_name: field_name@,
                    base_type: base_type@,
                    actual: actual@,
                },
            JsonEncodeError::ExpectedString { field_name, actual } => EncodeFault::ExpectedString {
                field_name: field_name@,
                actual: actual@,
            },
            JsonEncodeError::UnknownField { object_name, field_name } => EncodeFault::UnknownField {
                object_name: object_name@,
                field_name: field_name@,
            },
            JsonEncodeError::UnknownEnumValue { enum_name, value } =>
                EncodeFault::UnknownEnumValue { enum_name: enum_name@, value: value@ },
            JsonEncodeError::MissingUnionType { field_name } => EncodeFault::MissingUnionType {
                field_name: field_name@,
            },
            JsonEncodeError::ObjectIndexOutOfRange { index, count } =>
                EncodeFault::ObjectIndexOutOfRange { index: *index as nat, count: *count as nat },
            JsonEncodeError::EnumIndexOutOfRange { index, count } =>
                EncodeFault::EnumIndexOutOfRange { index: *index as nat, count: *count as nat },
            JsonEncodeError::MaxDepthExceeded { max } => EncodeFault::MaxDepthExceeded {
                max: *max as nat,
            },
            JsonEncodeError::MissingStructField { field_name } =>
                EncodeFault::MissingStructField { field_name: field_name@ },
            JsonEncodeError::NumberOutOfRange { field_name, base_type, value } =>
                EncodeFault::NumberOutOfRange {
                    field_name: field_name@,
                    base_type: base_type@,
                    value: value@,
                },
        }
    }
}

/// An exec result agrees with a specified one: same value, or an error with
/// the same contents.
pub open spec fn agrees<T>(r: Result<T, JsonEncodeError>, s: Result<T, EncodeFault>) -> bool {
    match s {
        Ok(v) => r == Ok::<T, JsonEncodeError>(v),
        Err(f) => r is Err && r->Err_0@ == f,
    }
}

// ---------------------------------------------------------------------------
// Enum resolution and scalars
// ---------------------------------------------------------------------------

/// Index of the first enum value named `name`.
pub open spec fn first_named(vals: Seq<EnumVal>, name: Seq<char>) -> Option<int>
    decreases vals.len(),
{
    if vals.len() == 0 {
        None
    } else if vals[0].name is Some && vals[0].name->0@ == name {
        Some(0)
    } else {
        match first_named(vals.drop_first(), name) {
            Some(i) => Some(i + 1),
            None => None,
        }
    }
}

proof fn lemma_first_named(vals: Seq<EnumVal>, name: Seq<char>)
    ensures
        match first_named(vals, name) {
            Some(i) => 0 <= i < vals.len() && vals[i].name is Some && vals[i].name->0@ == name
                && forall|j: int| 0 <= j < i ==> !(vals[j].name is Some && vals[j].name->0@ == name),
            None => forall|j: int|
                0 <= j < vals.len() ==> !(vals[j].name is Some && vals[j].name->0@ == name),
        },
    decreases vals.len(),
{
    if vals.len() > 0 && !(vals[0].name is Some && vals[0].name->0@ == name) {
        lemma_first_named(vals.drop_first(), name);
        assert forall|j: int| 0 < j < vals.len() implies vals[j] == vals.drop_first()[j - 1] by {}
    }
}

/// The value an enum member denotes (0 when absent).
pub open spec fn enum_value_of(v: EnumVal) -> i64 {
    match v.value {
        Some(x) => x,
        None => 0,
    }
}

/// Value of a JSON enum reference: a member name, or a number.
pub open spec fn spec_resolve_enum(s: Schema, json: JsonValue, enum_idx: nat, fname: Seq<char>) -> Result<i64, EncodeFault> {
    if enum_idx >= s.enums@.len() {
        Err(EncodeFault::EnumIndexOutOfRange { index: enum_idx, count: s.enums@.len() })
    } else {
        let e = s.enums@[enum_idx as int];
        let en = name_or_q(e.name);
        match json {
            JsonValue::String(st) => match first_named(e.values@, st@) {
                Some(k) => Ok(enum_value_of(e.values@[k])),
                None => Err(EncodeFault::UnknownEnumValue { enum_name: en, value: st@ }),
            },
            JsonValue::Number(n) => Ok(
                match number_as_i64(n) {
                    Some(i) => i,
                    None => 0,
                },
            ),
            _ => Err(EncodeFault::ExpectedNumber {
                field_name: fname,
                base_type: "enum "@ + en,
                actual: kind_name(json),
            }),
        }
    }
}

/// Resolves a JSON enum reference (member name or number) to its value.
pub fn resolve_enum_value(s: &Schema, json: &JsonValue, enum_idx: usize, fname: &String) -> (r: Result<i64, JsonEncodeError>)
    ensures
        agrees(r, spec_resolve_enum(*s, *json, enum_idx as nat, fname@)),
{
    if enum_idx >= s.enums.len() {
        return Err(JsonEncodeError::EnumIndexOutOfRange { index: enum_idx, count: s.enums.len() });
    }
    let e = &s.enums[enum_idx];
    let en = name_or_question(&e.name);
    match json {
        JsonValue::String(st) => {
            proof {
                lemma_first_named(e.values@, st@);
            }
            let mut k: usize = 0;
            while k < e.values.len()
                invariant
                    *json == JsonValue::String(*st),
                    enum_idx < s.enums@.len(),
                    *e == s.enums@[enum_idx as int],
                    en@ == name_or_q(e.name),
                    k <= e.values@.len(),
                    forall|j: int| 0 <= j < k ==> !(e.values@[j].name is Some && e.values@[j].name->0@ == st@),
                    match first_named(e.values@, st@) {
                        Some(i) => 0 <= i < e.values@.len() && e.values@[i].name is Some && e.values@[i].name->0@ == st@
                            && forall|j: int| 0 <= j < i ==> !(e.values@[j].name is Some && e.values@[j].name->0@ == st@),
                        None => forall|j: int|
                            0 <= j < e.values@.len() ==> !(e.values@[j].name is Some && e.values@[j].name->0@ == st@),
                    },
                decreases e.values@.len() - k,
            {
                match &e.values[k].name {
                    Some(nm) => {
                        if *nm == *st {
                            proof {
                                match first_named(e.values@, st@) {
                                    Some(i) => {
                                        assert(i == k);
                                    },
                                    None => {
                                        assert(e.values@[k as int].name is Some);
                                    },
                                }
                            }
                            let v = match e.values[k].value {
                                Some(x) => x,
                                None => 0,
                            };
                            assert(first_named(e.values@, st@) == Some(k as int));
                            assert(v == enum_value_of(e.values@[k as int]));
                            assert(*json == JsonValue::String(*st));
                            return Ok(v);
                        }
                    },
                    None => {},
                }
                k = k + 1;
            }
            Err(JsonEncodeError::UnknownEnumValue { enum_name: en, value: st.clone() })
        },
        JsonValue::Number(n) => Ok(
            match n.as_i64() {
                Some(i) => i,
                None => 0,
            },
        ),
        _ => {
            let mut bt = string_of("enum ");
            push_str(&mut bt, en.as_str());
            Err(JsonEncodeError::ExpectedNumber { field_name: fname.clone(), base_type: bt, actual: json_type_name(json) })
        },
    }
}

/// A JSON value read as an `i64`: integers directly, other numbers through
/// their float form, booleans as 0 / 1.
pub open spec fn spec_as_i64(v: JsonValue, fname: Seq<char>, bt: BaseType) -> Result<i64, EncodeFault> {
    match v {
        JsonValue::Number(n) => Ok(
            match number_as_i64(n) {
                Some(i) => i,
                None => n.float.to_i64,
            },
        ),
        JsonValue::Bool(b) => Ok(if b { 1 } else { 0 }),
        _ => Err(EncodeFault::ExpectedNumber {
            field_name: fname,
            base_type: base_type_name_spec(bt),
            actual: kind_name(v),
        }),
    }
}

/// A JSON value read as a `u64`: non-negative integers directly, negative
/// integers by their two's-complement bits, other numbers through their float
/// form, booleans as 0 / 1.
pub open spec fn spec_as_u64(v: JsonValue, fname: Seq<char>, bt: BaseType) -> Result<nat, EncodeFault> {
    match v {
        JsonValue::Number(n) => Ok(
            match number_as_u64(n) {
                Some(u) => u as nat,
                None => match number_as_i64(n) {
                    Some(i) => bits_of_i64(i),
                    None => n.float.to_u64 as nat,
                },
            },
        ),
        JsonValue::Bool(b) => Ok(if b { 1nat } else { 0nat }),
        _ => Err(EncodeFault::ExpectedNumber {
            field_name: fname,
            base_type: base_type_name_spec(bt),
            actual: kind_name(v),
        }),
    }
}

/// Float forms of a JSON value (booleans as 0.0 / 1.0).
pub open spec fn spec_as_float(v: JsonValue, fname: Seq<char>, bt: BaseType) -> Result<(nat, nat), EncodeFault> {
    match v {
        JsonValue::Number(n) => Ok((n.float.f32_bits as nat, n.float.f64_bits as nat)),
        JsonValue::Bool(b) => Ok(
            if b {
                (0x3f80_0000nat, 0x3ff0_0000_0000_0000nat)
            } else {
                (0nat, 0nat)
            },
        ),
        _ => Err(EncodeFault::ExpectedNumber {
            field_name: fname,
            base_type: base_type_name_spec(bt),
            actual: kind_name(v),
        }),
    }
}

fn expected_number(fname: &String, bt: BaseType, v: &JsonValue) -> (e: JsonEncodeError)
    ensures
        e@ == (EncodeFault::ExpectedNumber {
            field_name: fname@,
            base_type: base_type_name_spec(bt),
            actual: kind_name(*v),
        }),
{
    JsonEncodeError::ExpectedNumber { field_name: fname.clone(), base_type: base_type_name(bt), actual: json_type_name(v) }
}

fn json_as_i64(v: &JsonValue, fname: &String, bt: BaseType) -> (r: Result<i64, JsonEncodeError>)
    ensures
        agrees(r, spec_as_i64(*v, fname@, bt)),
{
    match v {
        JsonValue::Number(n) => Ok(
            match n.as_i64() {
                Some(i) => i,
                None => n.float.to_i64,
            },
        ),
        JsonValue::Bool(b) => Ok(if *b { 1 } else { 0 }),
        _ => Err(expected_number(fname, bt, v)),
    }
}

fn json_as_u64(v: &JsonValue, fname: &String, bt: BaseType) -> (r: Result<u64, JsonEncodeError>)
    ensures
        match spec_as_u64(*v, fname@, bt) {
            Ok(u) => r is Ok && r->Ok_0 as nat == u,
            Err(f) => r is Err && r->Err_0@ == f,
        },
{
    match v {
        JsonValue::Number(n) => Ok(
            match n.as_u64() {
                Some(u) => u,
                None => match n.as_i64() {
                    Some(i) => i64_bits(i),
                    None => n.float.to_u64,
                },
            },
        ),
        JsonValue::Bool(b) => Ok(if *b { 1 } else { 0 }),
        _ => Err(expected_number(fname, bt, v)),
    }
}

fn json_as_float(v: &JsonValue, fname: &String, bt: BaseType) -> (r: Result<(u32, u64), JsonEncodeError>)
    ensures
        match spec_as_float(*v, fname@, bt) {
            Ok(p) => r is Ok && r->Ok_0.0 as nat == p.0 && r->Ok_0.1 as nat == p.1,
            Err(f) => r is Err && r->Err_0@ == f,
        },
{
    match v {
        JsonValue::Number(n) => Ok((n.float.f32_bits, n.float.f64_bits)),
        JsonValue::Bool(b) => Ok(
            if *b {
                (0x3f80_0000u32, 0x3ff0_0000_0000_0000u64)
            } else {
                (0u32, 0u64)
            },
        ),
        _ => Err(expected_number(fname, bt, v)),
    }
}

/// Bytes of an integer written as a field of base type `bt`.
pub open spec fn spec_int_bytes(val: i64, bt: BaseType, fname: Seq<char>) -> Result<Seq<u8>, EncodeFault> {
    match bt {
        BaseType::BASE_TYPE_BOOL => Ok(seq![if val != 0 { 1u8 } else { 0u8 }]),
        BaseType::BASE_TYPE_BYTE | BaseType::BASE_TYPE_U_BYTE => Ok(le_low(bits_of_i64(val), 1)),
        BaseType::BASE_TYPE_SHORT | BaseType::BASE_TYPE_U_SHORT => Ok(le_low(bits_of_i64(val), 2)),
        BaseType::BASE_TYPE_INT | BaseType::BASE_TYPE_U_INT => Ok(le_low(bits_of_i64(val), 4)),
        BaseType::BASE_TYPE_LONG | BaseType::BASE_TYPE_U_LONG => Ok(le_low(bits_of_i64(val), 8)),
        _ => Err(EncodeFault::NumberOutOfRange {
            field_name: fname,
            base_type: base_type_name_spec(bt),
            value: decimal_int(val as int),
        }),
    }
}

/// Writes an integer as a field of base type `bt`.
pub fn integer_to_bytes(val: i64, bt: BaseType, fname: &String) -> (r: Result<Vec<u8>, JsonEncodeError>)
    ensures
        match spec_int_bytes(val, bt, fname@) {
            Ok(b) => r is Ok && r->Ok_0@ == b,
            Err(f) => r is Err && r->Err_0@ == f,
        },
{
    let u = i64_bits(val);
    match bt {
        BaseType::BASE_TYPE_BOOL => {
            let mut v: Vec<u8> = Vec::new();
            v.push(if val != 0 { 1u8 } else { 0u8 });
            assert(v@ =~= seq![if val != 0 { 1u8 } else { 0u8 }]);
            Ok(v)
        },
        BaseType::BASE_TYPE_BYTE | BaseType::BASE_TYPE_U_BYTE => Ok(le_bytes(u, 1)),
        BaseType::BASE_TYPE_SHORT | BaseType::BASE_TYPE_U_SHORT => Ok(le_bytes(u, 2)),
        BaseType::BASE_TYPE_INT | BaseType::BASE_TYPE_U_INT => Ok(le_bytes(u, 4)),
        BaseType::BASE_TYPE_LONG | BaseType::BASE_TYPE_U_LONG => Ok(le_bytes(u, 8)),
        _ => {
            let mut value = String::new();
            push_decimal_i64(&mut value, val);
            assert(value@ =~= decimal_int(val as int));
            Err(JsonEncodeError::NumberOutOfRange { field_name: fname.clone(), base_type: base_type_name(bt), value })
        },
    }
}

/// Referenced index of an optional type, if any.
pub open spec fn enum_index_opt(t: Option<FieldType>) -> Option<u32> {
    match t {
        Some(t) => t.index,
        None => None,
    }
}

/// Bytes of a JSON value written as a scalar of base type `bt` (with `ty`
/// naming an enum when the value is given by member name).
pub open spec fn spec_scalar(s: Schema, v: JsonValue, bt: BaseType, ty: Option<FieldType>, fname: Seq<char>) -> Result<Seq<u8>, EncodeFault> {
    let ei = enum_index_opt(ty);
    if ei is Some && (ei->0 as nat) < s.enums@.len() && v is String {
        match spec_resolve_enum(s, v, ei->0 as nat, fname) {
            Ok(val) => spec_int_bytes(val, bt, fname),
            Err(f) => Err(f),
        }
    } else {
        match bt {
            BaseType::BASE_TYPE_BOOL => match v {
                JsonValue::Bool(b) => Ok(seq![if b { 1u8 } else { 0u8 }]),
                JsonValue::Number(n) => Ok(
                    seq![
                        if (match number_as_u64(n) {
                            Some(u) => u,
                            None => 0,
                        }) != 0 {
                            1u8
                        } else {
                            0u8
                        },
                    ],
                ),
                _ => Err(EncodeFault::ExpectedNumber {
                    field_name: fname,
                    base_type: base_type_name_spec(bt),
                    actual: kind_name(v),
                }),
            },
            BaseType::BASE_TYPE_BYTE | BaseType::BASE_TYPE_SHORT | BaseType::BASE_TYPE_INT
            | BaseType::BASE_TYPE_LONG => match spec_as_i64(v, fname, bt) {
                Ok(i) => Ok(le_low(bits_of_i64(i), scalar_size_spec(bt))),
                Err(f) => Err(f),
            },
            BaseType::BASE_TYPE_U_BYTE | BaseType::BASE_TYPE_U_SHORT | BaseType::BASE_TYPE_U_INT
            | BaseType::BASE_TYPE_U_LONG => match spec_as_u64(v, fname, bt) {
                Ok(u) => Ok(le_low(u, scalar_size_spec(bt))),
                Err(f) => Err(f),
            },
            BaseType::BASE_TYPE_FLOAT => match spec_as_float(v, fname, bt) {
                Ok(p) => Ok(le_low(p.0, 4)),
                Err(f) => Err(f),
            },
            BaseType::BASE_TYPE_DOUBLE => match spec_as_float(v, fname, bt) {
                Ok(p) => Ok(le_low(p.1, 8)),
                Err(f) => Err(f),
            },
            _ => Ok(zeros(scalar_size_spec(bt))),
        }
    }
}

/// Encodes a JSON value as a scalar of base type `bt`.
pub fn encode_scalar_value(s: &Schema, v: &JsonValue, bt: BaseType, ty: &Option<FieldType>, fname: &String) -> (r: Result<Vec<u8>, JsonEncodeError>)
    ensures
        match spec_scalar(*s, *v, bt, *ty, fname@) {
            Ok(b) => r is Ok && r->Ok_0@ == b,
            Err(f) => r is Err && r->Err_0@ == f,
        },
{
    let ei: Option<u32> = match ty {
        Some(t) => t.index,
        None => None,
    };
    if let Some(idx) = ei {
        if (idx as usize) < s.enums.len() {
            if let JsonValue::String(_) = v {
                let val = match resolve_enum_value(s, v, idx as usize, fname) {
                    Ok(x) => x,
                    Err(e) => return Err(e),
                };
                return integer_to_bytes(val, bt, fname);
            }
        }
    }
    match bt {
        BaseType::BASE_TYPE_BOOL => {
            let b: bool = match v {
                JsonValue::Bool(b) => *b,
                JsonValue::Number(n) => (match n.as_u64() {
                    Some(u) => u,
                    None => 0,
                }) != 0,
                _ => {
                    return Err(expected_number(fname, bt, v));
                },
            };
            let mut out: Vec<u8> = Vec::new();
            out.push(if b { 1u8 } else { 0u8 });
            assert(out@ =~= seq![if b { 1u8 } else { 0u8 }]);
            Ok(out)
        },
        BaseType::BASE_TYPE_BYTE | BaseType::BASE_TYPE_SHORT | BaseType::BASE_TYPE_INT
        | BaseType::BASE_TYPE_LONG => {
            let i = match json_as_i64(v, fname, bt) {
                Ok(i) => i,
                Err(e) => return Err(e),
            };
            Ok(le_bytes(i64_bits(i), bt.scalar_byte_size()))
        },
        BaseType::BASE_TYPE_U_BYTE | BaseType::BASE_TYPE_U_SHORT | BaseType::BASE_TYPE_U_INT
        | BaseType::BASE_TYPE_U_LONG => {
            let u = match json_as_u64(v, fname, bt) {
                Ok(u) => u,
                Err(e) => return Err(e),
            };
            Ok(le_bytes(u, bt.scalar_byte_size()))
        },
        BaseType::BASE_TYPE_FLOAT => {
            let p = match json_as_float(v, fname, bt) {
                Ok(p) => p,
                Err(e) => return Err(e),
            };
            Ok(le_bytes(p.0 as u64, 4))
        },
        BaseType::BASE_TYPE_DOUBLE => {
            let p = match json_as_float(v, fname, bt) {
                Ok(p) => p,
                Err(e) => return Err(e),
            };
            Ok(le_bytes(p.1, 8))
        },
        _ => {
            let mut out: Vec<u8> = Vec::new();
            append_zeros(&mut out, bt.scalar_byte_size());
            assert(out@ =~= zeros(scalar_size_spec(bt)));
            Ok(out)
        },
    }
}

} // verus!

verus! {

// ---------------------------------------------------------------------------
// Structs (inline)
// ---------------------------------------------------------------------------

/// `min(a, b)`.
pub open spec fn min_nat(a: nat, b: nat) -> nat {
    if a <= b { a } else { b }
}

/// Bytes of one struct field written into `data` (of struct size `bs`).
pub open spec fn place_field(data: Seq<u8>, off: nat, bytes: Seq<u8>, bs: nat) -> Seq<u8> {
    let end = min_nat(off + bytes.len(), bs);
    splice(data, off as int, bytes.subrange(0, end - off))
}

/// The struct image after writing its first `k` fields.
pub open spec fn spec_struct_fields(s: Schema, jobj: Seq<(String, JsonValue)>, fields: Seq<Field>, bs: nat, k: nat, depth: nat) -> Result<Seq<u8>, EncodeFault>
    decreases MAX_DEPTH + 1 - depth, k,
{
    if k == 0 || k > fields.len() || depth > MAX_DEPTH {
        Ok(zeros(bs))
    } else {
        match spec_struct_fields(s, jobj, fields, bs, (k - 1) as nat, depth) {
            Err(f) => Err(f),
            Ok(data) => {
                let f = fields[k - 1];
                let fname = name_or_q(f.name);
                match lookup(jobj, fname) {
                    None => Err(EncodeFault::MissingStructField { field_name: fname }),
                    Some(val) => {
                        let bt = bt_of(f.type_);
                        let bytes = if bt == BaseType::BASE_TYPE_STRUCT {
                            spec_struct(s, val, index_of(f.type_), depth + 1)
                        } else {
                            spec_scalar(s, val, bt, f.type_, fname)
                        };
                        match bytes {
                            Err(e) => Err(e),
                            Ok(b) => Ok(place_field(data, field_offset(f), b, bs)),
                        }
                    },
                }
            },
        }
    }
}

/// Bytes of a JSON object written inline as struct `obj_idx`.
pub open spec fn spec_struct(s: Schema, v: JsonValue, obj_idx: nat, depth: nat) -> Result<Seq<u8>, EncodeFault>
    decreases MAX_DEPTH + 1 - depth, (if obj_idx < s.objects@.len() { s.objects@[obj_idx as int].fields@.len() + 1 } else { 0 }),
{
    if depth > MAX_DEPTH {
        Err(EncodeFault::MaxDepthExceeded { max: MAX_DEPTH as nat })
    } else if obj_idx >= s.objects@.len() {
        Err(EncodeFault::ObjectIndexOutOfRange { index: obj_idx, count: s.objects@.len() })
    } else {
        let o = s.objects@[obj_idx as int];
        match v {
            JsonValue::Object(entries) => spec_struct_fields(s, entries@, o.fields@, obj_byte_size(o), o.fields@.len(), depth),
            _ => Err(EncodeFault::ExpectedObject { object_name: name_or_q(o.name), actual: kind_name(v) }),
        }
    }
}

proof fn lemma_struct_fields_len(s: Schema, jobj: Seq<(String, JsonValue)>, fields: Seq<Field>, bs: nat, k: nat, depth: nat)
    requires
        forall|j: int| 0 <= j < fields.len() ==> field_offset(#[trigger] fields[j]) <= bs,
    ensures
        spec_struct_fields(s, jobj, fields, bs, k, depth) matches Ok(d) ==> d.len() == bs,
    decreases k,
{
    if k > 0 && k <= fields.len() && depth <= MAX_DEPTH {
        lemma_struct_fields_len(s, jobj, fields, bs, (k - 1) as nat, depth);
    }
}

proof fn lemma_struct_fields_err(s: Schema, jobj: Seq<(String, JsonValue)>, fields: Seq<Field>, bs: nat, k: nat, n: nat, depth: nat)
    requires
        k <= n <= fields.len(),
        spec_struct_fields(s, jobj, fields, bs, k, depth) is Err,
    ensures
        spec_struct_fields(s, jobj, fields, bs, n, depth) == spec_struct_fields(s, jobj, fields, bs, k, depth),
    decreases n - k,
{
    if n > k {
        lemma_struct_fields_err(s, jobj, fields, bs, k, (n - 1) as nat, depth);
    }
}

/// Writes the first `n` bytes of `data` at `pos`.
fn write_prefix_at(buf: &mut Vec<u8>, pos: usize, data: &[u8], n: usize)
    requires
        n <= data@.len(),
        pos + n <= old(buf)@.len(),
    ensures
        final(buf)@ == splice(old(buf)@, pos as int, data@.subrange(0, n as int)),
{
    let _ = buf.len();
    let mut i: usize = 0;
    while i < n
        invariant
            i <= n <= data@.len(),
            pos + n <= old(buf)@.len(),
            old(buf)@.len() <= usize::MAX,
            buf@.len() == old(buf)@.len(),
            forall|j: int| 0 <= j < pos ==> buf@[j] == old(buf)@[j],
            forall|j: int| pos <= j < pos + i ==> buf@[j] == data@[j - pos],
            forall|j: int| pos + i <= j < buf@.len() ==> buf@[j] == old(buf)@[j],
        decreases n - i,
    {
        buf.set(pos + i, data[i]);
        i = i + 1;
    }
    assert(buf@ =~= splice(old(buf)@, pos as int, data@.subrange(0, n as int)));
}

/// Encodes a JSON object inline as struct `obj_idx`.
pub fn encode_struct_inline(s: &Schema, v: &JsonValue, obj_idx: usize, depth: usize) -> (r: Result<Vec<u8>, JsonEncodeError>)
    requires
        schema_wf(*s),
    ensures
        match spec_struct(*s, *v, obj_idx as nat, depth as nat) {
            Ok(b) => r is Ok && r->Ok_0@ == b,
            Err(f) => r is Err && r->Err_0@ == f,
        },
    decreases MAX_DEPTH + 2 - depth,
{
    if depth > MAX_DEPTH {
        return Err(JsonEncodeError::MaxDepthExceeded { max: MAX_DEPTH });
    }
    if obj_idx >= s.objects.len() {
        return Err(JsonEncodeError::ObjectIndexOutOfRange { index: obj_idx, count: s.objects.len() });
    }
    let o = &s.objects[obj_idx];
    assert(object_wf(*s, s.objects@[obj_idx as int]));
    let bs: usize = match o.byte_size {
        Some(b) => b as usize,
        None => 0,
    };
    let entries = match v {
        JsonValue::Object(entries) => entries,
        _ => {
            return Err(JsonEncodeError::ExpectedObject { object_name: name_or_question(&o.name), actual: json_type_name(v) });
        },
    };
    let mut data: Vec<u8> = Vec::new();
    append_zeros(&mut data, bs);
    let mut k: usize = 0;
    while k < o.fields.len()
        invariant
            schema_wf(*s),
            depth <= MAX_DEPTH,
            obj_idx < s.objects@.len(),
            *o == s.objects@[obj_idx as int],
            object_wf(*s, *o),
            bs == obj_byte_size(*o),
            *v == JsonValue::Object(*entries),
            k <= o.fields@.len(),
            spec_struct_fields(*s, entries@, o.fields@, bs as nat, k as nat, depth as nat) == Ok::<Seq<u8>, EncodeFault>(data@),
        decreases o.fields@.len() - k,
    {
        proof {
            lemma_struct_fields_len(*s, entries@, o.fields@, bs as nat, k as nat, depth as nat);
        }
        let f = &o.fields[k];
        let fname = name_or_question(&f.name);
        let off: usize = match f.offset {
            Some(x) => x as usize,
            None => 0,
        };
        assert(field_offset(o.fields@[k as int]) <= bs);
        let val = match find_member(entries, &fname) {
            Some(val) => val,
            None => {
                proof {
                    lemma_struct_fields_err(*s, entries@, o.fields@, bs as nat, (k + 1) as nat, o.fields@.len(), depth as nat);
                }
                return Err(JsonEncodeError::MissingStructField { field_name: fname });
            },
        };
        let bt = base_type_of(&f.type_);
        let bytes = if bt == BaseType::BASE_TYPE_STRUCT {
            match encode_struct_inline(s, val, type_index_of(&f.type_), depth + 1) {
                Ok(b) => b,
                Err(e) => {
                    proof {
                        lemma_struct_fields_err(*s, entries@, o.fields@, bs as nat, (k + 1) as nat, o.fields@.len(), depth as nat);
                    }
                    return Err(e);
                },
            }
        } else {
            match encode_scalar_value(s, val, bt, &f.type_, &fname) {
                Ok(b) => b,
                Err(e) => {
                    proof {
                        lemma_struct_fields_err(*s, entries@, o.fields@, bs as nat, (k + 1) as nat, o.fields@.len(), depth as nat);
                    }
                    return Err(e);
                },
            }
        };
        let end = if bytes.len() <= bs - off { off + bytes.len() } else { bs };
        write_prefix_at(&mut data, off, bytes.as_slice(), end - off);
        k = k + 1;
    }
    Ok(data)
}

} // verus!

verus! {

// ---------------------------------------------------------------------------
// Specification of the table / vector / string / union layout
// ---------------------------------------------------------------------------

/// `b` with the little-endian form of `v` written at `p`.
pub open spec fn patch32(b: Seq<u8>, p: int, v: u32) -> Seq<u8> {
    splice(b, p, le32(v))
}

/// The JSON object has a member for this field.
pub open spec fn present(jobj: Seq<(String, JsonValue)>, f: Field) -> bool {
    lookup(jobj, name_or_q(f.name)) is Some
}

/// Table data size and vtable offsets after placing the first `k` fields of
/// `order` (absent fields take no space; present ones are aligned and placed
/// one after the other behind the 4-byte soffset).
pub open spec fn layout(s: Schema, jobj: Seq<(String, JsonValue)>, fields: Seq<Field>, order: Seq<int>, k: nat) -> (int, Seq<u16>)
    decreases k,
{
    if k == 0 || k > order.len() {
        (4, Seq::new(entries_of(fields), |i: int| 0u16))
    } else {
        let prev = layout(s, jobj, fields, order, (k - 1) as nat);
        let f = fields[order[k - 1]];
        if !present(jobj, f) {
            prev
        } else {
            let (size, al) = inline_layout(s, f);
            let sz2 = if al > 0 { prev.0 + pad_len(prev.0 as nat, al) } else { prev.0 };
            (sz2 + size, prev.1.update(field_id(f) as int, sz2 as u16))
        }
    }
}

/// Little-endian forms of a sequence of `u16`s.
pub open spec fn le16s(v: Seq<u16>) -> Seq<u8>
    decreases v.len(),
{
    if v.len() == 0 {
        Seq::empty()
    } else {
        le16s(v.drop_last()) + le16(v.last())
    }
}

/// UTF-8 bytes of a string.
pub open spec fn utf8(s: Seq<char>) -> Seq<u8> {
    vstd::utf8::encode_utf8(s)
}

/// A string written at the next 4-aligned position: length, bytes, NUL,
/// padding to 4. Yields the buffer and the string's position.
pub open spec fn spec_string(b: Seq<u8>, st: Seq<char>) -> (Seq<u8>, nat) {
    let b1 = pad(b, 4);
    let bytes = utf8(st);
    (pad(b1 + le32(bytes.len() as u32) + bytes + seq![0u8], 4), b1.len())
}

/// The name used for element `i` of vector field `fname` in error messages.
pub open spec fn elem_name(fname: Seq<char>, i: nat) -> Seq<char> {
    fname + "["@ + decimal(i) + "]"@
}

/// Scalar vector elements appended after the first `k` elements.
pub open spec fn spec_vec_scalars(s: Schema, arr: Seq<JsonValue>, ebt: BaseType, ty: Option<FieldType>, fname: Seq<char>, b: Seq<u8>, k: nat) -> Result<Seq<u8>, EncodeFault>
    decreases k,
{
    if k == 0 || k > arr.len() {
        Ok(b)
    } else {
        match spec_vec_scalars(s, arr, ebt, ty, fname, b, (k - 1) as nat) {
            Err(f) => Err(f),
            Ok(b1) => match spec_scalar(s, arr[k - 1], ebt, ty, elem_name(fname, (k - 1) as nat)) {
                Err(f) => Err(f),
                Ok(x) => Ok(b1 + x),
            },
        }
    }
}

/// String vector elements written (and their offsets patched) for the first `k` elements.
pub open spec fn spec_vec_strings(arr: Seq<JsonValue>, fname: Seq<char>, pos: nat, b: Seq<u8>, k: nat) -> Result<Seq<u8>, EncodeFault>
    decreases k,
{
    if k == 0 || k > arr.len() {
        Ok(b)
    } else {
        match spec_vec_strings(arr, fname, pos, b, (k - 1) as nat) {
            Err(f) => Err(f),
            Ok(b1) => match arr[k - 1] {
                JsonValue::String(st) => {
                    let (b2, t) = spec_string(b1, st@);
                    let ph = pos + 4 + 4 * (k - 1);
                    Ok(patch32(b2, ph, (t - ph) as u32))
                },
                _ => Err(EncodeFault::ExpectedString {
                    field_name: elem_name(fname, (k - 1) as nat),
                    actual: kind_name(arr[k - 1]),
                }),
            },
        }
    }
}

/// Struct vector elements appended after the first `k` elements.
pub open spec fn spec_vec_structs(s: Schema, arr: Seq<JsonValue>, inner: nat, b: Seq<u8>, k: nat, depth: nat) -> Result<Seq<u8>, EncodeFault>
    decreases k,
{
    if k == 0 || k > arr.len() {
        Ok(b)
    } else {
        match spec_vec_structs(s, arr, inner, b, (k - 1) as nat, depth) {
            Err(f) => Err(f),
            Ok(b1) => match spec_struct(s, arr[k - 1], inner, depth + 1) {
                Err(f) => Err(f),
                Ok(x) => Ok(b1 + x),
            },
        }
    }
}

/// Bytes written by the inline pass of a table over the first `k` fields of
/// `order`: scalars, union type tags and structs go into their slots.
pub open spec fn spec_inline(s: Schema, jobj: Seq<(String, JsonValue)>, fields: Seq<Field>, order: Seq<int>, offs: Seq<u16>, tp: nat, b: Seq<u8>, k: nat, depth: nat) -> Result<Seq<u8>, EncodeFault>
    decreases k,
{
    if k == 0 || k > order.len() {
        Ok(b)
    } else {
        match spec_inline(s, jobj, fields, order, offs, tp, b, (k - 1) as nat, depth) {
            Err(f) => Err(f),
            Ok(b1) => {
                let f = fields[order[k - 1]];
                let fname = name_or_q(f.name);
                if !present(jobj, f) {
                    Ok(b1)
                } else {
                    let val = lookup(jobj, fname)->0;
                    let bt = bt_of(f.type_);
                    let fp = tp + offs[field_id(f) as int];
                    if bt == BaseType::BASE_TYPE_U_TYPE {
                        match spec_resolve_enum(s, val, index_of(f.type_), fname) {
                            Err(e) => Err(e),
                            Ok(v) => Ok(b1.update(fp, (bits_of_i64(v) % 256) as u8)),
                        }
                    } else if bt == BaseType::BASE_TYPE_STRUCT {
                        match spec_struct(s, val, index_of(f.type_), depth + 1) {
                            Err(e) => Err(e),
                            Ok(x) => Ok(splice(b1, fp, x)),
                        }
                    } else if is_scalar_spec(bt) {
                        match spec_scalar(s, val, bt, f.type_, fname) {
                            Err(e) => Err(e),
                            Ok(x) => Ok(splice(b1, fp, x)),
                        }
                    } else {
                        Ok(b1)
                    }
                }
            },
        }
    }
}

/// The four bytes of the file identifier (its UTF-8 bytes, zero-padded), or
/// none without one.
pub open spec fn ident_bytes(ident: Option<String>) -> Seq<u8> {
    match ident {
        Some(id) => Seq::new(4, |i: int| if i < utf8(id@).len() { utf8(id@)[i] } else { 0u8 }),
        None => Seq::empty(),
    }
}

/// Index of the first enum value whose value is `v`.
pub open spec fn first_with_value(vals: Seq<EnumVal>, v: i64) -> Option<int>
    decreases vals.len(),
{
    if vals.len() == 0 {
        None
    } else if vals[0].value == Some(v) {
        Some(0)
    } else {
        match first_with_value(vals.drop_first(), v) {
            Some(i) => Some(i + 1),
            None => None,
        }
    }
}

// The mutually recursive part: tables, their deferred (out-of-line) fields,
// vectors, vectors of tables and unions. Depth bounds the recursion.

/// Out-of-line data of the first `k` fields of `order` (strings, tables,
/// vectors, unions), each followed by patching its slot with the offset.
/// `vts` holds the positions of the vtables written so far; the result
/// holds them after the data.
pub open spec fn spec_deferred(s: Schema, jobj: Seq<(String, JsonValue)>, fields: Seq<Field>, order: Seq<int>, offs: Seq<u16>, tp: nat, b: Seq<u8>, vts: Seq<usize>, k: nat, depth: nat) -> Result<(Seq<u8>, Seq<usize>), EncodeFault>
    decreases MAX_DEPTH + 2 - depth, 2nat, k,
{
    if k == 0 || k > order.len() || depth > MAX_DEPTH {
        Ok((b, vts))
    } else {
        match spec_deferred(s, jobj, fields, order, offs, tp, b, vts, (k - 1) as nat, depth) {
            Err(f) => Err(f),
            Ok((b1, vts1)) => {
                let f = fields[order[k - 1]];
                let fname = name_or_q(f.name);
                if !present(jobj, f) {
                    Ok((b1, vts1))
                } else {
                    let val = lookup(jobj, fname)->0;
                    let bt = bt_of(f.type_);
                    let fp = tp + offs[field_id(f) as int];
                    if bt == BaseType::BASE_TYPE_STRING {
                        match val {
                            JsonValue::String(st) => {
                                let (b2, t) = spec_string(b1, st@);
                                Ok((patch32(b2, fp, (t - fp) as u32), vts1))
                            },
                            _ => Err(EncodeFault::ExpectedString { field_name: fname, actual: kind_name(val) }),
                        }
                    } else if bt == BaseType::BASE_TYPE_TABLE {
                        match spec_table(s, b1, vts1, val, index_of(f.type_), depth + 1) {
                            Err(e) => Err(e),
                            Ok(r) => Ok((patch32(r.0, fp, (r.1 - fp) as u32), r.2)),
                        }
                    } else if bt == BaseType::BASE_TYPE_VECTOR {
                        match spec_vector(s, b1, vts1, val, f.type_, fname, depth + 1) {
                            Err(e) => Err(e),
                            Ok(r) => Ok((patch32(r.0, fp, (r.1 - fp) as u32), r.2)),
                        }
                    } else if bt == BaseType::BASE_TYPE_UNION {
                        let tfn = fname + "_type"@;
                        match lookup(jobj, tfn) {
                            None => Err(EncodeFault::MissingUnionType { field_name: fname }),
                            Some(dv) => match spec_resolve_enum(s, dv, index_of(f.type_), tfn) {
                                Err(e) => Err(e),
                                Ok(disc) => if disc == 0 {
                                    Ok((b1, vts1))
                                } else {
                                    match spec_union(s, b1, vts1, val, index_of(f.type_), (bits_of_i64(disc) % 256) as u8, fname, depth + 1) {
                                        Err(e) => Err(e),
                                        Ok(r) => Ok((patch32(r.0, fp, (r.1 - fp) as u32), r.2)),
                                    }
                                },
                            },
                        }
                    } else {
                        Ok((b1, vts1))
                    }
                }
            },
        }
    }
}

/// Tables of a vector written (and their offsets patched) for the first `k` elements.
pub open spec fn spec_vec_tables(s: Schema, arr: Seq<JsonValue>, inner: nat, pos: nat, b: Seq<u8>, vts: Seq<usize>, k: nat, depth: nat) -> Result<(Seq<u8>, Seq<usize>), EncodeFault>
    decreases MAX_DEPTH + 2 - depth, 2nat, k,
{
    if k == 0 || k > arr.len() {
        Ok((b, vts))
    } else if depth >= MAX_DEPTH {
        // the element tables would lie below the deepest level
        Err(EncodeFault::MaxDepthExceeded { max: MAX_DEPTH as nat })
    } else {
        match spec_vec_tables(s, arr, inner, pos, b, vts, (k - 1) as nat, depth) {
            Err(f) => Err(f),
            Ok((b1, vts1)) => match spec_table(s, b1, vts1, arr[k - 1], inner, depth + 1) {
                Err(e) => Err(e),
                Ok(r) => {
                    let ph = pos + 4 + 4 * (k - 1);
                    Ok((patch32(r.0, ph, (r.1 - ph) as u32), r.2))
                },
            },
        }
    }
}

/// A vector of scalars: padding so that the elements (which follow the
/// 4-byte count) are aligned to their size and the count to 4, the count,
/// then the elements.
pub open spec fn spec_vector_scalars(s: Schema, b: Seq<u8>, arr: Seq<JsonValue>, ebt: BaseType, ty: Option<FieldType>, fname: Seq<char>) -> Result<(Seq<u8>, nat), EncodeFault> {
    let es = scalar_size_spec(ebt);
    let al: nat = if es > 4 { es } else { 4 };
    let b1 = b + zeros(pad_len(b.len() + 4, al));
    match spec_vec_scalars(s, arr, ebt, ty, fname, b1 + le32(arr.len() as u32), arr.len()) {
        Err(e) => Err(e),
        Ok(b3) => Ok((pad(b3, 4), b1.len())),
    }
}

/// A vector of scalars starts at a multiple of 4, and its elements, which
/// follow the 4-byte count, start at a multiple of their own size.
pub proof fn lemma_scalar_vector_aligned(s: Schema, b: Seq<u8>, arr: Seq<JsonValue>, ebt: BaseType, ty: Option<FieldType>, fname: Seq<char>)
    requires
        is_scalar_spec(ebt),
        spec_vector_scalars(s, b, arr, ebt, ty, fname) is Ok,
    ensures
        ({
            let p = spec_vector_scalars(s, b, arr, ebt, ty, fname)->Ok_0.1;
            &&& p >= b.len()
            &&& p % 4 == 0
            &&& (p + 4) % scalar_size_spec(ebt) == 0
        }),
{
    let es = scalar_size_spec(ebt);
    let al: nat = if es > 4 { es } else { 4 };
    lemma_pad_len(b.len() + 4, al);
    let p = b.len() + pad_len(b.len() + 4, al);
    let q = (p + 4) as int;
    assert(q % (al as int) == 0);
    if es == 8 {
        assert(q % 4 == 0) by (nonlinear_arith)
            requires q % 8 == 0;
    } else {
        assert(q % 2 == 0 && q % 1 == 0) by (nonlinear_arith)
            requires q % 4 == 0;
    }
    assert(p % 4 == 0) by (nonlinear_arith)
        requires q % 4 == 0, q == p + 4;
}

/// A vector of strings: count, offsets, then the strings.
pub open spec fn spec_vector_strings(b: Seq<u8>, arr: Seq<JsonValue>, fname: Seq<char>) -> Result<(Seq<u8>, nat), EncodeFault> {
    let b1 = pad(b, 4);
    let n = arr.len();
    match spec_vec_strings(arr, fname, b1.len(), b1 + le32(n as u32) + zeros(4 * n), n) {
        Err(e) => Err(e),
        Ok(b3) => Ok((b3, b1.len())),
    }
}

/// A vector of structs: padding so the elements are aligned, count, then
/// the elements.
pub open spec fn spec_vector_structs(s: Schema, b: Seq<u8>, arr: Seq<JsonValue>, inner: nat, depth: nat) -> Result<(Seq<u8>, nat), EncodeFault> {
    let n = arr.len();
    if inner >= s.objects@.len() {
        Err(EncodeFault::ObjectIndexOutOfRange { index: inner, count: s.objects@.len() })
    } else {
        let sa = obj_min_align(s.objects@[inner as int]);
        let da: nat = if sa > 4 { sa } else { 4 };
        let b1 = b + zeros(pad_len(b.len() + 4, da));
        match spec_vec_structs(s, arr, inner, b1 + le32(n as u32), n, depth) {
            Err(e) => Err(e),
            Ok(b3) => Ok((pad(b3, 4), b1.len())),
        }
    }
}

/// A vector of another element type: an empty vector.
pub open spec fn spec_vector_empty(b: Seq<u8>) -> (Seq<u8>, nat) {
    let b1 = pad(b, 4);
    (b1 + le32(0), b1.len())
}

/// A vector written at the next suitably aligned position: element count
/// followed by the elements (or offsets to them). Yields the buffer and the
/// vector's position.
pub open spec fn spec_vector(s: Schema, b: Seq<u8>, vts: Seq<usize>, v: JsonValue, ty: Option<FieldType>, fname: Seq<char>, depth: nat) -> Result<(Seq<u8>, nat, Seq<usize>), EncodeFault>
    decreases MAX_DEPTH + 2 - depth, 4nat, 0nat,
{
    match v {
        JsonValue::Array(arr) => {
            let ebt = element_of(ty);
            if ebt == BaseType::BASE_TYPE_TABLE {
                spec_vector_tables(s, b, vts, arr@, index_of(ty), depth)
            } else {
                let r = if is_scalar_spec(ebt) {
                    spec_vector_scalars(s, b, arr@, ebt, ty, fname)
                } else if ebt == BaseType::BASE_TYPE_STRING {
                    spec_vector_strings(b, arr@, fname)
                } else if ebt == BaseType::BASE_TYPE_STRUCT {
                    spec_vector_structs(s, b, arr@, index_of(ty), depth)
                } else {
                    Ok(spec_vector_empty(b))
                };
                match r {
                    Ok(p) => Ok((p.0, p.1, vts)),
                    Err(e) => Err(e),
                }
            }
        },
        _ => Err(EncodeFault::ExpectedArray { field_name: fname, actual: kind_name(v) }),
    }
}

/// A vector of tables: count, offsets, then the tables.
pub open spec fn spec_vector_tables(s: Schema, b: Seq<u8>, vts: Seq<usize>, arr: Seq<JsonValue>, inner: nat, depth: nat) -> Result<(Seq<u8>, nat, Seq<usize>), EncodeFault>
    decreases MAX_DEPTH + 2 - depth, 3nat, 1nat,
{
    let b1 = pad(b, 4);
    let n = arr.len();
    match spec_vec_tables(s, arr, inner, b1.len(), b1 + le32(n as u32) + zeros(4 * n), vts, n, depth) {
        Err(e) => Err(e),
        Ok((b3, vts1)) => Ok((b3, b1.len(), vts1)),
    }
}

/// The data of a union member: a table or a string, according to the member
/// whose value is `disc`; nothing for an unknown member.
pub open spec fn spec_union(s: Schema, b: Seq<u8>, vts: Seq<usize>, v: JsonValue, enum_idx: nat, disc: u8, fname: Seq<char>, depth: nat) -> Result<(Seq<u8>, nat, Seq<usize>), EncodeFault>
    decreases MAX_DEPTH + 2 - depth, 4nat, 0nat,
{
    if enum_idx >= s.enums@.len() {
        Err(EncodeFault::EnumIndexOutOfRange { index: enum_idx, count: s.enums@.len() })
    } else {
        let e = s.enums@[enum_idx as int];
        match first_with_value(e.values@, disc as i64) {
            None => Ok((b, b.len(), vts)),
            Some(k) => match e.values@[k].union_type {
                None => Ok((b, b.len(), vts)),
                Some(ut) => {
                    let vbt = match ut.base_type {
                        Some(x) => x,
                        None => BaseType::BASE_TYPE_NONE,
                    };
                    if vbt == BaseType::BASE_TYPE_TABLE {
                        spec_table(s, b, vts, v, match ut.index {
                            Some(i) => i as nat,
                            None => 0,
                        }, depth)
                    } else if vbt == BaseType::BASE_TYPE_STRING {
                        match v {
                            JsonValue::String(st) => Ok((spec_string(b, st@).0, spec_string(b, st@).1, vts)),
                            _ => Err(EncodeFault::ExpectedString { field_name: fname, actual: kind_name(v) }),
                        }
                    } else {
                        Ok((b, b.len(), vts))
                    }
                },
            },
        }
    }
}

/// A table's vtable: its own size, the table's size, then the offset of
/// each field slot (0 for an absent field).
pub open spec fn vtable_bytes(entries_n: nat, total: int, offs: Seq<u16>) -> Seq<u8> {
    le16((4 + entries_n * 2) as u16) + le16(total as u16) + le16s(offs)
}

/// The bytes of `b` at `p` are `vtb`.
pub open spec fn vtable_at(b: Seq<u8>, p: usize, vtb: Seq<u8>) -> bool {
    p + vtb.len() <= b.len() && b.subrange(p as int, p + vtb.len()) == vtb
}

/// Index of the first of the vtables at positions `vts` whose bytes equal
/// `vtb`.
pub open spec fn find_vtable(b: Seq<u8>, vts: Seq<usize>, vtb: Seq<u8>) -> Option<int>
    decreases vts.len(),
{
    if vts.len() == 0 {
        None
    } else {
        match find_vtable(b, vts.drop_last(), vtb) {
            Some(j) => Some(j),
            None => if vtable_at(b, vts.last(), vtb) { Some(vts.len() - 1) } else { None },
        }
    }
}

/// A table written at the end of `b`: its vtable, then its data (inline
/// fields in id order), then the out-of-line data of its offset fields.
/// The vtable is shared: when one of the vtables already written (at the
/// positions `vts`) has the same bytes, the table points at it and no new
/// vtable is written. Yields the buffer, the table's position and the
/// vtable positions after the table.
pub open spec fn spec_table(s: Schema, b: Seq<u8>, vts: Seq<usize>, v: JsonValue, obj_idx: nat, depth: nat) -> Result<(Seq<u8>, nat, Seq<usize>), EncodeFault>
    decreases MAX_DEPTH + 2 - depth, 3nat, 0nat,
{
    if depth > MAX_DEPTH {
        Err(EncodeFault::MaxDepthExceeded { max: MAX_DEPTH as nat })
    } else if obj_idx >= s.objects@.len() {
        Err(EncodeFault::ObjectIndexOutOfRange { index: obj_idx, count: s.objects@.len() })
    } else {
        let o = s.objects@[obj_idx as int];
        match v {
            JsonValue::Object(entries) => {
                let jobj = entries@;
                let fields = o.fields@;
                let order = field_order(fields);
                let lay = layout(s, jobj, fields, order, order.len());
                let total = lay.0 + pad_len(lay.0 as nat, 4);
                let offs = lay.1;
                let vtb = vtable_bytes(entries_of(fields), total, offs);
                let (b3, vt, vts1) = match find_vtable(b, vts, vtb) {
                    Some(j) => (pad(b, 4), vts[j] as nat, vts),
                    None => {
                        let b1 = pad(b, 2);
                        (pad(b1 + vtb, 4), b1.len(), vts.push(b1.len() as usize))
                    },
                };
                let tp = b3.len();
                let b4 = b3 + le32((tp - vt) as u32) + zeros((total - 4) as nat);
                match spec_inline(s, jobj, fields, order, offs, tp, b4, order.len(), depth) {
                    Err(e) => Err(e),
                    Ok(b5) => match spec_deferred(s, jobj, fields, order, offs, tp, b5, vts1, order.len(), depth) {
                        Err(e) => Err(e),
                        Ok((b6, vts2)) => Ok((b6, tp, vts2)),
                    },
                }
            },
            _ => Err(EncodeFault::ExpectedObject { object_name: name_or_q(o.name), actual: kind_name(v) }),
        }
    }
}

} // verus!

verus! {

// ---------------------------------------------------------------------------
// Executable encoding: strings, names, table layout, inline pass
// ---------------------------------------------------------------------------

/// Writes a string (length, UTF-8 bytes, NUL, padding) and returns its position.
pub fn encode_string(buf: &mut Vec<u8>, st: &String) -> (pos: usize)
    ensures
        (final(buf)@, pos as nat) == spec_string(old(buf)@, st@),
        old(buf)@.len() <= pos,
        pos + 4 <= final(buf)@.len(),
        same_prefix(old(buf)@, final(buf)@, old(buf)@.len() as int),
{
    align_buf(buf, 4);
    let pos = buf_len(buf);
    let bytes = st.as_str().as_bytes();
    write_u32_le(buf, bytes.len() as u32);
    append_bytes(buf, bytes);
    buf.push(0u8);
    align_buf(buf, 4);
    proof {
        lemma_pad_len(old(buf)@.len(), 4);
        lemma_le_low_len(bytes@.len() as nat, 4);
    }
    assert(final(buf)@ =~= spec_string(old(buf)@, st@).0);
    assert(final(buf)@.subrange(0, old(buf)@.len() as int) =~= old(buf)@.subrange(0, old(buf)@.len() as int));
    pos
}

/// `fname[i]`, the name of a vector element in error messages.
pub fn element_name(fname: &String, i: usize) -> (r: String)
    ensures
        r@ == elem_name(fname@, i as nat),
{
    let mut r = fname.clone();
    push_str(&mut r, "[");
    push_decimal(&mut r, i as u64);
    push_str(&mut r, "]");
    assert(r@ =~= elem_name(fname@, i as nat));
    r
}

proof fn lemma_scalar_len(s: Schema, v: JsonValue, bt: BaseType, ty: Option<FieldType>, fname: Seq<char>)
    requires
        is_scalar_spec(bt),
        bt != BaseType::BASE_TYPE_U_TYPE,
        spec_scalar(s, v, bt, ty, fname) is Ok,
    ensures
        spec_scalar(s, v, bt, ty, fname)->Ok_0.len() == scalar_size_spec(bt),
{
    lemma_le_low_len(0, 1);
    assert forall|u: nat, n: nat| #[trigger] le_low(u, n).len() == n by {
        lemma_le_low_len(u, n);
    }
}

proof fn lemma_struct_len(s: Schema, v: JsonValue, idx: nat, depth: nat)
    requires
        schema_wf(s),
        spec_struct(s, v, idx, depth) is Ok,
    ensures
        idx < s.objects@.len(),
        spec_struct(s, v, idx, depth)->Ok_0.len() == obj_byte_size(s.objects@[idx as int]),
{
    let o = s.objects@[idx as int];
    assert(object_wf(s, o));
    match v {
        JsonValue::Object(entries) => {
            lemma_struct_fields_len(s, entries@, o.fields@, obj_byte_size(o), o.fields@.len(), depth);
        },
        _ => {},
    }
}

/// Present fields placed so far lie within the data size.
pub open spec fn slots_fit(s: Schema, jobj: Seq<(String, JsonValue)>, fields: Seq<Field>, order: Seq<int>, offs: Seq<u16>, k: nat, size: int) -> bool {
    forall|q: int| 0 <= q < k && present(jobj, #[trigger] fields[order[q]]) ==> field_id(fields[order[q]]) < offs.len()
        && offs[field_id(fields[order[q]]) as int] + inline_layout(s, fields[order[q]]).0 <= size
}

/// Table data size (before final alignment) and vtable offsets.
fn table_layout(s: &Schema, jobj: &Vec<(String, JsonValue)>, fields: &Vec<Field>, order: &Vec<usize>, entries: usize) -> (r: (usize, Vec<u16>))
    requires
        as_ints(order@) == field_order(fields@),
        entries == entries_of(fields@),
        forall|j: int, k: int| 0 <= j < k < fields@.len() ==> field_id(fields@[j]) != field_id(fields@[k]),
        8 + layout_bound(*s, fields@, field_order(fields@), field_order(fields@).len()) <= isize::MAX,
    ensures
        (r.0 as int, r.1@) == layout(*s, jobj@, fields@, field_order(fields@), field_order(fields@).len()),
        r.0 <= 4 + layout_bound(*s, fields@, field_order(fields@), field_order(fields@).len()),
        4 <= r.0,
        r.1@.len() == entries,
        slots_fit(*s, jobj@, fields@, field_order(fields@), r.1@, field_order(fields@).len(), r.0 as int),
{
    let ghost ord = field_order(fields@);
    proof {
        lemma_order_below(fields@, max_id(fields@, fields@.len()) + 1);
    }
    let mut offs: Vec<u16> = Vec::new();
    let mut e: usize = 0;
    while e < entries
        invariant
            e <= entries,
            offs@ == Seq::new(e as nat, |i: int| 0u16),
        decreases entries - e,
    {
        offs.push(0u16);
        e = e + 1;
        assert(offs@ =~= Seq::new(e as nat, |i: int| 0u16));
    }
    let mut size: usize = 4;
    let mut k: usize = 0;
    while k < order.len()
        invariant
            as_ints(order@) == ord,
            ord == field_order(fields@),
            entries == entries_of(fields@),
            forall|j: int, k2: int| 0 <= j < k2 < fields@.len() ==> field_id(fields@[j]) != field_id(fields@[k2]),
            forall|q: int| 0 <= q < ord.len() ==> 0 <= #[trigger] ord[q] < fields@.len()
                && field_id(fields@[ord[q]]) < max_id(fields@, fields@.len()) + 1,
            forall|q: int, r: int| 0 <= q < r < ord.len() ==> ord[q] != ord[r],
            8 + layout_bound(*s, fields@, ord, ord.len()) <= isize::MAX,
            k <= order@.len(),
            (size as int, offs@) == layout(*s, jobj@, fields@, ord, k as nat),
            size <= 4 + layout_bound(*s, fields@, ord, k as nat),
            4 <= size,
            offs@.len() == entries,
            slots_fit(*s, jobj@, fields@, ord, offs@, k as nat, size as int),
        decreases order@.len() - k,
    {
        assert(ord[k as int] == order@[k as int] as int);
        let fi = order[k];
        let f = &fields[fi];
        let fname = name_or_question(&f.name);
        proof {
            assert(layout_bound(*s, fields@, ord, k as nat) <= layout_bound(*s, fields@, ord, ord.len())) by {
                lemma_layout_bound_mono(*s, fields@, ord, k as nat, ord.len());
            }
        }
        if find_member(jobj, &fname).is_some() {
            let (fsize, al) = field_inline_size(s, f);
            let ghost old_size = size;
            let ghost old_offs = offs@;
            proof {
                assert(layout_bound(*s, fields@, ord, (k + 1) as nat) == layout_bound(*s, fields@, ord, k as nat) + fsize + al);
                lemma_layout_bound_mono(*s, fields@, ord, (k + 1) as nat, ord.len());
            }
            if al > 0 {
                proof {
                    lemma_pad_len(size as nat, al as nat);
                }
                size = size + (al - size % al) % al;
            }
            let fid: usize = match f.id {
                Some(x) => x as usize,
                None => 0,
            };
            offs.set(fid, size as u16);
            size = size + fsize;
            proof {
                assert(layout_bound(*s, fields@, ord, (k + 1) as nat) == layout_bound(*s, fields@, ord, k as nat) + fsize + al);
                assert forall|q: int| 0 <= q < k + 1 && present(jobj@, #[trigger] fields@[ord[q]]) implies field_id(fields@[ord[q]]) < offs@.len()
                    && offs@[field_id(fields@[ord[q]]) as int] + inline_layout(*s, fields@[ord[q]]).0 <= size by {
                    if q < k {
                        assert(ord[q] != ord[k as int]);
                        assert(field_id(fields@[ord[q]]) != field_id(fields@[ord[k as int]]));
                    }
                }
            }
        }
        k = k + 1;
    }
    (size, offs)
}

proof fn lemma_layout_bound_mono(s: Schema, fields: Seq<Field>, order: Seq<int>, j: nat, k: nat)
    requires
        j <= k <= order.len(),
    ensures
        layout_bound(s, fields, order, j) <= layout_bound(s, fields, order, k),
    decreases k - j,
{
    if j < k {
        lemma_layout_bound_mono(s, fields, order, j, (k - 1) as nat);
    }
}

/// Writes the vtable entries.
fn write_offsets(buf: &mut Vec<u8>, offs: &Vec<u16>)
    ensures
        final(buf)@ == old(buf)@ + le16s(offs@),
{
    let mut i: usize = 0;
    while i < offs.len()
        invariant
            i <= offs@.len(),
            buf@ == old(buf)@ + le16s(offs@.take(i as int)),
        decreases offs@.len() - i,
    {
        write_u16_le(buf, offs[i]);
        i = i + 1;
        assert(offs@.take(i as int).drop_last() =~= offs@.take(i - 1));
        assert(buf@ =~= old(buf)@ + le16s(offs@.take(i as int)));
    }
    assert(offs@.take(offs@.len() as int) =~= offs@);
}

proof fn lemma_inline_err(s: Schema, jobj: Seq<(String, JsonValue)>, fields: Seq<Field>, order: Seq<int>, offs: Seq<u16>, tp: nat, b: Seq<u8>, k: nat, n: nat, depth: nat)
    requires
        k <= n <= order.len(),
        spec_inline(s, jobj, fields, order, offs, tp, b, k, depth) is Err,
    ensures
        spec_inline(s, jobj, fields, order, offs, tp, b, n, depth) == spec_inline(s, jobj, fields, order, offs, tp, b, k, depth),
    decreases n - k,
{
    if n > k {
        lemma_inline_err(s, jobj, fields, order, offs, tp, b, k, (n - 1) as nat, depth);
    }
}

/// The inline pass of a table: scalars, union type tags and structs are
/// written into their slots.
fn table_inline(s: &Schema, buf: &mut Vec<u8>, jobj: &Vec<(String, JsonValue)>, fields: &Vec<Field>, order: &Vec<usize>, offs: &Vec<u16>, tp: usize, total: usize, depth: usize) -> (r: Result<(), JsonEncodeError>)
    requires
        schema_wf(*s),
        depth <= MAX_DEPTH,
        as_ints(order@) == field_order(fields@),
        offs@.len() == entries_of(fields@),
        old(buf)@.len() == tp + total,
        slots_fit(*s, jobj@, fields@, field_order(fields@), offs@, field_order(fields@).len(), total as int),
    ensures
        match spec_inline(*s, jobj@, fields@, field_order(fields@), offs@, tp as nat, old(buf)@, field_order(fields@).len(), depth as nat) {
            Ok(b) => r is Ok && final(buf)@ == b,
            Err(f) => r is Err && r->Err_0@ == f,
        },
        final(buf)@.len() == old(buf)@.len(),
        r is Ok ==> same_prefix(old(buf)@, final(buf)@, tp as int),
{
    let ghost ord = field_order(fields@);
    let ghost b0 = buf@;
    proof {
        lemma_order_below(fields@, max_id(fields@, fields@.len()) + 1);
    }
    let _ = buf.len();
    let mut k: usize = 0;
    while k < order.len()
        invariant
            schema_wf(*s),
            depth <= MAX_DEPTH,
            as_ints(order@) == ord,
            ord == field_order(fields@),
            offs@.len() == entries_of(fields@),
            forall|q: int| 0 <= q < ord.len() ==> 0 <= #[trigger] ord[q] < fields@.len()
                && field_id(fields@[ord[q]]) < max_id(fields@, fields@.len()) + 1,
            b0 == old(buf)@,
            b0.len() == tp + total,
            tp + total <= usize::MAX,
            buf@.len() == b0.len(),
            same_prefix(b0, buf@, tp as int),
            slots_fit(*s, jobj@, fields@, ord, offs@, ord.len(), total as int),
            k <= order@.len(),
            spec_inline(*s, jobj@, fields@, ord, offs@, tp as nat, b0, k as nat, depth as nat) == Ok::<Seq<u8>, EncodeFault>(buf@),
        decreases order@.len() - k,
    {
        assert(ord[k as int] == order@[k as int] as int);
        let fi = order[k];
        let f = &fields[fi];
        let fname = name_or_question(&f.name);
        match find_member(jobj, &fname) {
            None => {},
            Some(val) => {
                assert(present(jobj@, fields@[ord[k as int]]));
                let bt = base_type_of(&f.type_);
                let fid: usize = match f.id {
                    Some(x) => x as usize,
                    None => 0,
                };
                let (fsize, _al) = field_inline_size(s, f);
                assert(fid == field_id(fields@[ord[k as int]]));
                assert(offs@[fid as int] + fsize <= total);
                let fp = tp + offs[fid] as usize;
                if bt == BaseType::BASE_TYPE_U_TYPE {
                    match resolve_enum_value(s, val, type_index_of(&f.type_), &fname) {
                        Ok(v) => {
                            let u = i64_bits(v);
                            let ghost before = buf@;
                            buf.set(fp, (u % 256) as u8);
                            proof {
                                lemma_same_prefix_update(before, fp as int, (u % 256) as u8, tp as int);
                                lemma_same_prefix_trans(b0, before, buf@, tp as int, tp as int);
                            }
                        },
                        Err(e) => {
                            proof {
                                lemma_inline_err(*s, jobj@, fields@, ord, offs@, tp as nat, b0, (k + 1) as nat, ord.len(), depth as nat);
                            }
                            return Err(e);
                        },
                    }
                } else if bt == BaseType::BASE_TYPE_STRUCT {
                    match encode_struct_inline(s, val, type_index_of(&f.type_), depth + 1) {
                        Ok(x) => {
                            proof {
                                lemma_struct_len(*s, *val, index_of(f.type_), (depth + 1) as nat);
                            }
                            let ghost before = buf@;
                            write_at(buf, fp, x.as_slice());
                            proof {
                                lemma_same_prefix_splice(before, fp as int, x@, tp as int);
                                lemma_same_prefix_trans(b0, before, buf@, tp as int, tp as int);
                            }
                        },
                        Err(e) => {
                            proof {
                                lemma_inline_err(*s, jobj@, fields@, ord, offs@, tp as nat, b0, (k + 1) as nat, ord.len(), depth as nat);
                            }
                            return Err(e);
                        },
                    }
                } else if bt.is_scalar() {
                    match encode_scalar_value(s, val, bt, &f.type_, &fname) {
                        Ok(x) => {
                            proof {
                                lemma_scalar_len(*s, *val, bt, f.type_, fname@);
                            }
                            let ghost before = buf@;
                            write_at(buf, fp, x.as_slice());
                            proof {
                                lemma_same_prefix_splice(before, fp as int, x@, tp as int);
                                lemma_same_prefix_trans(b0, before, buf@, tp as int, tp as int);
                            }
                        },
                        Err(e) => {
                            proof {
                                assert(!(bt == BaseType::BASE_TYPE_U_TYPE) && !(bt == BaseType::BASE_TYPE_STRUCT) && is_scalar_spec(bt));
                                assert(spec_inline(*s, jobj@, fields@, ord, offs@, tp as nat, b0, (k + 1) as nat, depth as nat) == Err::<Seq<u8>, EncodeFault>(e@));
                                lemma_inline_err(*s, jobj@, fields@, ord, offs@, tp as nat, b0, (k + 1) as nat, ord.len(), depth as nat);
                            }
                            return Err(e);
                        },
                    }
                }
            },
        }
        k = k + 1;
    }
    Ok(())
}

} // verus!

verus! {

// ---------------------------------------------------------------------------
// Executable encoding: vectors, unions, tables
// ---------------------------------------------------------------------------

proof fn lemma_vec_scalars_err(s: Schema, arr: Seq<JsonValue>, ebt: BaseType, ty: Option<FieldType>, fname: Seq<char>, b: Seq<u8>, k: nat, n: nat)
    requires
        k <= n <= arr.len(),
        spec_vec_scalars(s, arr, ebt, ty, fname, b, k) is Err,
    ensures
        spec_vec_scalars(s, arr, ebt, ty, fname, b, n) == spec_vec_scalars(s, arr, ebt, ty, fname, b, k),
    decreases n - k,
{
    if n > k {
        lemma_vec_scalars_err(s, arr, ebt, ty, fname, b, k, (n - 1) as nat);
    }
}

proof fn lemma_vec_strings_err(arr: Seq<JsonValue>, fname: Seq<char>, pos: nat, b: Seq<u8>, k: nat, n: nat)
    requires
        k <= n <= arr.len(),
        spec_vec_strings(arr, fname, pos, b, k) is Err,
    ensures
        spec_vec_strings(arr, fname, pos, b, n) == spec_vec_strings(arr, fname, pos, b, k),
    decreases n - k,
{
    if n > k {
        lemma_vec_strings_err(arr, fname, pos, b, k, (n - 1) as nat);
    }
}

proof fn lemma_vec_structs_err(s: Schema, arr: Seq<JsonValue>, inner: nat, b: Seq<u8>, k: nat, n: nat, depth: nat)
    requires
        k <= n <= arr.len(),
        spec_vec_structs(s, arr, inner, b, k, depth) is Err,
    ensures
        spec_vec_structs(s, arr, inner, b, n, depth) == spec_vec_structs(s, arr, inner, b, k, depth),
    decreases n - k,
{
    if n > k {
        lemma_vec_structs_err(s, arr, inner, b, k, (n - 1) as nat, depth);
    }
}

proof fn lemma_vec_tables_err(s: Schema, arr: Seq<JsonValue>, inner: nat, pos: nat, b: Seq<u8>, vts: Seq<usize>, k: nat, n: nat, depth: nat)
    requires
        k <= n <= arr.len(),
        spec_vec_tables(s, arr, inner, pos, b, vts, k, depth) is Err,
    ensures
        spec_vec_tables(s, arr, inner, pos, b, vts, n, depth) == spec_vec_tables(s, arr, inner, pos, b, vts, k, depth),
    decreases n - k,
{
    if n > k {
        lemma_vec_tables_err(s, arr, inner, pos, b, vts, k, (n - 1) as nat, depth);
    }
}

proof fn lemma_deferred_err(s: Schema, jobj: Seq<(String, JsonValue)>, fields: Seq<Field>, order: Seq<int>, offs: Seq<u16>, tp: nat, b: Seq<u8>, vts: Seq<usize>, k: nat, n: nat, depth: nat)
    requires
        k <= n <= order.len(),
        spec_deferred(s, jobj, fields, order, offs, tp, b, vts, k, depth) is Err,
    ensures
        spec_deferred(s, jobj, fields, order, offs, tp, b, vts, n, depth) == spec_deferred(s, jobj, fields, order, offs, tp, b, vts, k, depth),
    decreases n - k,
{
    if n > k {
        lemma_deferred_err(s, jobj, fields, order, offs, tp, b, vts, k, (n - 1) as nat, depth);
    }
}

/// Appends the scalar elements of a vector.
fn vec_scalars(s: &Schema, buf: &mut Vec<u8>, arr: &Vec<JsonValue>, ebt: BaseType, ty: &Option<FieldType>, fname: &String) -> (r: Result<(), JsonEncodeError>)
    ensures
        match spec_vec_scalars(*s, arr@, ebt, *ty, fname@, old(buf)@, arr@.len()) {
            Ok(b) => r is Ok && final(buf)@ == b,
            Err(f) => r is Err && r->Err_0@ == f,
        },
        final(buf)@.len() >= old(buf)@.len(),
        r is Ok ==> same_prefix(old(buf)@, final(buf)@, old(buf)@.len() as int),
{
    let ghost b0 = buf@;
    let mut k: usize = 0;
    while k < arr.len()
        invariant
            b0 == old(buf)@,
            k <= arr@.len(),
            buf@.len() >= b0.len(),
            same_prefix(b0, buf@, b0.len() as int),
            spec_vec_scalars(*s, arr@, ebt, *ty, fname@, b0, k as nat) == Ok::<Seq<u8>, EncodeFault>(buf@),
        decreases arr@.len() - k,
    {
        let name = element_name(fname, k);
        match encode_scalar_value(s, &arr[k], ebt, ty, &name) {
            Ok(x) => {
                let ghost before = buf@;
                append_bytes(buf, x.as_slice());
                proof {
                    lemma_same_prefix_append(before, x@, b0.len() as int);
                    lemma_same_prefix_trans(b0, before, buf@, b0.len() as int, b0.len() as int);
                }
            },
            Err(e) => {
                proof {
                    lemma_vec_scalars_err(*s, arr@, ebt, *ty, fname@, b0, (k + 1) as nat, arr@.len());
                }
                return Err(e);
            },
        }
        k = k + 1;
    }
    Ok(())
}

/// Writes the strings of a vector and patches their offsets into the
/// placeholders that follow the count at `pos`.
fn vec_strings(buf: &mut Vec<u8>, arr: &Vec<JsonValue>, fname: &String, pos: usize) -> (r: Result<(), JsonEncodeError>)
    requires
        pos + 4 + 4 * arr@.len() <= old(buf)@.len(),
    ensures
        match spec_vec_strings(arr@, fname@, pos as nat, old(buf)@, arr@.len()) {
            Ok(b) => r is Ok && final(buf)@ == b,
            Err(f) => r is Err && r->Err_0@ == f,
        },
        final(buf)@.len() >= old(buf)@.len(),
        r is Ok ==> same_prefix(old(buf)@, final(buf)@, pos as int),
{
    let ghost b0 = buf@;
    let mut k: usize = 0;
    while k < arr.len()
        invariant
            b0 == old(buf)@,
            k <= arr@.len(),
            pos + 4 + 4 * arr@.len() <= b0.len(),
            buf@.len() >= b0.len(),
            same_prefix(b0, buf@, pos as int),
            spec_vec_strings(arr@, fname@, pos as nat, b0, k as nat) == Ok::<Seq<u8>, EncodeFault>(buf@),
        decreases arr@.len() - k,
    {
        match &arr[k] {
            JsonValue::String(st) => {
                let ghost before = buf@;
                let t = encode_string(buf, st);
                let ph = pos + 4 + 4 * k;
                let ghost mid = buf@;
                patch_u32_le(buf, ph, (t - ph) as u32);
                proof {
                    lemma_le_low_len((t - ph) as u32 as nat, 4);
                    lemma_same_prefix_splice(mid, ph as int, le32((t - ph) as u32), pos as int);
                    lemma_same_prefix_trans(b0, before, mid, pos as int, before.len() as int);
                    lemma_same_prefix_trans(b0, mid, buf@, pos as int, pos as int);
                }
            },
            _ => {
                proof {
                    lemma_vec_strings_err(arr@, fname@, pos as nat, b0, (k + 1) as nat, arr@.len());
                }
                return Err(JsonEncodeError::ExpectedString { field_name: element_name(fname, k), actual: json_type_name(&arr[k]) });
            },
        }
        k = k + 1;
    }
    Ok(())
}

/// Appends the struct elements of a vector.
fn vec_structs(s: &Schema, buf: &mut Vec<u8>, arr: &Vec<JsonValue>, inner: usize, depth: usize) -> (r: Result<(), JsonEncodeError>)
    requires
        schema_wf(*s),
    ensures
        match spec_vec_structs(*s, arr@, inner as nat, old(buf)@, arr@.len(), depth as nat) {
            Ok(b) => r is Ok && final(buf)@ == b,
            Err(f) => r is Err && r->Err_0@ == f,
        },
        final(buf)@.len() >= old(buf)@.len(),
        r is Ok ==> same_prefix(old(buf)@, final(buf)@, old(buf)@.len() as int),
{
    let ghost b0 = buf@;
    let mut k: usize = 0;
    while k < arr.len()
        invariant
            schema_wf(*s),
            b0 == old(buf)@,
            k <= arr@.len(),
            buf@.len() >= b0.len(),
            same_prefix(b0, buf@, b0.len() as int),
            spec_vec_structs(*s, arr@, inner as nat, b0, k as nat, depth as nat) == Ok::<Seq<u8>, EncodeFault>(buf@),
        decreases arr@.len() - k,
    {
        let elem = if depth >= MAX_DEPTH {
            Err(JsonEncodeError::MaxDepthExceeded { max: MAX_DEPTH })
        } else {
            encode_struct_inline(s, &arr[k], inner, depth + 1)
        };
        match elem {
            Ok(x) => {
                let ghost before = buf@;
                append_bytes(buf, x.as_slice());
                proof {
                    lemma_same_prefix_append(before, x@, b0.len() as int);
                    lemma_same_prefix_trans(b0, before, buf@, b0.len() as int, b0.len() as int);
                }
            },
            Err(e) => {
                proof {
                    lemma_vec_structs_err(*s, arr@, inner as nat, b0, (k + 1) as nat, arr@.len(), depth as nat);
                }
                return Err(e);
            },
        }
        k = k + 1;
    }
    Ok(())
}

/// Writes the element count and `n` zeroed offset placeholders.
fn write_vector_header(buf: &mut Vec<u8>, n: usize)
    ensures
        final(buf)@ == old(buf)@ + le32(n as u32) + zeros(4 * n as nat),
        old(buf)@.len() + 4 + 4 * n <= isize::MAX,
{
    write_u32_le(buf, n as u32);
    let ghost b1 = buf@;
    proof {
        lemma_le_low_len(n as u32 as nat, 4);
    }
    let mut k: usize = 0;
    while k < n
        invariant
            k <= n,
            buf@ == b1 + zeros(4 * k as nat),
            b1.len() == old(buf)@.len() + 4,
        decreases n - k,
    {
        write_u32_le(buf, 0);
        proof {
            lemma_le_low_len(0, 4);
            assert(le32(0) =~= zeros(4)) by {
                reveal_with_fuel(le_low, 5);
            }
        }
        k = k + 1;
        assert(buf@ =~= b1 + zeros(4 * k as nat));
        let _ = buf_len(buf);
    }
    let _ = buf_len(buf);
}

} // verus!

verus! {

/// A group result agrees with its specification; positions and lengths only
/// grow, and what was written before stays as it was.
pub open spec fn placed(r: Result<usize, JsonEncodeError>, spec: Result<(Seq<u8>, nat), EncodeFault>, before: Seq<u8>, after: Seq<u8>) -> bool {
    &&& match spec {
        Ok(p) => r is Ok && r->Ok_0 as nat == p.1 && after == p.0,
        Err(f) => r is Err && r->Err_0@ == f,
    }
    &&& r is Ok ==> before.len() <= r->Ok_0 <= after.len()
    &&& r is Ok ==> same_prefix(before, after, before.len() as int)
}

/// As `placed`, for a group that may write tables: the vtable positions
/// after the call are those of the specification.
pub open spec fn placed_vt(r: Result<usize, JsonEncodeError>, spec: Result<(Seq<u8>, nat, Seq<usize>), EncodeFault>, before: Seq<u8>, after: Seq<u8>, vts_after: Seq<usize>) -> bool {
    &&& match spec {
        Ok(p) => r is Ok && r->Ok_0 as nat == p.1 && after == p.0 && vts_after == p.2,
        Err(f) => r is Err && r->Err_0@ == f,
    }
    &&& r is Ok ==> before.len() <= r->Ok_0 <= after.len()
    &&& r is Ok ==> same_prefix(before, after, before.len() as int)
}

/// Whether the bytes of `buf` at `p` are `vtb`.
fn vtable_at_exec(buf: &Vec<u8>, p: usize, vtb: &Vec<u8>) -> (r: bool)
    ensures
        r == vtable_at(buf@, p, vtb@),
{
    let n = buf.len();
    if p > n || vtb.len() > n - p {
        return false;
    }
    let mut i: usize = 0;
    while i < vtb.len()
        invariant
            n == buf@.len(),
            p + vtb@.len() <= buf@.len(),
            i <= vtb@.len(),
            forall|j: int| 0 <= j < i ==> buf@[p + j] == vtb@[j],
        decreases vtb@.len() - i,
    {
        if buf[p + i] != vtb[i] {
            assert(buf@.subrange(p as int, p + vtb@.len())[i as int] != vtb@[i as int]);
            return false;
        }
        i = i + 1;
    }
    assert(buf@.subrange(p as int, p + vtb@.len()) =~= vtb@);
    true
}

proof fn lemma_find_vtable_prefix(b: Seq<u8>, vts: Seq<usize>, vtb: Seq<u8>, k: int)
    requires
        0 <= k <= vts.len(),
        find_vtable(b, vts.take(k), vtb) is Some,
    ensures
        find_vtable(b, vts, vtb) == find_vtable(b, vts.take(k), vtb),
    decreases vts.len() - k,
{
    if k == vts.len() {
        assert(vts.take(k) =~= vts);
    } else {
        assert(vts.drop_last().take(k) =~= vts.take(k));
        lemma_find_vtable_prefix(b, vts.drop_last(), vtb, k);
    }
}

proof fn lemma_find_vtable_bound(b: Seq<u8>, vts: Seq<usize>, vtb: Seq<u8>)
    ensures
        find_vtable(b, vts, vtb) matches Some(j) ==> 0 <= j < vts.len() && vtable_at(b, vts[j], vtb),
    decreases vts.len(),
{
    if vts.len() > 0 {
        lemma_find_vtable_bound(b, vts.drop_last(), vtb);
    }
}

/// Position of the first recorded vtable whose bytes equal `vtb`.
fn find_vtable_pos(buf: &Vec<u8>, vts: &Vec<usize>, vtb: &Vec<u8>) -> (r: Option<usize>)
    ensures
        match find_vtable(buf@, vts@, vtb@) {
            Some(j) => r == Some(vts@[j]) && 0 <= j < vts@.len() && vtable_at(buf@, vts@[j], vtb@),
            None => r is None,
        },
{
    proof {
        lemma_find_vtable_bound(buf@, vts@, vtb@);
    }
    let mut j: usize = 0;
    assert(vts@.take(0) =~= Seq::<usize>::empty());
    while j < vts.len()
        invariant
            j <= vts@.len(),
            find_vtable(buf@, vts@.take(j as int), vtb@) is None,
        decreases vts@.len() - j,
    {
        assert(vts@.take(j + 1).drop_last() =~= vts@.take(j as int));
        if vtable_at_exec(buf, vts[j], vtb) {
            assert(find_vtable(buf@, vts@.take(j + 1), vtb@) == Some(j as int));
            proof {
                lemma_find_vtable_prefix(buf@, vts@, vtb@, j + 1);
            }
            return Some(vts[j]);
        }
        j = j + 1;
    }
    assert(vts@.take(j as int) =~= vts@);
    None
}

/// Writes a table at the end of the buffer and returns its position.
pub fn encode_table(s: &Schema, buf: &mut Vec<u8>, vts: &mut Vec<usize>, v: &JsonValue, obj_idx: usize, depth: usize) -> (r: Result<usize, JsonEncodeError>)
    requires
        schema_wf(*s),
    ensures
        placed_vt(r, spec_table(*s, old(buf)@, old(vts)@, *v, obj_idx as nat, depth as nat), old(buf)@, final(buf)@, final(vts)@),
        depth > MAX_DEPTH || obj_idx >= s.objects@.len() || !(*v is Object) ==> final(buf)@ == old(buf)@ && final(vts)@ == old(vts)@,
    decreases MAX_DEPTH + 2 - depth, 3nat, 0nat,
{
    if depth > MAX_DEPTH {
        return Err(JsonEncodeError::MaxDepthExceeded { max: MAX_DEPTH });
    }
    if obj_idx >= s.objects.len() {
        return Err(JsonEncodeError::ObjectIndexOutOfRange { index: obj_idx, count: s.objects.len() });
    }
    let o = &s.objects[obj_idx];
    assert(object_wf(*s, s.objects@[obj_idx as int]));
    let entries = match v {
        JsonValue::Object(entries) => entries,
        _ => {
            return Err(JsonEncodeError::ExpectedObject { object_name: name_or_question(&o.name), actual: json_type_name(v) });
        },
    };
    let ghost fields = o.fields@;
    let ghost ord = field_order(fields);
    let (order, m) = compute_field_order(&o.fields);
    let n_entries = m + 1;
    let (size, offs) = table_layout(s, entries, &o.fields, &order, n_entries);
    proof {
        lemma_pad_len(size as nat, 4);
    }
    let total = size + (4 - size % 4) % 4;
    let ghost lay = layout(*s, entries@, fields, ord, ord.len());
    assert(total as int == lay.0 + pad_len(lay.0 as nat, 4));
    let ghost b0 = buf@;
    let ghost v0 = vts@;
    let mut vtb: Vec<u8> = Vec::new();
    write_u16_le(&mut vtb, (4 + n_entries * 2) as u16);
    write_u16_le(&mut vtb, total as u16);
    write_offsets(&mut vtb, &offs);
    assert(vtb@ =~= vtable_bytes(entries_of(fields), total as int, offs@));
    proof {
        lemma_le_low_len((4 + n_entries * 2) as u16 as nat, 2);
        lemma_le_low_len(total as u16 as nat, 2);
    }
    let vt: usize = match find_vtable_pos(buf, vts, &vtb) {
        Some(p) => {
            align_buf(buf, 4);
            p
        },
        None => {
            align_buf(buf, 2);
            let p = buf_len(buf);
            append_bytes(buf, vtb.as_slice());
            vts.push(p);
            align_buf(buf, 4);
            p
        },
    };
    let tp = buf_len(buf);
    assert(vt < tp);
    write_u32_le(buf, (tp - vt) as u32);
    append_zeros(buf, total - 4);
    proof {
        lemma_le_low_len((tp - vt) as u32 as nat, 4);
        let vtbs = vtable_bytes(entries_of(fields), total as int, offs@);
        let b3 = match find_vtable(b0, v0, vtbs) {
            Some(j) => pad(b0, 4),
            None => pad(pad(b0, 2) + vtbs, 4),
        };
        assert(buf@ =~= b3 + le32((tp - vt) as u32) + zeros((total - 4) as nat));
        assert forall|q: int| 0 <= q < ord.len() && present(entries@, #[trigger] fields[ord[q]]) implies field_id(fields[ord[q]]) < offs@.len()
            && offs@[field_id(fields[ord[q]]) as int] + inline_layout(*s, fields[ord[q]]).0 <= total by {}
    }
    let ghost bh = buf@;
    assert(bh.subrange(0, b0.len() as int) =~= b0.subrange(0, b0.len() as int));
    match table_inline(s, buf, entries, &o.fields, &order, &offs, tp, total, depth) {
        Ok(()) => {},
        Err(e) => {
            return Err(e);
        },
    }
    let ghost bi = buf@;
    match encode_deferred(s, buf, vts, entries, &o.fields, &order, &offs, tp, total, depth) {
        Ok(()) => {},
        Err(e) => {
            return Err(e);
        },
    }
    proof {
        lemma_same_prefix_trans(b0, bh, bi, b0.len() as int, tp as int);
        lemma_same_prefix_trans(b0, bi, buf@, b0.len() as int, tp as int);
    }
    Ok(tp)
}

/// Writing out-of-line data and then patching a slot at or after `tp` keeps
/// the bytes before `tp`.
proof fn lemma_keep_slot(b0: Seq<u8>, before: Seq<u8>, mid: Seq<u8>, after: Seq<u8>, tp: int, fp: int, v: u32)
    requires
        same_prefix(b0, before, tp),
        same_prefix(before, mid, before.len() as int),
        tp <= fp,
        fp + 4 <= mid.len(),
        after == splice(mid, fp, le32(v)),
    ensures
        same_prefix(b0, after, tp),
{
    lemma_le_low_len(v as nat, 4);
    lemma_same_prefix_splice(mid, fp, le32(v), tp);
    lemma_same_prefix_trans(b0, before, mid, tp, before.len() as int);
    lemma_same_prefix_trans(b0, mid, after, tp, tp);
}

/// The out-of-line pass of a table: strings, tables, vectors and union data
/// are written after the table and their slots patched with offsets.
fn encode_deferred(s: &Schema, buf: &mut Vec<u8>, vts: &mut Vec<usize>, jobj: &Vec<(String, JsonValue)>, fields: &Vec<Field>, order: &Vec<usize>, offs: &Vec<u16>, tp: usize, total: usize, depth: usize) -> (r: Result<(), JsonEncodeError>)
    requires
        schema_wf(*s),
        depth <= MAX_DEPTH,
        as_ints(order@) == field_order(fields@),
        offs@.len() == entries_of(fields@),
        tp + total <= old(buf)@.len(),
        slots_fit(*s, jobj@, fields@, field_order(fields@), offs@, field_order(fields@).len(), total as int),
    ensures
        match spec_deferred(*s, jobj@, fields@, field_order(fields@), offs@, tp as nat, old(buf)@, old(vts)@, field_order(fields@).len(), depth as nat) {
            Ok(p) => r is Ok && final(buf)@ == p.0 && final(vts)@ == p.1,
            Err(f) => r is Err && r->Err_0@ == f,
        },
        r is Ok ==> final(buf)@.len() >= old(buf)@.len(),
        r is Ok ==> same_prefix(old(buf)@, final(buf)@, tp as int),
    decreases MAX_DEPTH + 2 - depth, 2nat, 0nat,
{
    let ghost ord = field_order(fields@);
    let ghost b0 = buf@;
    let ghost v0 = vts@;
    proof {
        lemma_order_below(fields@, max_id(fields@, fields@.len()) + 1);
    }
    let _ = buf.len();
    let mut k: usize = 0;
    while k < order.len()
        invariant
            schema_wf(*s),
            depth <= MAX_DEPTH,
            v0 == old(vts)@,
            as_ints(order@) == ord,
            ord == field_order(fields@),
            offs@.len() == entries_of(fields@),
            forall|q: int| 0 <= q < ord.len() ==> 0 <= #[trigger] ord[q] < fields@.len()
                && field_id(fields@[ord[q]]) < max_id(fields@, fields@.len()) + 1,
            b0 == old(buf)@,
            tp + total <= b0.len(),
            b0.len() <= usize::MAX,
            buf@.len() >= b0.len(),
            same_prefix(b0, buf@, tp as int),
            slots_fit(*s, jobj@, fields@, ord, offs@, ord.len(), total as int),
            k <= order@.len(),
            spec_deferred(*s, jobj@, fields@, ord, offs@, tp as nat, b0, v0, k as nat, depth as nat) == Ok::<(Seq<u8>, Seq<usize>), EncodeFault>((buf@, vts@)),
        decreases order@.len() - k,
    {
        assert(ord[k as int] == order@[k as int] as int);
        let fi = order[k];
        let f = &fields[fi];
        let fname = name_or_question(&f.name);
        match find_member(jobj, &fname) {
            None => {},
            Some(val) => {
                assert(present(jobj@, fields@[ord[k as int]]));
                let bt = base_type_of(&f.type_);
                let fid: usize = match f.id {
                    Some(x) => x as usize,
                    None => 0,
                };
                let (fsize, _al) = field_inline_size(s, f);
                assert(fid == field_id(fields@[ord[k as int]]));
                assert(offs@[fid as int] + fsize <= total);
                let fp = tp + offs[fid] as usize;
                let ghost before = buf@;
                if bt == BaseType::BASE_TYPE_STRING {
                    match val {
                        JsonValue::String(st) => {
                            let t = encode_string(buf, st);
                            let ghost mid = buf@;
                            patch_u32_le(buf, fp, (t - fp) as u32);
                            proof {
                                lemma_keep_slot(b0, before, mid, buf@, tp as int, fp as int, (t - fp) as u32);
                            }
                        },
                        _ => {
                            proof {
                                lemma_deferred_err(*s, jobj@, fields@, ord, offs@, tp as nat, b0, v0, (k + 1) as nat, ord.len(), depth as nat);
                            }
                            return Err(JsonEncodeError::ExpectedString { field_name: fname, actual: json_type_name(val) });
                        },
                    }
                } else if bt == BaseType::BASE_TYPE_TABLE {
                    match encode_table(s, buf, vts, val, type_index_of(&f.type_), depth + 1) {
                        Ok(t) => {
                            let ghost mid = buf@;
                            patch_u32_le(buf, fp, (t - fp) as u32);
                            proof {
                                lemma_keep_slot(b0, before, mid, buf@, tp as int, fp as int, (t - fp) as u32);
                            }
                        },
                        Err(e) => {
                            proof {
                                lemma_deferred_err(*s, jobj@, fields@, ord, offs@, tp as nat, b0, v0, (k + 1) as nat, ord.len(), depth as nat);
                            }
                            return Err(e);
                        },
                    }
                } else if bt == BaseType::BASE_TYPE_VECTOR {
                    match encode_vector(s, buf, vts, val, &f.type_, &fname, depth + 1) {
                        Ok(t) => {
                            let ghost mid = buf@;
                            patch_u32_le(buf, fp, (t - fp) as u32);
                            proof {
                                lemma_keep_slot(b0, before, mid, buf@, tp as int, fp as int, (t - fp) as u32);
                            }
                        },
                        Err(e) => {
                            proof {
                                lemma_deferred_err(*s, jobj@, fields@, ord, offs@, tp as nat, b0, v0, (k + 1) as nat, ord.len(), depth as nat);
                            }
                            return Err(e);
                        },
                    }
                } else if bt == BaseType::BASE_TYPE_UNION {
                    let mut tfn = fname.clone();
                    push_str(&mut tfn, "_type");
                    match find_member(jobj, &tfn) {
                        None => {
                            proof {
                                lemma_deferred_err(*s, jobj@, fields@, ord, offs@, tp as nat, b0, v0, (k + 1) as nat, ord.len(), depth as nat);
                            }
                            return Err(JsonEncodeError::MissingUnionType { field_name: fname });
                        },
                        Some(dv) => {
                            match resolve_enum_value(s, dv, type_index_of(&f.type_), &tfn) {
                                Err(e) => {
                                    proof {
                                        lemma_deferred_err(*s, jobj@, fields@, ord, offs@, tp as nat, b0, v0, (k + 1) as nat, ord.len(), depth as nat);
                                    }
                                    return Err(e);
                                },
                                Ok(disc) => {
                                    if disc != 0 {
                                        let d8 = (i64_bits(disc) % 256) as u8;
                                        match encode_union_data(s, buf, vts, val, type_index_of(&f.type_), d8, &fname, depth + 1) {
                                            Ok(t) => {
                                                let ghost mid = buf@;
                                                patch_u32_le(buf, fp, (t - fp) as u32);
                                                proof {
                                                    lemma_keep_slot(b0, before, mid, buf@, tp as int, fp as int, (t - fp) as u32);
                                                }
                                            },
                                            Err(e) => {
                                                proof {
                                                    lemma_deferred_err(*s, jobj@, fields@, ord, offs@, tp as nat, b0, v0, (k + 1) as nat, ord.len(), depth as nat);
                                                }
                                                return Err(e);
                                            },
                                        }
                                    }
                                },
                            }
                        },
                    }
                }
            },
        }
        k = k + 1;
    }
    Ok(())
}

/// A vector of scalars: count, then the elements.
fn vector_of_scalars(s: &Schema, buf: &mut Vec<u8>, arr: &Vec<JsonValue>, ebt: BaseType, ty: &Option<FieldType>, fname: &String) -> (r: Result<usize, JsonEncodeError>)
    requires
        is_scalar_spec(ebt),
    ensures
        placed(r, spec_vector_scalars(*s, old(buf)@, arr@, ebt, *ty, fname@), old(buf)@, final(buf)@),
{
    let n = arr.len();
    let es = ebt.scalar_byte_size();
    let al: usize = if es > 4 { es } else { 4 };
    let len0 = buf_len(buf);
    proof {
        lemma_pad_len((len0 + 4) as nat, al as nat);
    }
    append_zeros(buf, (al - (len0 + 4) % al) % al);
    let pos = buf_len(buf);
    write_u32_le(buf, n as u32);
    let ghost b1 = buf@;
    assert(b1.subrange(0, old(buf)@.len() as int) =~= old(buf)@.subrange(0, old(buf)@.len() as int));
    match vec_scalars(s, buf, arr, ebt, ty, fname) {
        Ok(()) => {},
        Err(e) => {
            return Err(e);
        },
    }
    let ghost b2 = buf@;
    align_buf(buf, 4);
    proof {
        lemma_le_low_len(n as u32 as nat, 4);
        lemma_same_prefix_trans(old(buf)@, b1, b2, old(buf)@.len() as int, b1.len() as int);
        lemma_same_prefix_append(b2, zeros(pad_len(b2.len(), 4)), b2.len() as int);
        lemma_same_prefix_trans(old(buf)@, b2, buf@, old(buf)@.len() as int, b2.len() as int);
    }
    Ok(pos)
}

/// A vector of strings: count, offsets, then the strings.
fn vector_of_strings(buf: &mut Vec<u8>, arr: &Vec<JsonValue>, fname: &String) -> (r: Result<usize, JsonEncodeError>)
    ensures
        placed(r, spec_vector_strings(old(buf)@, arr@, fname@), old(buf)@, final(buf)@),
{
    let n = arr.len();
    align_buf(buf, 4);
    let pos = buf_len(buf);
    write_vector_header(buf, n);
    proof {
        lemma_le_low_len(n as u32 as nat, 4);
    }
    let ghost b1 = buf@;
    assert(b1.subrange(0, old(buf)@.len() as int) =~= old(buf)@.subrange(0, old(buf)@.len() as int));
    match vec_strings(buf, arr, fname, pos) {
        Ok(()) => {},
        Err(e) => {
            return Err(e);
        },
    }
    proof {
        lemma_same_prefix_trans(old(buf)@, b1, buf@, old(buf)@.len() as int, pos as int);
    }
    Ok(pos)
}

/// A vector of structs: padding so the elements are aligned, count, then
/// the elements.
fn vector_of_structs(s: &Schema, buf: &mut Vec<u8>, arr: &Vec<JsonValue>, inner: usize, depth: usize) -> (r: Result<usize, JsonEncodeError>)
    requires
        schema_wf(*s),
    ensures
        placed(r, spec_vector_structs(*s, old(buf)@, arr@, inner as nat, depth as nat), old(buf)@, final(buf)@),
{
    let n = arr.len();
    if inner >= s.objects.len() {
        return Err(JsonEncodeError::ObjectIndexOutOfRange { index: inner, count: s.objects.len() });
    }
    let sa: usize = match s.objects[inner].min_align {
        Some(a) => a as usize,
        None => 1,
    };
    let da: usize = if sa > 4 { sa } else { 4 };
    let len0 = buf_len(buf);
    proof {
        lemma_pad_len((len0 + 4) as nat, da as nat);
    }
    append_zeros(buf, (da - (len0 + 4) % da) % da);
    let pos = buf_len(buf);
    write_u32_le(buf, n as u32);
    let ghost b1 = buf@;
    assert(b1.subrange(0, old(buf)@.len() as int) =~= old(buf)@.subrange(0, old(buf)@.len() as int));
    match vec_structs(s, buf, arr, inner, depth) {
        Ok(()) => {},
        Err(e) => {
            return Err(e);
        },
    }
    let ghost b2 = buf@;
    align_buf(buf, 4);
    proof {
        lemma_le_low_len(n as u32 as nat, 4);
        lemma_same_prefix_trans(old(buf)@, b1, b2, old(buf)@.len() as int, b1.len() as int);
        lemma_same_prefix_append(b2, zeros(pad_len(b2.len(), 4)), b2.len() as int);
        lemma_same_prefix_trans(old(buf)@, b2, buf@, old(buf)@.len() as int, b2.len() as int);
    }
    Ok(pos)
}

/// A vector of tables: count, offsets, then the tables.
fn vector_of_tables(s: &Schema, buf: &mut Vec<u8>, vts: &mut Vec<usize>, arr: &Vec<JsonValue>, inner: usize, depth: usize) -> (r: Result<usize, JsonEncodeError>)
    requires
        schema_wf(*s),
    ensures
        placed_vt(r, spec_vector_tables(*s, old(buf)@, old(vts)@, arr@, inner as nat, depth as nat), old(buf)@, final(buf)@, final(vts)@),
    decreases MAX_DEPTH + 2 - depth, 3nat, 1nat,
{
    let n = arr.len();
    align_buf(buf, 4);
    let pos = buf_len(buf);
    write_vector_header(buf, n);
    proof {
        lemma_le_low_len(n as u32 as nat, 4);
    }
    let ghost b2 = buf@;
    let ghost v0 = vts@;
    let mut k: usize = 0;
    while k < n
        invariant
            schema_wf(*s),
            n == arr@.len(),
            k <= n,
            pos + 4 + 4 * n <= b2.len(),
            b2.len() <= isize::MAX,
            buf@.len() >= b2.len(),
            pos <= b2.len(),
            b2 == pad(old(buf)@, 4) + le32(n as u32) + zeros(4 * n as nat),
            pos == pad(old(buf)@, 4).len(),
            old(buf)@.len() <= pos,
            same_prefix(b2, buf@, pos as int),
            v0 == old(vts)@,
            spec_vec_tables(*s, arr@, inner as nat, pos as nat, b2, v0, k as nat, depth as nat) == Ok::<(Seq<u8>, Seq<usize>), EncodeFault>((buf@, vts@)),
        decreases n - k,
    {
        let ghost before = buf@;
        if depth >= MAX_DEPTH {
            return Err(JsonEncodeError::MaxDepthExceeded { max: MAX_DEPTH });
        }
        match encode_table(s, buf, vts, &arr[k], inner, depth + 1) {
            Ok(t) => {
                let ph = pos + 4 + 4 * k;
                let ghost mid = buf@;
                patch_u32_le(buf, ph, (t - ph) as u32);
                proof {
                    lemma_le_low_len((t - ph) as u32 as nat, 4);
                    lemma_same_prefix_splice(mid, ph as int, le32((t - ph) as u32), pos as int);
                    lemma_same_prefix_trans(b2, before, mid, pos as int, before.len() as int);
                    lemma_same_prefix_trans(b2, mid, buf@, pos as int, pos as int);
                }
            },
            Err(e) => {
                proof {
                    lemma_vec_tables_err(*s, arr@, inner as nat, pos as nat, b2, v0, (k + 1) as nat, n as nat, depth as nat);
                }
                return Err(e);
            },
        }
        k = k + 1;
    }
    proof {
        assert(b2.subrange(0, old(buf)@.len() as int) =~= old(buf)@.subrange(0, old(buf)@.len() as int));
        lemma_same_prefix_trans(old(buf)@, b2, buf@, old(buf)@.len() as int, pos as int);
    }
    Ok(pos)
}

/// Writes a vector at the end of the buffer and returns its position.
pub fn encode_vector(s: &Schema, buf: &mut Vec<u8>, vts: &mut Vec<usize>, v: &JsonValue, ty: &Option<FieldType>, fname: &String, depth: usize) -> (r: Result<usize, JsonEncodeError>)
    requires
        schema_wf(*s),
    ensures
        placed_vt(r, spec_vector(*s, old(buf)@, old(vts)@, *v, *ty, fname@, depth as nat), old(buf)@, final(buf)@, final(vts)@),
        !(*v is Array) ==> final(buf)@ == old(buf)@ && final(vts)@ == old(vts)@,
    decreases MAX_DEPTH + 2 - depth, 4nat, 0nat,
{
    let arr = match v {
        JsonValue::Array(a) => a,
        _ => {
            return Err(JsonEncodeError::ExpectedArray { field_name: fname.clone(), actual: json_type_name(v) });
        },
    };
    let ebt = element_type_of(ty);
    if ebt.is_scalar() {
        vector_of_scalars(s, buf, arr, ebt, ty, fname)
    } else if ebt == BaseType::BASE_TYPE_STRING {
        vector_of_strings(buf, arr, fname)
    } else if ebt == BaseType::BASE_TYPE_TABLE {
        vector_of_tables(s, buf, vts, arr, type_index_of(ty), depth)
    } else if ebt == BaseType::BASE_TYPE_STRUCT {
        vector_of_structs(s, buf, arr, type_index_of(ty), depth)
    } else {
        align_buf(buf, 4);
        let pos = buf_len(buf);
        write_u32_le(buf, 0);
        proof {
            lemma_le_low_len(0, 4);
        }
        assert(buf@.subrange(0, old(buf)@.len() as int) =~= old(buf)@.subrange(0, old(buf)@.len() as int));
        Ok(pos)
    }
}

/// Writes the data of the union member whose value is `disc` and returns
/// its position.
pub fn encode_union_data(s: &Schema, buf: &mut Vec<u8>, vts: &mut Vec<usize>, v: &JsonValue, enum_idx: usize, disc: u8, fname: &String, depth: usize) -> (r: Result<usize, JsonEncodeError>)
    requires
        schema_wf(*s),
    ensures
        placed_vt(r, spec_union(*s, old(buf)@, old(vts)@, *v, enum_idx as nat, disc, fname@, depth as nat), old(buf)@, final(buf)@, final(vts)@),
        enum_idx >= s.enums@.len() ==> final(buf)@ == old(buf)@ && final(vts)@ == old(vts)@,
    decreases MAX_DEPTH + 2 - depth, 4nat, 0nat,
{
    if enum_idx >= s.enums.len() {
        return Err(JsonEncodeError::EnumIndexOutOfRange { index: enum_idx, count: s.enums.len() });
    }
    let e = &s.enums[enum_idx];
    let mut k: usize = 0;
    while k < e.values.len() && e.values[k].value != Some(disc as i64)
        invariant
            k <= e.values@.len(),
            forall|j: int| 0 <= j < k ==> e.values@[j].value != Some(disc as i64),
        decreases e.values@.len() - k,
    {
        k = k + 1;
    }
    proof {
        lemma_first_with_value(e.values@, disc as i64);
    }
    if k == e.values.len() {
        return Ok(buf_len(buf));
    }
    assert(first_with_value(e.values@, disc as i64) == Some(k as int));
    let ut = match &e.values[k].union_type {
        None => {
            return Ok(buf_len(buf));
        },
        Some(t) => t,
    };
    let vbt = match ut.base_type {
        Some(x) => x,
        None => BaseType::BASE_TYPE_NONE,
    };
    if vbt == BaseType::BASE_TYPE_TABLE {
        let idx: usize = match ut.index {
            Some(i) => i as usize,
            None => 0,
        };
        encode_table(s, buf, vts, v, idx, depth)
    } else if vbt == BaseType::BASE_TYPE_STRING {
        match v {
            JsonValue::String(st) => Ok(encode_string(buf, st)),
            _ => Err(JsonEncodeError::ExpectedString { field_name: fname.clone(), actual: json_type_name(v) }),
        }
    } else {
        Ok(buf_len(buf))
    }
}

proof fn lemma_first_with_value(vals: Seq<EnumVal>, v: i64)
    ensures
        match first_with_value(vals, v) {
            Some(i) => 0 <= i < vals.len() && vals[i].value == Some(v) && forall|j: int| 0 <= j < i ==> vals[j].value != Some(v),
            None => forall|j: int| 0 <= j < vals.len() ==> vals[j].value != Some(v),
        },
    decreases vals.len(),
{
    if vals.len() > 0 && vals[0].value != Some(v) {
        lemma_first_with_value(vals.drop_first(), v);
        assert forall|j: int| 0 < j < vals.len() implies vals[j] == vals.drop_first()[j - 1] by {}
    }
}

} // verus!

verus! {

// ---------------------------------------------------------------------------
// Root type lookup and the public entry point
// ---------------------------------------------------------------------------

/// The part of a dotted name after its last `.` (the whole name when it has none).
pub open spec fn short_name(n: Seq<char>) -> Seq<char>
    decreases n.len(),
{
    if n.len() == 0 {
        n
    } else if n.last() == '.' {
        Seq::empty()
    } else {
        short_name(n.drop_last()).push(n.last())
    }
}

/// Index of the first object named exactly `name`.
pub open spec fn exact_object(objs: Seq<Object>, name: Seq<char>) -> Option<int>
    decreases objs.len(),
{
    if objs.len() == 0 {
        None
    } else if objs[0].name is Some && objs[0].name->0@ == name {
        Some(0)
    } else {
        match exact_object(objs.drop_first(), name) {
            Some(i) => Some(i + 1),
            None => None,
        }
    }
}

/// Index of the first object whose name without namespace is `name`.
pub open spec fn short_object(objs: Seq<Object>, name: Seq<char>) -> Option<int>
    decreases objs.len(),
{
    if objs.len() == 0 {
        None
    } else if objs[0].name is Some && short_name(objs[0].name->0@) == name {
        Some(0)
    } else {
        match short_object(objs.drop_first(), name) {
            Some(i) => Some(i + 1),
            None => None,
        }
    }
}

/// The object a root type name refers to: an exact name match first, then a
/// match of the name without namespace.
pub open spec fn find_object(s: Schema, name: Seq<char>) -> Option<int> {
    match exact_object(s.objects@, name) {
        Some(i) => Some(i),
        None => short_object(s.objects@, name),
    }
}

/// The FlatBuffers binary of `json` as a table of the root type `root`:
/// root offset, optional file identifier, then the root table.
pub open spec fn spec_encode(s: Schema, json: JsonValue, root: Seq<char>) -> Result<Seq<u8>, EncodeFault> {
    match find_object(s, root) {
        None => Err(EncodeFault::RootTypeNotFound { name: root }),
        Some(ri) => match spec_table(s, le32(0) + ident_bytes(s.file_ident), Seq::empty(), json, ri as nat, 0) {
            Err(e) => Err(e),
            Ok(r) => Ok(patch32(r.0, 0, r.1 as u32)),
        },
    }
}

/// Position of the root table in the binary of `json` (when encoding succeeds).
pub open spec fn root_table_pos(s: Schema, json: JsonValue, root: Seq<char>) -> nat {
    match find_object(s, root) {
        Some(ri) => match spec_table(s, le32(0) + ident_bytes(s.file_ident), Seq::empty(), json, ri as nat, 0) {
            Ok(r) => r.1,
            Err(_) => 0,
        },
        None => 0,
    }
}

proof fn lemma_exact_object(objs: Seq<Object>, name: Seq<char>)
    ensures
        match exact_object(objs, name) {
            Some(i) => 0 <= i < objs.len() && objs[i].name is Some && objs[i].name->0@ == name
                && forall|j: int| 0 <= j < i ==> !(objs[j].name is Some && objs[j].name->0@ == name),
            None => forall|j: int| 0 <= j < objs.len() ==> !(objs[j].name is Some && objs[j].name->0@ == name),
        },
    decreases objs.len(),
{
    if objs.len() > 0 && !(objs[0].name is Some && objs[0].name->0@ == name) {
        lemma_exact_object(objs.drop_first(), name);
        assert forall|j: int| 0 < j < objs.len() implies objs[j] == objs.drop_first()[j - 1] by {}
    }
}

proof fn lemma_short_object(objs: Seq<Object>, name: Seq<char>)
    ensures
        match short_object(objs, name) {
            Some(i) => 0 <= i < objs.len() && objs[i].name is Some && short_name(objs[i].name->0@) == name
                && forall|j: int| 0 <= j < i ==> !(objs[j].name is Some && short_name(objs[j].name->0@) == name),
            None => forall|j: int| 0 <= j < objs.len() ==> !(objs[j].name is Some && short_name(objs[j].name->0@) == name),
        },
    decreases objs.len(),
{
    if objs.len() > 0 && !(objs[0].name is Some && short_name(objs[0].name->0@) == name) {
        lemma_short_object(objs.drop_first(), name);
        assert forall|j: int| 0 < j < objs.len() implies objs[j] == objs.drop_first()[j - 1] by {}
    }
}

/// The characters after the last `.` of a name.
pub fn short_name_of(n: &String) -> (r: Vec<char>)
    ensures
        r@ == short_name(n@),
{
    let cs = crate::text::chars_of(n.as_str());
    let mut r: Vec<char> = Vec::new();
    let mut i: usize = 0;
    while i < cs.len()
        invariant
            cs@ == n@,
            i <= cs@.len(),
            r@ == short_name(cs@.take(i as int)),
        decreases cs@.len() - i,
    {
        let c = cs[i];
        let ghost pre = cs@.take(i as int);
        assert(cs@.take(i + 1).drop_last() =~= pre);
        if c == '.' {
            r = Vec::new();
            assert(r@ =~= short_name(cs@.take(i + 1)));
        } else {
            r.push(c);
        }
        i = i + 1;
    }
    assert(cs@.take(cs@.len() as int) =~= cs@);
    r
}

/// Finds the object a root type name refers to.
pub fn find_object_index(s: &Schema, name: &str) -> (r: Result<usize, JsonEncodeError>)
    ensures
        match find_object(*s, name@) {
            Some(i) => 0 <= i < s.objects@.len() && r is Ok && r->Ok_0 as int == i,
            None => r is Err && r->Err_0@ == (EncodeFault::RootTypeNotFound { name: name@ }),
        },
{
    let target = crate::text::string_of(name);
    proof {
        lemma_exact_object(s.objects@, name@);
        lemma_short_object(s.objects@, name@);
    }
    let mut i: usize = 0;
    while i < s.objects.len()
        invariant
            target@ == name@,
            i <= s.objects@.len(),
            forall|j: int| 0 <= j < i ==> !(s.objects@[j].name is Some && s.objects@[j].name->0@ == name@),
            match exact_object(s.objects@, name@) {
                Some(k) => 0 <= k < s.objects@.len() && s.objects@[k].name is Some && s.objects@[k].name->0@ == name@
                    && forall|j: int| 0 <= j < k ==> !(s.objects@[j].name is Some && s.objects@[j].name->0@ == name@),
                None => forall|j: int| 0 <= j < s.objects@.len() ==> !(s.objects@[j].name is Some && s.objects@[j].name->0@ == name@),
            },
        decreases s.objects@.len() - i,
    {
        if let Some(n) = &s.objects[i].name {
            if *n == target {
                assert(exact_object(s.objects@, name@) == Some(i as int));
                return Ok(i);
            }
        }
        i = i + 1;
    }
    let tchars = crate::text::chars_of(name);
    let mut i: usize = 0;
    while i < s.objects.len()
        invariant
            tchars@ == name@,
            exact_object(s.objects@, name@) is None,
            match short_object(s.objects@, name@) {
                Some(k) => 0 <= k < s.objects@.len() && s.objects@[k].name is Some && short_name(s.objects@[k].name->0@) == name@
                    && forall|j: int| 0 <= j < k ==> !(s.objects@[j].name is Some && short_name(s.objects@[j].name->0@) == name@),
                None => forall|j: int| 0 <= j < s.objects@.len() ==> !(s.objects@[j].name is Some && short_name(s.objects@[j].name->0@) == name@),
            },
            i <= s.objects@.len(),
            forall|j: int| 0 <= j < i ==> !(s.objects@[j].name is Some && short_name(s.objects@[j].name->0@) == name@),
        decreases s.objects@.len() - i,
    {
        if let Some(n) = &s.objects[i].name {
            let short = short_name_of(n);
            if crate::text::starts_with_chars(short.as_slice(), tchars.as_slice()) && short.len() == tchars.len() {
                assert(short@ =~= tchars@);
                assert(short_object(s.objects@, name@) == Some(i as int));
                return Ok(i);
            }
            proof {
                if short@ == tchars@ {
                    assert(short@.subrange(0, tchars@.len() as int) =~= short@);
                }
            }
        }
        i = i + 1;
    }
    Err(JsonEncodeError::RootTypeNotFound { name: crate::text::string_of(name) })
}

/// Encodes a JSON value into a FlatBuffers binary.
///
/// `json` must be a JSON object representing the root table, `schema` the
/// compiled schema and `root_type` the name of the root table type. A
/// binary starts with the offset of the root table; when the schema declares
/// a file identifier, its four bytes follow at bytes 4 to 7.
pub fn encode_json(json: &JsonValue, schema: &Schema, root_type: &str) -> (r: Result<Vec<u8>, JsonEncodeError>)
    requires
        schema_wf(*schema),
    ensures
        match spec_encode(*schema, *json, root_type@) {
            Ok(b) => r is Ok && r->Ok_0@ == b,
            Err(f) => r is Err && r->Err_0@ == f,
        },
        r is Ok ==> {
            let b = r->Ok_0@;
            let id = ident_bytes(schema.file_ident);
            let root = root_table_pos(*schema, *json, root_type@);
            &&& 4 + id.len() <= root <= b.len()
            &&& b.subrange(0, 4) == le32(root as u32)
            &&& b.subrange(4, 4 + id.len() as int) == id
        },
{
    let found = find_object_index(schema, root_type);
    let root_idx = match found {
        Ok(i) => i,
        Err(e) => return Err(e),
    };
    assert(find_object(*schema, root_type@) is Some);
    let mut buf: Vec<u8> = Vec::new();
    write_u32_le(&mut buf, 0);
    if let Some(ident) = &schema.file_ident {
        let bytes = ident.as_str().as_bytes();
        let mut i: usize = 0;
        while i < 4
            invariant
                i <= 4,
                buf@ == le32(0) + ident_bytes(schema.file_ident).take(i as int),
                schema.file_ident == Some(*ident),
                bytes@ == utf8(ident@),
            decreases 4 - i,
        {
            buf.push(if i < bytes.len() { bytes[i] } else { 0u8 });
            i = i + 1;
            assert(buf@ =~= le32(0) + ident_bytes(schema.file_ident).take(i as int));
        }
        assert(ident_bytes(schema.file_ident).take(4) =~= ident_bytes(schema.file_ident));
    } else {
        assert(buf@ =~= le32(0) + ident_bytes(schema.file_ident));
    }
    assert(buf@ == le32(0) + ident_bytes(schema.file_ident));
    assert(find_object(*schema, root_type@) == Some(root_idx as int));
    let mut vts: Vec<usize> = Vec::new();
    let root_offset = match encode_table(schema, &mut buf, &mut vts, json, root_idx, 0) {
        Ok(p) => p,
        Err(e) => return Err(e),
    };
    proof {
        lemma_le_low_len(0, 4);
        lemma_le_low_len(root_offset as u32 as nat, 4);
    }
    let ghost b1 = buf@;
    let ghost h = le32(0) + ident_bytes(schema.file_ident);
    patch_u32_le(&mut buf, 0, root_offset as u32);
    proof {
        let id = ident_bytes(schema.file_ident);
        assert(buf@.subrange(0, 4) =~= le32(root_offset as u32));
        assert(buf@.subrange(4, 4 + id.len() as int) =~= b1.subrange(4, 4 + id.len() as int));
        assert forall|i: int| 0 <= i < id.len() implies b1[4 + i] == id[i] by {
            assert(b1.subrange(0, h.len() as int)[4 + i] == h.subrange(0, h.len() as int)[4 + i]);
        }
        assert(b1.subrange(4, 4 + id.len() as int) =~= id);
    }
    Ok(buf)
}

} // verus!

verus! {

/// Message of an encoding error.
pub open spec fn encode_error_text(f: EncodeFault) -> Seq<char> {
    match f {
        EncodeFault::RootTypeNotFound { name } => "root type '"@ + name + "' not found in schema"@,
        EncodeFault::ExpectedObject { object_name, actual } => "expected JSON object for table/struct '"@ + object_name + "', got "@ + actual,
        EncodeFault::ExpectedArray { field_name, actual } => "expected JSON array for vector field '"@ + field_name + "', got "@ + actual,
        EncodeFault::ExpectedNumber { field_name, base_type, actual } => "expected JSON number for field '"@ + field_name + "' ("@ + base_type + "), got "@ + actual,
        EncodeFault::ExpectedString { field_name, actual } => "expected JSON string for field '"@ + field_name + "', got "@ + actual,
        EncodeFault::UnknownField { object_name, field_name } => "unknown field '"@ + field_name + "' in table '"@ + object_name + "'"@,
        EncodeFault::UnknownEnumValue { enum_name, value } => "unknown enum value '"@ + value + "' for enum '"@ + enum_name + "'"@,
        EncodeFault::MissingUnionType { field_name } => "union field '"@ + field_name + "' requires companion '"@ + field_name + "_type' field"@,
        EncodeFault::ObjectIndexOutOfRange { index, count } => "object index "@ + decimal(index) + " out of range (have "@ + decimal(count) + " objects)"@,
        EncodeFault::EnumIndexOutOfRange { index, count } => "enum index "@ + decimal(index) + " out of range (have "@ + decimal(count) + " enums)"@,
        EncodeFault::MaxDepthExceeded { max } => "encoding depth exceeded maximum of "@ + decimal(max),
        EncodeFault::MissingStructField { field_name } => "struct field '"@ + field_name + "' is missing in JSON (structs require all fields)"@,
        EncodeFault::NumberOutOfRange { field_name, base_type, value } => "number out of range for field '"@ + field_name + "' ("@ + base_type + "): "@ + value,
    }
}

impl JsonEncodeError {
    /// The error's message.
    pub fn describe(&self) -> (s: String)
        ensures
            s@ == encode_error_text(self@),
    {
        let mut s = String::new();
        match self {
            JsonEncodeError::RootTypeNotFound { name } => {
                push_str(&mut s, "root type '");
                push_str(&mut s, name.as_str());
                push_str(&mut s, "' not found in schema");
            },
            JsonEncodeError::ExpectedObject { object_name, actual } => {
                push_str(&mut s, "expected JSON object for table/struct '");
                push_str(&mut s, object_name.as_str());
                push_str(&mut s, "', got ");
                push_str(&mut s, actual.as_str());
            },
            JsonEncodeError::ExpectedArray { field_name, actual } => {
                push_str(&mut s, "expected JSON array for vector field '");
                push_str(&mut s, field_name.as_str());
                push_str(&mut s, "', got ");
                push_str(&mut s, actual.as_str());
            },
            JsonEncodeError::ExpectedNumber { field_name, base_type, actual } => {
                push_str(&mut s, "expected JSON number for field '");
                push_str(&mut s, field_name.as_str());
                push_str(&mut s, "' (");
                push_str(&mut s, base_type.as_str());
                push_str(&mut s, "), got ");
                push_str(&mut s, actual.as_str());
            },
            JsonEncodeError::ExpectedString { field_name, actual } => {
                push_str(&mut s, "expected JSON string for field '");
                push_str(&mut s, field_name.as_str());
                push_str(&mut s, "', got ");
                push_str(&mut s, actual.as_str());
            },
            JsonEncodeError::UnknownField { object_name, field_name } => {
                push_str(&mut s, "unknown field '");
                push_str(&mut s, field_name.as_str());
                push_str(&mut s, "' in table '");
                push_str(&mut s, object_name.as_str());
                push_str(&mut s, "'");
            },
            JsonEncodeError::UnknownEnumValue { enum_name, value } => {
                push_str(&mut s, "unknown enum value '");
                push_str(&mut s, value.as_str());
                push_str(&mut s, "' for enum '");
                push_str(&mut s, enum_name.as_str());
                push_str(&mut s, "'");
            },
            JsonEncodeError::MissingUnionType { field_name } => {
                push_str(&mut s, "union field '");
                push_str(&mut s, field_name.as_str());
                push_str(&mut s, "' requires companion '");
                push_str(&mut s, field_name.as_str());
                push_str(&mut s, "_type' field");
            },
            JsonEncodeError::ObjectIndexOutOfRange { index, count } => {
                push_str(&mut s, "object index ");
                push_decimal(&mut s, *index as u64);
                push_str(&mut s, " out of range (have ");
                push_decimal(&mut s, *count as u64);
                push_str(&mut s, " objects)");
            },
            JsonEncodeError::EnumIndexOutOfRange { index, count } => {
                push_str(&mut s, "enum index ");
                push_decimal(&mut s, *index as u64);
                push_str(&mut s, " out of range (have ");
                push_decimal(&mut s, *count as u64);
                push_str(&mut s, " enums)");
            },
            JsonEncodeError::MaxDepthExceeded { max } => {
                push_str(&mut s, "encoding depth exceeded maximum of ");
                push_decimal(&mut s, *max as u64);
            },
            JsonEncodeError::MissingStructField { field_name } => {
                push_str(&mut s, "struct field '");
                push_str(&mut s, field_name.as_str());
                push_str(&mut s, "' is missing in JSON (structs require all fields)");
            },
            JsonEncodeError::NumberOutOfRange { field_name, base_type, value } => {
                push_str(&mut s, "number out of range for field '");
                push_str(&mut s, field_name.as_str());
                push_str(&mut s, "' (");
                push_str(&mut s, base_type.as_str());
                push_str(&mut s, "): ");
                push_str(&mut s, value.as_str());
            },
        }
        assert(s@ =~= encode_error_text(self@));
        s
    }
}

} // verus!

verus! {

// ---------------------------------------------------------------------------
// Vectors of strings: every slot leads to its string
// ---------------------------------------------------------------------------

/// The string written at `t`: its 4-byte length, then its UTF-8 bytes.
pub open spec fn string_at(out: Seq<u8>, t: int, st: Seq<char>) -> bool {
    &&& 0 <= t
    &&& t + 4 + utf8(st).len() <= out.len()
    &&& out.subrange(t, t + 4) == le32(utf8(st).len() as u32)
    &&& out.subrange(t + 4, t + 4 + utf8(st).len()) == utf8(st)
}

/// Slot `i` of a string vector whose count is at `pos` holds the distance
/// from the slot itself to a string equal to `v`, which lies at or after `lo`.
pub open spec fn string_slot(out: Seq<u8>, pos: int, i: int, v: JsonValue, lo: int) -> bool {
    let ph = pos + 4 + 4 * i;
    &&& ph + 4 <= out.len()
    &&& ph + read_le32(out, ph) >= lo
    &&& v matches JsonValue::String(st) && string_at(out, ph + read_le32(out, ph), st@)
}

proof fn lemma_string_appends(b: Seq<u8>, st: Seq<char>)
    ensures
        spec_string(b, st).0.len() >= b.len(),
        spec_string(b, st).0.subrange(0, b.len() as int) == b,
        spec_string(b, st).1 >= b.len(),
        string_at(spec_string(b, st).0, spec_string(b, st).1 as int, st),
{
    let b1 = pad(b, 4);
    let bytes = utf8(st);
    lemma_le_low_len(bytes.len() as u32 as nat, 4);
    let c = b1 + le32(bytes.len() as u32) + bytes + seq![0u8];
    let out = pad(c, 4);
    let t = b1.len() as int;
    assert(out.subrange(0, b.len() as int) =~= b);
    assert(out.subrange(t, t + 4) =~= le32(bytes.len() as u32));
    assert(out.subrange(t + 4, t + 4 + bytes.len()) =~= bytes);
}

proof fn lemma_vec_strings_grow(arr: Seq<JsonValue>, fname: Seq<char>, pos: nat, b0: Seq<u8>, k: nat)
    requires
        k <= arr.len(),
        pos + 4 + 4 * arr.len() <= b0.len(),
    ensures
        spec_vec_strings(arr, fname, pos, b0, k) matches Ok(bk) ==> bk.len() >= b0.len(),
    decreases k,
{
    if k > 0 {
        lemma_vec_strings_grow(arr, fname, pos, b0, (k - 1) as nat);
        if let Ok(b1) = spec_vec_strings(arr, fname, pos, b0, (k - 1) as nat) {
            if let JsonValue::String(st) = arr[k - 1] {
                lemma_string_appends(b1, st@);
                let (b2, t) = spec_string(b1, st@);
                let ph: int = (pos + 4 + 4 * (k - 1)) as int;
                lemma_le_low_len((t - ph) as u32 as nat, 4);
                assert(patch32(b2, ph, (t - ph) as u32).len() == b2.len());
            }
        }
    }
}

/// Reading back the slots and strings of the first `k` elements.
#[verifier::spinoff_prover]
#[verifier::rlimit(80)]
proof fn lemma_vec_strings_slots(arr: Seq<JsonValue>, fname: Seq<char>, pos: nat, b0: Seq<u8>, k: nat)
    requires
        k <= arr.len(),
        pos + 4 + 4 * arr.len() <= b0.len(),
    ensures
        spec_vec_strings(arr, fname, pos, b0, k) matches Ok(bk) ==> (bk.len() <= u32::MAX ==> {
            &&& bk.len() >= b0.len()
            &&& bk.subrange(0, pos + 4int) == b0.subrange(0, pos + 4int)
            &&& forall|i: int| 0 <= i < k ==> #[trigger] string_slot(bk, pos as int, i, arr[i], b0.len() as int)
        }),
    decreases k,
{
    lemma_vec_strings_grow(arr, fname, pos, b0, k);
    if k > 0 {
        let km = (k - 1) as nat;
        lemma_vec_strings_grow(arr, fname, pos, b0, km);
        lemma_vec_strings_slots(arr, fname, pos, b0, km);
        if let Ok(b1) = spec_vec_strings(arr, fname, pos, b0, km) {
            if let JsonValue::String(st) = arr[km as int] {
                let b2 = spec_string(b1, st@).0;
                let t: int = spec_string(b1, st@).1 as int;
                lemma_string_appends(b1, st@);
                let ph: int = (pos + 4 + 4 * km) as int;
                let v = (t - ph) as u32;
                lemma_le_low_len(v as nat, 4);
                let bk = patch32(b2, ph, v);
                assert(bk.len() == b2.len());
                if bk.len() <= u32::MAX {
                    // the earlier part of the buffer is untouched apart from slot `km`
                    assert forall|j: int| 0 <= j < b1.len() && !(ph <= j < ph + 4) implies bk[j] == b1[j] by {
                        assert(b2[j] == b2.subrange(0, b1.len() as int)[j]);
                    }
                    assert forall|j: int| b1.len() <= j < b2.len() implies bk[j] == b2[j] by {}
                    assert(bk.subrange(0, pos + 4int) =~= b0.subrange(0, pos + 4int)) by {
                        assert forall|j: int| 0 <= j < pos + 4 implies #[trigger] bk.subrange(0, pos + 4int)[j] == b0.subrange(0, pos + 4int)[j] by {
                            assert(b1.subrange(0, pos + 4int)[j] == b1[j]);
                        }
                    }
                    assert forall|i: int| 0 <= i < k implies #[trigger] string_slot(bk, pos as int, i, arr[i], b0.len() as int) by {
                        let phi: int = pos + 4 + 4 * i;
                        if i < km {
                            assert(string_slot(b1, pos as int, i, arr[i], b0.len() as int));
                            assert(read_le32(bk, phi) == read_le32(b1, phi));
                            let ti = phi + read_le32(b1, phi);
                            if let JsonValue::String(si) = arr[i] {
                                let n = utf8(si@).len();
                                assert(bk.subrange(ti, ti + 4) =~= b1.subrange(ti, ti + 4));
                                assert(bk.subrange(ti + 4, ti + 4 + n) =~= b1.subrange(ti + 4, ti + 4 + n));
                            }
                        } else {
                            assert(bk.subrange(ph, ph + 4) =~= le32(v));
                            lemma_read_le32(v, bk, ph);
                            assert(read_le32(bk, ph) == t - ph);
                            let n = utf8(st@).len();
                            assert(bk.subrange(t, t + 4) =~= b2.subrange(t, t + 4));
                            assert(bk.subrange(t + 4, t + 4 + n) =~= b2.subrange(t + 4, t + 4 + n));
                        }
                    }
                }
            }
        }
    }
}

/// A vector of strings as written: its count, then one slot per element,
/// each holding the distance from that slot to a string whose length prefix
/// and UTF-8 bytes are those of the element (offsets are relative to the
/// slot they are stored in). Stated for binaries below 4 GiB, where the
/// 32-bit offsets are exact.
pub proof fn lemma_string_vector_slots(b: Seq<u8>, arr: Seq<JsonValue>, fname: Seq<char>)
    requires
        spec_vector_strings(b, arr, fname) matches Ok(r) && r.0.len() <= u32::MAX,
    ensures
        ({
            let (out, pos) = spec_vector_strings(b, arr, fname)->Ok_0;
            &&& pos >= b.len()
            &&& pos + 4 + 4 * arr.len() <= out.len()
            &&& out.subrange(pos as int, pos + 4int) == le32(arr.len() as u32)
            &&& forall|i: int| #![trigger arr[i]] 0 <= i < arr.len() ==> {
                let ph = pos + 4 + 4 * i;
                &&& arr[i] matches JsonValue::String(st)
                &&& string_at(out, ph + read_le32(out, ph), st@)
                &&& ph + read_le32(out, ph) >= pos + 4 + 4 * arr.len()
            }
        }),
{
    let b1 = pad(b, 4);
    let n = arr.len();
    lemma_le_low_len(n as u32 as nat, 4);
    let b0 = b1 + le32(n as u32) + zeros(4 * n);
    let pos = b1.len();
    lemma_vec_strings_slots(arr, fname, pos, b0, n);
    let out = spec_vector_strings(b, arr, fname)->Ok_0.0;
    assert(out.subrange(pos as int, pos + 4int) =~= out.subrange(0, pos + 4int).subrange(pos as int, pos + 4int));
    assert(b0.subrange(0, pos + 4int).subrange(pos as int, pos + 4int) =~= le32(n as u32));
    assert forall|i: int| #![trigger arr[i]] 0 <= i < arr.len() implies {
        let ph = pos + 4 + 4 * i;
        &&& arr[i] matches JsonValue::String(st)
        &&& string_at(out, ph + read_le32(out, ph), st@)
        &&& ph + read_le32(out, ph) >= pos + 4 + 4 * arr.len()
    } by {
        assert(string_slot(out, pos as int, i, arr[i], b0.len() as int));
    }
}

} // verus!
