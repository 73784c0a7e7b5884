//! The compiled FlatBuffers schema model: objects (tables and structs),
//! fields with their types, and enums / unions.

use vstd::prelude::*;
use crate::text::string_of;

verus! {

/// Base type of a schema type.
#[derive(Debug, Clone, Copy, PartialEq, Eq, Structural)]
#[allow(non_camel_case_types)]
pub enum BaseType {
    BASE_TYPE_NONE,
    BASE_TYPE_U_TYPE,
    BASE_TYPE_BOOL,
    BASE_TYPE_BYTE,
    BASE_TYPE_U_BYTE,
    BASE_TYPE_SHORT,
    BASE_TYPE_U_SHORT,
    BASE_TYPE_INT,
    BASE_TYPE_U_INT,
    BASE_TYPE_LONG,
    BASE_TYPE_U_LONG,
    BASE_TYPE_FLOAT,
    BASE_TYPE_DOUBLE,
    BASE_TYPE_STRING,
    BASE_TYPE_VECTOR,
    BASE_TYPE_TABLE,
    BASE_TYPE_STRUCT,
    BASE_TYPE_UNION,
    BASE_TYPE_ARRAY,
}

/// A field's (or vector element's, or union member's) type.
#[derive(Debug, Clone)]
pub struct FieldType {
    pub base_type: Option<BaseType>,
    /// Element type of a vector.
    pub element_type: Option<BaseType>,
    /// Index of the object (table / struct) or enum this type refers to.
    pub index: Option<u32>,
}

/// A field of a table or struct.
#[derive(Debug, Clone)]
pub struct Field {
    pub name: Option<String>,
    pub type_: Option<FieldType>,
    /// Slot id within a table's vtable.
    pub id: Option<u16>,
    /// Byte offset within a struct.
    pub offset: Option<u16>,
}

/// A table or struct definition.
#[derive(Debug, Clone)]
pub struct Object {
    pub name: Option<String>,
    pub fields: Vec<Field>,
    pub is_struct: bool,
    pub min_align: Option<u32>,
    pub byte_size: Option<u32>,
}

/// One value of an enum or one member of a union.
#[derive(Debug, Clone)]
pub struct EnumVal {
    pub name: Option<String>,
    pub value: Option<i64>,
    /// For a union member: the member's type.
    pub union_type: Option<FieldType>,
}

/// An enum or union definition.
#[derive(Debug, Clone)]
pub struct Enum {
    pub name: Option<String>,
    pub values: Vec<EnumVal>,
}

/// A compiled schema.
#[derive(Debug, Clone)]
pub struct Schema {
    pub objects: Vec<Object>,
    pub enums: Vec<Enum>,
    pub file_ident: Option<String>,
    /// Index of the root table among `objects`, when the schema declares one.
    pub root_table_index: Option<usize>,
}

/// Scalar base types (`UType` through `Double`).
pub open spec fn is_scalar_spec(bt: BaseType) -> bool {
    match bt {
        BaseType::BASE_TYPE_U_TYPE | BaseType::BASE_TYPE_BOOL | BaseType::BASE_TYPE_BYTE | BaseType::BASE_TYPE_U_BYTE | BaseType::BASE_TYPE_SHORT
        | BaseType::BASE_TYPE_U_SHORT | BaseType::BASE_TYPE_INT | BaseType::BASE_TYPE_U_INT | BaseType::BASE_TYPE_LONG | BaseType::BASE_TYPE_U_LONG
        | BaseType::BASE_TYPE_FLOAT | BaseType::BASE_TYPE_DOUBLE => true,
        _ => false,
    }
}

/// Byte size of a scalar base type; 0 for non-scalars.
pub open spec fn scalar_size_spec(bt: BaseType) -> nat {
    match bt {
        BaseType::BASE_TYPE_U_TYPE | BaseType::BASE_TYPE_BOOL | BaseType::BASE_TYPE_BYTE | BaseType::BASE_TYPE_U_BYTE => 1,
        BaseType::BASE_TYPE_SHORT | BaseType::BASE_TYPE_U_SHORT => 2,
        BaseType::BASE_TYPE_INT | BaseType::BASE_TYPE_U_INT | BaseType::BASE_TYPE_FLOAT => 4,
        BaseType::BASE_TYPE_LONG | BaseType::BASE_TYPE_U_LONG | BaseType::BASE_TYPE_DOUBLE => 8,
        _ => 0,
    }
}

impl BaseType {
    /// Whether this is a scalar base type.
    pub fn is_scalar(&self) -> (r: bool)
        ensures
            r == is_scalar_spec(*self),
    {
        match self {
            BaseType::BASE_TYPE_U_TYPE | BaseType::BASE_TYPE_BOOL | BaseType::BASE_TYPE_BYTE | BaseType::BASE_TYPE_U_BYTE | BaseType::BASE_TYPE_SHORT
            | BaseType::BASE_TYPE_U_SHORT | BaseType::BASE_TYPE_INT | BaseType::BASE_TYPE_U_INT | BaseType::BASE_TYPE_LONG
            | BaseType::BASE_TYPE_U_LONG | BaseType::BASE_TYPE_FLOAT | BaseType::BASE_TYPE_DOUBLE => true,
            _ => false,
        }
    }

    /// Byte size of a scalar base type; 0 for non-scalars.
    pub fn scalar_byte_size(&self) -> (r: usize)
        ensures
            r == scalar_size_spec(*self),
    {
        match self {
            BaseType::BASE_TYPE_U_TYPE | BaseType::BASE_TYPE_BOOL | BaseType::BASE_TYPE_BYTE | BaseType::BASE_TYPE_U_BYTE => 1,
            BaseType::BASE_TYPE_SHORT | BaseType::BASE_TYPE_U_SHORT => 2,
            BaseType::BASE_TYPE_INT | BaseType::BASE_TYPE_U_INT | BaseType::BASE_TYPE_FLOAT => 4,
            BaseType::BASE_TYPE_LONG | BaseType::BASE_TYPE_U_LONG | BaseType::BASE_TYPE_DOUBLE => 8,
            _ => 0,
        }
    }
}

/// Name of a base type as written in schema JSON (e.g. `BASE_TYPE_INT`).
pub open spec fn base_type_name_spec(bt: BaseType) -> Seq<char> {
    match bt {
        BaseType::BASE_TYPE_NONE => "BASE_TYPE_NONE"@,
        BaseType::BASE_TYPE_U_TYPE => "BASE_TYPE_U_TYPE"@,
        BaseType::BASE_TYPE_BOOL => "BASE_TYPE_BOOL"@,
        BaseType::BASE_TYPE_BYTE => "BASE_TYPE_BYTE"@,
        BaseType::BASE_TYPE_U_BYTE => "BASE_TYPE_U_BYTE"@,
        BaseType::BASE_TYPE_SHORT => "BASE_TYPE_SHORT"@,
        BaseType::BASE_TYPE_U_SHORT => "BASE_TYPE_U_SHORT"@,
        BaseType::BASE_TYPE_INT => "BASE_TYPE_INT"@,
        BaseType::BASE_TYPE_U_INT => "BASE_TYPE_U_INT"@,
        BaseType::BASE_TYPE_LONG => "BASE_TYPE_LONG"@,
        BaseType::BASE_TYPE_U_LONG => "BASE_TYPE_U_LONG"@,
        BaseType::BASE_TYPE_FLOAT => "BASE_TYPE_FLOAT"@,
        BaseType::BASE_TYPE_DOUBLE => "BASE_TYPE_DOUBLE"@,
        BaseType::BASE_TYPE_STRING => "BASE_TYPE_STRING"@,
        BaseType::BASE_TYPE_VECTOR => "BASE_TYPE_VECTOR"@,
        BaseType::BASE_TYPE_TABLE => "BASE_TYPE_TABLE"@,
        BaseType::BASE_TYPE_STRUCT => "BASE_TYPE_STRUCT"@,
        BaseType::BASE_TYPE_UNION => "BASE_TYPE_UNION"@,
        BaseType::BASE_TYPE_ARRAY => "BASE_TYPE_ARRAY"@,
    }
}

/// Name of a base type as written in schema JSON (e.g. `BASE_TYPE_INT`).
pub fn base_type_name(bt: BaseType) -> (s: String)
    ensures
        s@ == base_type_name_spec(bt),
{
    match bt {
        BaseType::BASE_TYPE_NONE => string_of("BASE_TYPE_NONE"),
        BaseType::BASE_TYPE_U_TYPE => string_of("BASE_TYPE_U_TYPE"),
        BaseType::BASE_TYPE_BOOL => string_of("BASE_TYPE_BOOL"),
        BaseType::BASE_TYPE_BYTE => string_of("BASE_TYPE_BYTE"),
        BaseType::BASE_TYPE_U_BYTE => string_of("BASE_TYPE_U_BYTE"),
        BaseType::BASE_TYPE_SHORT => string_of("BASE_TYPE_SHORT"),
        BaseType::BASE_TYPE_U_SHORT => string_of("BASE_TYPE_U_SHORT"),
        BaseType::BASE_TYPE_INT => string_of("BASE_TYPE_INT"),
        BaseType::BASE_TYPE_U_INT => string_of("BASE_TYPE_U_INT"),
        BaseType::BASE_TYPE_LONG => string_of("BASE_TYPE_LONG"),
        BaseType::BASE_TYPE_U_LONG => string_of("BASE_TYPE_U_LONG"),
        BaseType::BASE_TYPE_FLOAT => string_of("BASE_TYPE_FLOAT"),
        BaseType::BASE_TYPE_DOUBLE => string_of("BASE_TYPE_DOUBLE"),
        BaseType::BASE_TYPE_STRING => string_of("BASE_TYPE_STRING"),
        BaseType::BASE_TYPE_VECTOR => string_of("BASE_TYPE_VECTOR"),
        BaseType::BASE_TYPE_TABLE => string_of("BASE_TYPE_TABLE"),
        BaseType::BASE_TYPE_STRUCT => string_of("BASE_TYPE_STRUCT"),
        BaseType::BASE_TYPE_UNION => string_of("BASE_TYPE_UNION"),
        BaseType::BASE_TYPE_ARRAY => string_of("BASE_TYPE_ARRAY"),
    }
}

/// Base type of an optional type (`NONE` when absent).
pub open spec fn bt_of(t: Option<FieldType>) -> BaseType {
    match t {
        Some(t) => match t.base_type {
            Some(b) => b,
            None => BaseType::BASE_TYPE_NONE,
        },
        None => BaseType::BASE_TYPE_NONE,
    }
}

/// Referenced object / enum index of an optional type (0 when absent).
pub open spec fn index_of(t: Option<FieldType>) -> nat {
    match t {
        Some(t) => match t.index {
            Some(i) => i as nat,
            None => 0,
        },
        None => 0,
    }
}

/// Vector element base type of an optional type (`UBYTE` when absent).
pub open spec fn element_of(t: Option<FieldType>) -> BaseType {
    match t {
        Some(t) => match t.element_type {
            Some(b) => b,
            None => BaseType::BASE_TYPE_U_BYTE,
        },
        None => BaseType::BASE_TYPE_U_BYTE,
    }
}

/// Base type of an optional type (`NONE` when absent).
pub fn base_type_of(t: &Option<FieldType>) -> (r: BaseType)
    ensures
        r == bt_of(*t),
{
    match t {
        Some(t) => match t.base_type {
            Some(b) => b,
            None => BaseType::BASE_TYPE_NONE,
        },
        None => BaseType::BASE_TYPE_NONE,
    }
}

/// Referenced object / enum index of an optional type (0 when absent).
pub fn type_index_of(t: &Option<FieldType>) -> (r: usize)
    ensures
        r == index_of(*t),
{
    match t {
        Some(t) => match t.index {
            Some(i) => i as usize,
            None => 0,
        },
        None => 0,
    }
}

/// Vector element base type of an optional type (`UBYTE` when absent).
pub fn element_type_of(t: &Option<FieldType>) -> (r: BaseType)
    ensures
        r == element_of(*t),
{
    match t {
        Some(t) => match t.element_type {
            Some(b) => b,
            None => BaseType::BASE_TYPE_U_BYTE,
        },
        None => BaseType::BASE_TYPE_U_BYTE,
    }
}

/// A name, or `?` when absent.
pub open spec fn name_or_q(n: Option<String>) -> Seq<char> {
    match n {
        Some(s) => s@,
        None => "?"@,
    }
}

/// A name, or `?` when absent.
pub fn name_or_question(n: &Option<String>) -> (s: String)
    ensures
        s@ == name_or_q(*n),
{
    match n {
        Some(s) => s.clone(),
        None => string_of("?"),
    }
}

/// Name of the schema's root table: the name of the object at
/// `root_table_index`, when that index is set and in range.
pub open spec fn root_name(s: Schema) -> Option<Seq<char>> {
    match s.root_table_index {
        Some(i) => if i < s.objects@.len() {
            match s.objects@[i as int].name {
                Some(n) => Some(n@),
                None => None,
            }
        } else {
            None
        },
        None => None,
    }
}

/// Name of the schema's root table, if it declares one.
pub fn extract_root_type_name(s: &Schema) -> (r: Option<String>)
    ensures
        match r {
            Some(n) => root_name(*s) == Some(n@),
            None => root_name(*s) is None,
        },
{
    match s.root_table_index {
        Some(i) => if i < s.objects.len() {
            match &s.objects[i].name {
                Some(n) => Some(n.clone()),
                None => None,
            }
        } else {
            None
        },
        None => None,
    }
}

/// Slot id of a field (0 when absent).
pub open spec fn field_id(f: Field) -> nat {
    match f.id {
        Some(i) => i as nat,
        None => 0,
    }
}

/// Struct byte offset of a field (0 when absent).
pub open spec fn field_offset(f: Field) -> nat {
    match f.offset {
        Some(o) => o as nat,
        None => 0,
    }
}

/// Byte size of an object (0 when absent).
pub open spec fn obj_byte_size(o: Object) -> nat {
    match o.byte_size {
        Some(b) => b as nat,
        None => 0,
    }
}

/// Minimum alignment of an object (1 when absent).
pub open spec fn obj_min_align(o: Object) -> nat {
    match o.min_align {
        Some(a) => a as nat,
        None => 1,
    }
}

/// Inline size and alignment of a field within table data.
pub open spec fn inline_layout(s: Schema, f: Field) -> (nat, nat) {
    match bt_of(f.type_) {
        BaseType::BASE_TYPE_BOOL | BaseType::BASE_TYPE_BYTE | BaseType::BASE_TYPE_U_BYTE | BaseType::BASE_TYPE_U_TYPE => (1, 1),
        BaseType::BASE_TYPE_SHORT | BaseType::BASE_TYPE_U_SHORT => (2, 2),
        BaseType::BASE_TYPE_INT | BaseType::BASE_TYPE_U_INT | BaseType::BASE_TYPE_FLOAT => (4, 4),
        BaseType::BASE_TYPE_LONG | BaseType::BASE_TYPE_U_LONG | BaseType::BASE_TYPE_DOUBLE => (8, 8),
        BaseType::BASE_TYPE_STRING | BaseType::BASE_TYPE_TABLE | BaseType::BASE_TYPE_VECTOR | BaseType::BASE_TYPE_UNION => (4, 4),
        BaseType::BASE_TYPE_STRUCT => {
            let idx = index_of(f.type_);
            if idx < s.objects@.len() {
                (obj_byte_size(s.objects@[idx as int]), obj_min_align(s.objects@[idx as int]))
            } else {
                (0, 1)
            }
        },
        _ => (0, 1),
    }
}

/// Inline size and alignment of a field within table data.
pub fn field_inline_size(s: &Schema, f: &Field) -> (r: (usize, usize))
    ensures
        r.0 == inline_layout(*s, *f).0,
        r.1 == inline_layout(*s, *f).1,
{
    match base_type_of(&f.type_) {
        BaseType::BASE_TYPE_BOOL | BaseType::BASE_TYPE_BYTE | BaseType::BASE_TYPE_U_BYTE | BaseType::BASE_TYPE_U_TYPE => (1, 1),
        BaseType::BASE_TYPE_SHORT | BaseType::BASE_TYPE_U_SHORT => (2, 2),
        BaseType::BASE_TYPE_INT | BaseType::BASE_TYPE_U_INT | BaseType::BASE_TYPE_FLOAT => (4, 4),
        BaseType::BASE_TYPE_LONG | BaseType::BASE_TYPE_U_LONG | BaseType::BASE_TYPE_DOUBLE => (8, 8),
        BaseType::BASE_TYPE_STRING | BaseType::BASE_TYPE_TABLE | BaseType::BASE_TYPE_VECTOR | BaseType::BASE_TYPE_UNION => (4, 4),
        BaseType::BASE_TYPE_STRUCT => {
            let idx = type_index_of(&f.type_);
            if idx < s.objects.len() {
                let o = &s.objects[idx];
                let size: usize = match o.byte_size {
                    Some(b) => b as usize,
                    None => 0,
                };
                let align: usize = match o.min_align {
                    Some(a) => a as usize,
                    None => 1,
                };
                (size, align)
            } else {
                (0, 1)
            }
        },
        _ => (0, 1),
    }
}

} // verus!

verus! {

/// Largest field id among the first `k` fields (0 when there are none).
pub open spec fn max_id(fields: Seq<Field>, k: nat) -> nat
    decreases k,
{
    if k == 0 || k > fields.len() {
        0
    } else {
        let m = max_id(fields, (k - 1) as nat);
        let i = field_id(fields[k - 1]);
        if i > m { i } else { m }
    }
}

/// Indices `j < k` of the fields whose id is `v`, in increasing order.
pub open spec fn with_id(fields: Seq<Field>, v: nat, k: nat) -> Seq<int>
    decreases k,
{
    if k == 0 || k > fields.len() {
        Seq::empty()
    } else if field_id(fields[k - 1]) == v {
        with_id(fields, v, (k - 1) as nat).push(k - 1)
    } else {
        with_id(fields, v, (k - 1) as nat)
    }
}

/// Indices of the fields whose id is below `v`, ordered by id and then by
/// position (a stable sort by id).
pub open spec fn order_below(fields: Seq<Field>, v: nat) -> Seq<int>
    decreases v,
{
    if v == 0 {
        Seq::empty()
    } else {
        order_below(fields, (v - 1) as nat) + with_id(fields, (v - 1) as nat, fields.len())
    }
}

/// All field indices ordered by id (stable).
pub open spec fn field_order(fields: Seq<Field>) -> Seq<int> {
    order_below(fields, max_id(fields, fields.len()) + 1)
}

/// Number of vtable entries: one more than the largest field id.
pub open spec fn entries_of(fields: Seq<Field>) -> nat {
    max_id(fields, fields.len()) + 1
}

/// Sum, over the first `k` fields listed in `order`, of each field's inline
/// size plus alignment: an upper bound on the data size of a table built
/// from them.
pub open spec fn layout_bound(s: Schema, fields: Seq<Field>, order: Seq<int>, k: nat) -> nat
    decreases k,
{
    if k == 0 || k > order.len() {
        0
    } else {
        let f = fields[order[k - 1]];
        layout_bound(s, fields, order, (k - 1) as nat) + inline_layout(s, f).0 + inline_layout(s, f).1
    }
}

/// An object whose layout the encoder can build: field ids are distinct,
/// struct field offsets lie within the struct, and its data fits in memory.
pub open spec fn object_wf(s: Schema, o: Object) -> bool {
    &&& forall|j: int, k: int| 0 <= j < k < o.fields@.len() ==> field_id(o.fields@[j]) != field_id(o.fields@[k])
    &&& forall|j: int| 0 <= j < o.fields@.len() ==> field_offset(#[trigger] o.fields@[j]) <= obj_byte_size(o)
    &&& obj_byte_size(o) <= isize::MAX
    &&& 8 + layout_bound(s, o.fields@, field_order(o.fields@), field_order(o.fields@).len()) <= isize::MAX
}

/// Every object of the schema is well formed.
pub open spec fn schema_wf(s: Schema) -> bool {
    forall|i: int| 0 <= i < s.objects@.len() ==> object_wf(s, #[trigger] s.objects@[i])
}

} // verus!

verus! {

/// Indices as integers.
pub open spec fn as_ints(v: Seq<usize>) -> Seq<int> {
    v.map_values(|x: usize| x as int)
}

pub proof fn lemma_with_id(fields: Seq<Field>, v: nat, k: nat)
    requires
        k <= fields.len(),
    ensures
        forall|q: int| 0 <= q < with_id(fields, v, k).len() ==> 0 <= #[trigger] with_id(fields, v, k)[q] < k
            && field_id(fields[with_id(fields, v, k)[q]]) == v,
        forall|q: int, r: int| 0 <= q < r < with_id(fields, v, k).len() ==> with_id(fields, v, k)[q] < with_id(fields, v, k)[r],
    decreases k,
{
    if k > 0 {
        lemma_with_id(fields, v, (k - 1) as nat);
        let w0 = with_id(fields, v, (k - 1) as nat);
        let w = with_id(fields, v, k);
        if field_id(fields[k - 1]) == v {
            assert(w == w0.push(k - 1));
            assert forall|q: int| 0 <= q < w.len() implies 0 <= #[trigger] w[q] < k && field_id(fields[w[q]]) == v by {
                if q < w0.len() {
                    assert(w[q] == w0[q]);
                }
            }
            assert forall|q: int, r: int| 0 <= q < r < w.len() implies w[q] < w[r] by {
                assert(w[q] == w0[q]);
                if r < w0.len() {
                    assert(w[r] == w0[r]);
                }
            }
        } else {
            assert(w == w0);
        }
    }
}

/// The id order lists each field index exactly once among those with id
/// below `v`: indices are in range, have an id below `v`, and are distinct.
pub proof fn lemma_order_below(fields: Seq<Field>, v: nat)
    ensures
        forall|q: int| 0 <= q < order_below(fields, v).len() ==> 0 <= #[trigger] order_below(fields, v)[q] < fields.len()
            && field_id(fields[order_below(fields, v)[q]]) < v,
        forall|q: int, r: int| 0 <= q < r < order_below(fields, v).len() ==> order_below(fields, v)[q] != order_below(fields, v)[r],
    decreases v,
{
    if v > 0 {
        let a = order_below(fields, (v - 1) as nat);
        let b = with_id(fields, (v - 1) as nat, fields.len());
        lemma_order_below(fields, (v - 1) as nat);
        lemma_with_id(fields, (v - 1) as nat, fields.len());
        let o = order_below(fields, v);
        assert(o == a + b);
        assert forall|q: int| 0 <= q < o.len() implies 0 <= #[trigger] o[q] < fields.len() && field_id(fields[o[q]]) < v by {
            if q < a.len() {
                assert(o[q] == a[q]);
            } else {
                assert(o[q] == b[q - a.len()]);
            }
        }
        assert forall|q: int, r: int| 0 <= q < r < o.len() implies o[q] != o[r] by {
            if r < a.len() {
                assert(o[q] == a[q] && o[r] == a[r]);
            } else if q >= a.len() {
                assert(o[q] == b[q - a.len()] && o[r] == b[r - a.len()]);
            } else {
                assert(o[q] == a[q]);
                assert(o[r] == b[r - a.len()]);
                assert(field_id(fields[o[r]]) == v - 1);
            }
        }
    }
}

proof fn lemma_max_id(fields: Seq<Field>, k: nat)
    requires
        k <= fields.len(),
    ensures
        forall|j: int| 0 <= j < k ==> field_id(#[trigger] fields[j]) <= max_id(fields, k),
        max_id(fields, k) <= 0xffff,
    decreases k,
{
    if k > 0 {
        lemma_max_id(fields, (k - 1) as nat);
    }
}

/// Every field index appears in the id order.
pub proof fn lemma_order_complete(fields: Seq<Field>, j: int)
    requires
        0 <= j < fields.len(),
    ensures
        field_order(fields).contains(j),
{
    lemma_max_id(fields, fields.len());
    lemma_order_below_contains(fields, max_id(fields, fields.len()) + 1, j);
}

proof fn lemma_with_id_contains(fields: Seq<Field>, v: nat, k: nat, j: int)
    requires
        0 <= j < k <= fields.len(),
        field_id(fields[j]) == v,
    ensures
        with_id(fields, v, k).contains(j),
    decreases k,
{
    if j < k - 1 {
        lemma_with_id_contains(fields, v, (k - 1) as nat, j);
        let w = with_id(fields, v, (k - 1) as nat);
        let i = choose|i: int| 0 <= i < w.len() && w[i] == j;
        if field_id(fields[k - 1]) == v {
            assert(with_id(fields, v, k)[i] == j);
        }
    } else {
        let w = with_id(fields, v, k);
        assert(w[w.len() - 1] == j);
    }
}

proof fn lemma_order_below_contains(fields: Seq<Field>, v: nat, j: int)
    requires
        0 <= j < fields.len(),
        field_id(fields[j]) < v,
    ensures
        order_below(fields, v).contains(j),
    decreases v,
{
    let a = order_below(fields, (v - 1) as nat);
    let b = with_id(fields, (v - 1) as nat, fields.len());
    assert(order_below(fields, v) == a + b);
    if field_id(fields[j]) < v - 1 {
        lemma_order_below_contains(fields, (v - 1) as nat, j);
        let i = choose|i: int| 0 <= i < a.len() && a[i] == j;
        assert((a + b)[i] == j);
    } else {
        lemma_with_id_contains(fields, (v - 1) as nat, fields.len(), j);
        let i = choose|i: int| 0 <= i < b.len() && b[i] == j;
        assert((a + b)[a.len() + i] == j);
    }
}

/// Field indices ordered by id (stable), and the largest id.
pub fn compute_field_order(fields: &Vec<Field>) -> (r: (Vec<usize>, usize))
    ensures
        as_ints(r.0@) == field_order(fields@),
        r.1 as nat == max_id(fields@, fields@.len()),
        r.1 <= 0xffff,
{
    let n = fields.len();
    let mut m: usize = 0;
    let mut k: usize = 0;
    while k < n
        invariant
            n == fields@.len(),
            k <= n,
            m as nat == max_id(fields@, k as nat),
            m <= 0xffff,
        decreases n - k,
    {
        let i: usize = match fields[k].id {
            Some(x) => x as usize,
            None => 0,
        };
        if i > m {
            m = i;
        }
        k = k + 1;
    }
    let mut order: Vec<usize> = Vec::new();
    let mut v: usize = 0;
    while v <= m
        invariant
            n == fields@.len(),
            m <= 0xffff,
            v <= m + 1,
            as_ints(order@) == order_below(fields@, v as nat),
        decreases m + 1 - v,
    {
        let mut i: usize = 0;
        while i < n
            invariant
                n == fields@.len(),
                m <= 0xffff,
                v <= m,
                i <= n,
                as_ints(order@) == order_below(fields@, v as nat) + with_id(fields@, v as nat, i as nat),
            decreases n - i,
        {
            let id: usize = match fields[i].id {
                Some(x) => x as usize,
                None => 0,
            };
            let ghost before = as_ints(order@);
            if id == v {
                order.push(i);
                assert(as_ints(order@) =~= before.push(i as int));
            }
            i = i + 1;
        }
        assert(as_ints(order@) =~= order_below(fields@, (v + 1) as nat));
        v = v + 1;
    }
    (order, m)
}

} // verus!

verus! {

/// Slot id of a field (0 when absent).
fn id_of(f: &Field) -> (r: u16)
    ensures
        r as nat == field_id(*f),
{
    match f.id {
        Some(i) => i,
        None => 0,
    }
}

/// Whether the encoder can build an object's layout (`object_wf`): its
/// field ids are distinct, struct field offsets lie within the struct, and
/// its data fits in memory.
pub fn object_is_wf(s: &Schema, o: &Object) -> (r: bool)
    ensures
        r == object_wf(*s, *o),
{
    let fields = &o.fields;
    let n = fields.len();
    let mut j: usize = 0;
    while j < n
        invariant
            n == fields@.len(),
            fields@ == o.fields@,
            j <= n,
            forall|a: int, b: int| 0 <= a < b < n && a < j ==> field_id(fields@[a]) != field_id(fields@[b]),
        decreases n - j,
    {
        let mut k: usize = j + 1;
        let idj = id_of(&fields[j]);
        while k < n
            invariant
                n == fields@.len(),
            fields@ == o.fields@,
                j < n,
                j + 1 <= k <= n,
                idj as nat == field_id(fields@[j as int]),
                forall|b: int| j < b < k ==> field_id(fields@[j as int]) != field_id(fields@[b]),
            decreases n - k,
        {
            if id_of(&fields[k]) == idj {
                assert(field_id(o.fields@[j as int]) == field_id(o.fields@[k as int]));
                return false;
            }
            k = k + 1;
        }
        j = j + 1;
    }
    let size: u64 = match o.byte_size {
        Some(b) => b as u64,
        None => 0,
    };
    let mut j: usize = 0;
    while j < n
        invariant
            n == fields@.len(),
            fields@ == o.fields@,
            j <= n,
            size as nat == obj_byte_size(*o),
            forall|a: int| 0 <= a < j ==> field_offset(#[trigger] fields@[a]) <= obj_byte_size(*o),
        decreases n - j,
    {
        let off: u64 = match fields[j].offset {
            Some(x) => x as u64,
            None => 0,
        };
        if off > size {
            assert(field_offset(o.fields@[j as int]) > obj_byte_size(*o));
            return false;
        }
        j = j + 1;
    }
    if size > isize::MAX as u64 {
        return false;
    }
    let (order, _) = compute_field_order(fields);
    proof {
        lemma_order_below(fields@, max_id(fields@, fields@.len()) + 1);
    }
    let ghost ord = field_order(fields@);
    let mut total: u128 = 0;
    let mut k: usize = 0;
    while k < order.len()
        invariant
            as_ints(order@) == ord,
            fields@ == o.fields@,
            ord == field_order(fields@),
            forall|q: int| 0 <= q < ord.len() ==> 0 <= #[trigger] ord[q] < fields@.len(),
            k <= order@.len(),
            total as nat == layout_bound(*s, fields@, ord, k as nat),
            total <= k * 0x2_0000_0000,
        decreases order@.len() - k,
    {
        assert(ord[k as int] == order@[k as int] as int);
        let (sz, al) = field_inline_size(s, &fields[order[k]]);
        total = total + sz as u128 + al as u128;
        k = k + 1;
    }
    8 + total <= isize::MAX as u128
}

/// Whether every object of the schema is well formed (`schema_wf`).
pub fn schema_is_wf(s: &Schema) -> (r: bool)
    ensures
        r == schema_wf(*s),
{
    let mut i: usize = 0;
    while i < s.objects.len()
        invariant
            i <= s.objects@.len(),
            forall|j: int| 0 <= j < i ==> object_wf(*s, #[trigger] s.objects@[j]),
        decreases s.objects@.len() - i,
    {
        if !object_is_wf(s, &s.objects[i]) {
            return false;
        }
        i = i + 1;
    }
    true
}

} // verus!
