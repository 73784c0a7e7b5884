//! Annotated byte regions of a binary: what each byte range of a FlatBuffers
//! or Protocol Buffers binary holds.

use vstd::prelude::*;
use crate::schema::BaseType;

verus! {

/// What a byte region holds.
#[derive(Debug, Clone, PartialEq)]
pub enum RegionType {
    RootOffset,
    FileIdentifier,
    VTable { object_name: String },
    VTableSize,
    VTableTableSize,
    VTableEntry { field_name: String, field_id: u16 },
    TableSOffset { object_name: String },
    ScalarField { field_name: String, base_type: BaseType },
    StringOffset { field_name: String },
    StringLength,
    StringData { field_name: String },
    StringTerminator,
    VectorOffset { field_name: String },
    VectorLength,
    VectorElement { index: usize },
    StructInline { object_name: String },
    StructField { field_name: String, base_type: BaseType },
    UnionTypeField { field_name: String },
    UnionDataOffset { field_name: String },
    Padding,
    Unknown,
    ProtoMessage { message_name: String },
    ProtoTag { field_number: u32, wire_type: u8 },
    ProtoLength,
    ProtoVarint { field_name: String },
    ProtoFixed32 { field_name: String },
    ProtoFixed64 { field_name: String },
    ProtoString { field_name: String },
    ProtoBytes { field_name: String },
    ProtoLengthDelimited { field_name: String },
}

/// One annotated byte range. `children` and `related_regions` are indices
/// into the list of regions the region belongs to.
#[derive(Debug, PartialEq)]
pub struct Region {
    /// The bytes the region covers.
    pub byte_range: std::ops::Range<usize>,
    pub region_type: RegionType,
    pub label: String,
    /// Field path from the root, e.g. `["Monster", "pos", "x"]`.
    pub field_path: Vec<String>,
    pub value_display: String,
    pub children: Vec<usize>,
    pub related_regions: Vec<usize>,
    pub depth: usize,
}

} // verus!
