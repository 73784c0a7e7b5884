//! Protocol Buffers side: the annotator's region kinds mapped onto the shared
//! region types, and the fully qualified names of a schema's messages.

use vstd::prelude::*;
use crate::region::{Region, RegionType};
use crate::text::{push_char, push_str};

verus! {

/// Why a protobuf binary could not be walked.
#[derive(Debug, Clone, PartialEq)]
pub enum ProtoWalkError {
    WalkFailed(String),
}

/// What a byte region of a protobuf binary holds, as the protobuf annotator
/// reports it.
#[derive(Debug, Clone, PartialEq)]
pub enum ProtoRegionKind {
    Message { message_name: String },
    Tag { field_number: u32, wire_type: u8 },
    LengthPrefix,
    Varint { field_name: String },
    Fixed32 { field_name: String },
    Fixed64 { field_name: String },
    StringData { field_name: String },
    BytesData { field_name: String },
    PackedRepeated { field_name: String, element_type: String },
    EnumValue { field_name: String, enum_name: String, value_name: String },
    UnknownField { field_number: u32, wire_type: u8 },
}

/// A byte region of a protobuf binary, as the protobuf annotator reports it.
#[derive(Debug, PartialEq)]
pub struct ProtoRegion {
    pub byte_range: std::ops::Range<usize>,
    pub kind: ProtoRegionKind,
    pub label: String,
    pub field_path: Vec<String>,
    pub value_display: String,
    pub children: Vec<usize>,
    pub depth: usize,
}

/// The shared region type for a protobuf region kind.
pub open spec fn shared_kind(k: ProtoRegionKind) -> RegionType {
    match k {
        ProtoRegionKind::Message { message_name } => RegionType::ProtoMessage { message_name },
        ProtoRegionKind::Tag { field_number, wire_type } => RegionType::ProtoTag { field_number, wire_type },
        ProtoRegionKind::LengthPrefix => RegionType::ProtoLength,
        ProtoRegionKind::Varint { field_name } => RegionType::ProtoVarint { field_name },
        ProtoRegionKind::Fixed32 { field_name } => RegionType::ProtoFixed32 { field_name },
        ProtoRegionKind::Fixed64 { field_name } => RegionType::ProtoFixed64 { field_name },
        ProtoRegionKind::StringData { field_name } => RegionType::ProtoString { field_name },
        ProtoRegionKind::BytesData { field_name } => RegionType::ProtoBytes { field_name },
        ProtoRegionKind::PackedRepeated { field_name, .. } => RegionType::ProtoLengthDelimited { field_name },
        ProtoRegionKind::EnumValue { field_name, .. } => RegionType::ProtoVarint { field_name },
        ProtoRegionKind::UnknownField { field_number, wire_type } => RegionType::ProtoTag { field_number, wire_type },
    }
}

/// Maps a protobuf region kind to the shared region type.
pub fn convert_region_kind(kind: &ProtoRegionKind) -> (r: RegionType)
    ensures
        r == shared_kind(*kind),
{
    match kind {
        ProtoRegionKind::Message { message_name } => RegionType::ProtoMessage { message_name: message_name.clone() },
        ProtoRegionKind::Tag { field_number, wire_type } => RegionType::ProtoTag { field_number: *field_number, wire_type: *wire_type },
        ProtoRegionKind::LengthPrefix => RegionType::ProtoLength,
        ProtoRegionKind::Varint { field_name } => RegionType::ProtoVarint { field_name: field_name.clone() },
        ProtoRegionKind::Fixed32 { field_name } => RegionType::ProtoFixed32 { field_name: field_name.clone() },
        ProtoRegionKind::Fixed64 { field_name } => RegionType::ProtoFixed64 { field_name: field_name.clone() },
        ProtoRegionKind::StringData { field_name } => RegionType::ProtoString { field_name: field_name.clone() },
        ProtoRegionKind::BytesData { field_name } => RegionType::ProtoBytes { field_name: field_name.clone() },
        ProtoRegionKind::PackedRepeated { field_name, .. } => RegionType::ProtoLengthDelimited { field_name: field_name.clone() },
        ProtoRegionKind::EnumValue { field_name, .. } => RegionType::ProtoVarint { field_name: field_name.clone() },
        ProtoRegionKind::UnknownField { field_number, wire_type } => RegionType::ProtoTag { field_number: *field_number, wire_type: *wire_type },
    }
}

/// `r` is the shared form of protobuf region `p`: the same range, texts,
/// children and depth, the mapped region type, and no related regions.
pub open spec fn converted(p: ProtoRegion, r: Region) -> bool {
    &&& r.byte_range == p.byte_range
    &&& r.region_type == shared_kind(p.kind)
    &&& r.label@ == p.label@
    &&& r.field_path@.len() == p.field_path@.len()
    &&& forall|i: int| 0 <= i < r.field_path@.len() ==> r.field_path@[i]@ == #[trigger] p.field_path@[i]@
    &&& r.value_display@ == p.value_display@
    &&& r.children@ == p.children@
    &&& r.related_regions@.len() == 0
    &&& r.depth == p.depth
}

/// Clones a list of strings.
pub fn clone_strings(v: &Vec<String>) -> (r: Vec<String>)
    ensures
        r@.len() == v@.len(),
        forall|i: int| 0 <= i < r@.len() ==> r@[i]@ == #[trigger] v@[i]@,
{
    let mut r: Vec<String> = Vec::new();
    let mut i: usize = 0;
    while i < v.len()
        invariant
            i <= v@.len(),
            r@.len() == i,
            forall|j: int| 0 <= j < i ==> r@[j]@ == #[trigger] v@[j]@,
        decreases v@.len() - i,
    {
        r.push(v[i].clone());
        i = i + 1;
    }
    r
}

/// Clones a list of indices.
pub fn clone_indices(v: &Vec<usize>) -> (r: Vec<usize>)
    ensures
        r@ == v@,
{
    let mut r: Vec<usize> = Vec::new();
    let mut i: usize = 0;
    while i < v.len()
        invariant
            i <= v@.len(),
            r@ == v@.take(i as int),
        decreases v@.len() - i,
    {
        r.push(v[i]);
        i = i + 1;
        assert(r@ =~= v@.take(i as int));
    }
    assert(v@.take(v@.len() as int) =~= v@);
    r
}

/// Converts protobuf regions to the shared region type, one for one.
pub fn convert_regions(proto_regions: &[ProtoRegion]) -> (r: Vec<Region>)
    ensures
        r@.len() == proto_regions@.len(),
        forall|i: int| 0 <= i < r@.len() ==> converted(#[trigger] proto_regions@[i], r@[i]),
{
    let mut out: Vec<Region> = Vec::new();
    let mut i: usize = 0;
    while i < proto_regions.len()
        invariant
            i <= proto_regions@.len(),
            out@.len() == i,
            forall|j: int| 0 <= j < i ==> converted(#[trigger] proto_regions@[j], out@[j]),
        decreases proto_regions@.len() - i,
    {
        let p = &proto_regions[i];
        let region = Region {
            byte_range: p.byte_range.start..p.byte_range.end,
            region_type: convert_region_kind(&p.kind),
            label: p.label.clone(),
            field_path: clone_strings(&p.field_path),
            value_display: p.value_display.clone(),
            children: clone_indices(&p.children),
            related_regions: Vec::new(),
            depth: p.depth,
        };
        out.push(region);
        i = i + 1;
    }
    out
}

/// A `.proto` file of a schema: its package and the names of its top-level messages.
#[derive(Debug, Clone, PartialEq)]
pub struct ProtoFile {
    pub package: Option<String>,
    pub message_names: Vec<Option<String>>,
}

/// A compiled protobuf schema: its `.proto` files.
#[derive(Debug, Clone, PartialEq)]
pub struct ProtoSchema {
    pub file: Vec<ProtoFile>,
}

/// Fully qualified name of message `name` in package `pkg`: `.pkg.name`, or
/// `.name` when the package is empty.
pub open spec fn qualified(pkg: Seq<char>, name: Seq<char>) -> Seq<char> {
    if pkg.len() == 0 {
        seq!['.'] + name
    } else {
        seq!['.'] + pkg + seq!['.'] + name
    }
}

/// Qualified names of the first `k` named messages of one file.
pub open spec fn file_names(pkg: Seq<char>, msgs: Seq<Option<String>>, k: nat) -> Seq<Seq<char>>
    decreases k,
{
    if k == 0 || k > msgs.len() {
        Seq::empty()
    } else {
        let prev = file_names(pkg, msgs, (k - 1) as nat);
        match msgs[k - 1] {
            Some(n) => prev.push(qualified(pkg, n@)),
            None => prev,
        }
    }
}

/// Package of a file (`""` when absent).
pub open spec fn package_of(f: ProtoFile) -> Seq<char> {
    match f.package {
        Some(p) => p@,
        None => Seq::empty(),
    }
}

/// Qualified names of the top-level messages of the first `k` files, in order.
pub open spec fn schema_names(files: Seq<ProtoFile>, k: nat) -> Seq<Seq<char>>
    decreases k,
{
    if k == 0 || k > files.len() {
        Seq::empty()
    } else {
        let f = files[k - 1];
        schema_names(files, (k - 1) as nat) + file_names(package_of(f), f.message_names@, f.message_names@.len())
    }
}

/// Collects fully qualified names (`.package.Message`) of every top-level
/// message of every file.
pub fn collect_proto_message_names(fds: &ProtoSchema) -> (r: Vec<String>)
    ensures
        r@.len() == schema_names(fds.file@, fds.file@.len()).len(),
        forall|i: int| 0 <= i < r@.len() ==> #[trigger] r@[i]@ == schema_names(fds.file@, fds.file@.len())[i],
{
    let files = &fds.file;
    let mut names: Vec<String> = Vec::new();
    let mut fi: usize = 0;
    while fi < files.len()
        invariant
            fi <= files@.len(),
            names@.len() == schema_names(files@, fi as nat).len(),
            forall|i: int| 0 <= i < names@.len() ==> #[trigger] names@[i]@ == schema_names(files@, fi as nat)[i],
        decreases files@.len() - fi,
    {
        let f = &files[fi];
        let ghost pkg = package_of(*f);
        let ghost before = schema_names(files@, fi as nat);
        let pkg_empty = match &f.package {
            Some(p) => p.as_str().is_empty(),
            None => true,
        };
        let mut k: usize = 0;
        while k < f.message_names.len()
            invariant
                fi < files@.len(),
                *f == files@[fi as int],
                pkg == package_of(*f),
                pkg_empty == (pkg.len() == 0),
                k <= f.message_names@.len(),
                names@.len() == before.len() + file_names(pkg, f.message_names@, k as nat).len(),
                forall|i: int| 0 <= i < names@.len() ==> #[trigger] names@[i]@ == (before + file_names(pkg, f.message_names@, k as nat))[i],
            decreases f.message_names@.len() - k,
        {
            if let Some(n) = &f.message_names[k] {
                let mut q = String::new();
                push_char(&mut q, '.');
                if !pkg_empty {
                    match &f.package {
                        Some(p) => {
                            push_str(&mut q, p.as_str());
                        },
                        None => {},
                    }
                    push_char(&mut q, '.');
                }
                push_str(&mut q, n.as_str());
                assert(q@ =~= qualified(pkg, n@));
                names.push(q);
            }
            k = k + 1;
        }
        fi = fi + 1;
    }
    names
}

} // verus!

verus! {

/// Message of a protobuf walk error.
pub open spec fn proto_walk_error_text(e: ProtoWalkError) -> Seq<char> {
    match e {
        ProtoWalkError::WalkFailed(m) => "protobuf walk failed: "@ + m@,
    }
}

impl ProtoWalkError {
    /// The error's message.
    pub fn describe(&self) -> (s: String)
        ensures
            s@ == proto_walk_error_text(*self),
    {
        match self {
            ProtoWalkError::WalkFailed(m) => {
                let mut s = crate::text::string_of("protobuf walk failed: ");
                push_str(&mut s, m.as_str());
                s
            },
        }
    }
}

} // verus!

verus! {

/// Whether a protobuf region kind keeps everything it carries when mapped
/// to the shared types: all kinds but packed repeated fields (whose element
/// type is dropped), enum values (shown as varints) and unknown fields
/// (shown as tags).
pub open spec fn kept_whole(k: ProtoRegionKind) -> bool {
    !(k is PackedRepeated || k is EnumValue || k is UnknownField)
}

/// The field name a protobuf region kind carries, if any.
pub open spec fn kind_field_name(k: ProtoRegionKind) -> Option<String> {
    match k {
        ProtoRegionKind::Varint { field_name } | ProtoRegionKind::Fixed32 { field_name } | ProtoRegionKind::Fixed64 { field_name }
        | ProtoRegionKind::StringData { field_name } | ProtoRegionKind::BytesData { field_name }
        | ProtoRegionKind::PackedRepeated { field_name, .. } | ProtoRegionKind::EnumValue { field_name, .. } => Some(field_name),
        _ => None,
    }
}

/// The field name a shared protobuf region type carries, if any.
pub open spec fn type_field_name(t: RegionType) -> Option<String> {
    match t {
        RegionType::ProtoVarint { field_name } | RegionType::ProtoFixed32 { field_name } | RegionType::ProtoFixed64 { field_name }
        | RegionType::ProtoString { field_name } | RegionType::ProtoBytes { field_name }
        | RegionType::ProtoLengthDelimited { field_name } => Some(field_name),
        _ => None,
    }
}

/// The mapping to shared region types tells kinds apart: two kinds that keep
/// everything they carry map to the same type only when they are the same
/// kind with the same contents (so a 32-bit fixed field never shows as a
/// 64-bit one, nor a string as bytes).
pub proof fn lemma_kinds_stay_distinct(k1: ProtoRegionKind, k2: ProtoRegionKind)
    requires
        kept_whole(k1),
        kept_whole(k2),
        shared_kind(k1) == shared_kind(k2),
    ensures
        k1 == k2,
{
}

/// Every region kind's field name is carried over to its shared type.
pub proof fn lemma_field_name_kept(k: ProtoRegionKind)
    ensures
        kind_field_name(k) == type_field_name(shared_kind(k)),
{
}

/// A region keeps its wire kind: varints (and enum values) stay varints,
/// 32-bit and 64-bit fixed fields stay 32-bit and 64-bit, string data stays
/// string data and bytes stay bytes.
pub proof fn lemma_wire_kind_kept(k: ProtoRegionKind)
    ensures
        k is Fixed32 <==> shared_kind(k) is ProtoFixed32,
        k is Fixed64 <==> shared_kind(k) is ProtoFixed64,
        (k is Varint || k is EnumValue) <==> shared_kind(k) is ProtoVarint,
        k is StringData <==> shared_kind(k) is ProtoString,
        k is BytesData <==> shared_kind(k) is ProtoBytes,
        k is Message <==> shared_kind(k) is ProtoMessage,
        k is LengthPrefix <==> shared_kind(k) is ProtoLength,
{
}

} // verus!
