//! Application state of the visualizer as a state machine. Every user action
//! and every result of outside work is a [`Command`]; [`AppState::dispatch`]
//! moves the state and answers with the [`Effect`]s the runtime must perform,
//! whose results come back as further commands.

use vstd::prelude::*;
use std::collections::VecDeque;
use std::sync::Arc;
use crate::filter::{join_dotted, join_path};
use crate::hex::{bytes_to_hex, hex_text};
use crate::permalink::{base64_url, decode, encode, fits, parse_payload, payload, permalink_error_text, PermalinkData, PermalinkError};
use crate::proto::ProtoSchema;
use crate::region::Region;
use crate::schema::{root_name, Schema};
use crate::templates::{all, template_at, TEMPLATE_COUNT};
use crate::text::{chars_of, contains_chars, contains_seq, decimal, hex4, push_decimal, push_hex4, push_str, starts_with_chars, starts_with_seq, string_of, trim_chars, trim_seq};

verus! {

/// How the data text is written.
#[derive(Debug, Clone, Copy, PartialEq, Eq, Structural)]
pub enum DataFormat {
    Json,
    Binary,
}

/// Schema language in use, detected from the schema text.
#[derive(Debug, Clone, Copy, PartialEq, Eq, Structural)]
pub enum SchemaFormat {
    FlatBuffers,
    Protobuf,
}

/// Most event log entries kept; older ones are dropped first.
pub const MAX_EVENT_LOG_ENTRIES: usize = 200;

/// Frames a toast stays on screen (about two seconds at 60 frames a second).
pub const TOAST_FRAMES: u32 = 120;

/// Every user action or outside result that can change the state.
#[derive(Debug)]
pub enum Command {
    SelectTemplate(usize),
    CompileAndEncode,
    SwitchDataFormat(DataFormat),
    ToggleSchemaJson,
    ToggleDecodedJson,
    HoverRegion(Option<usize>),
    ClickRegion(usize),
    UnlockRegion,
    LoadSchemaText(String),
    SetBinaryData(Vec<u8>),
    CopyShareLink,
    LoadFromPermalink(String),
    GenerateRandom { seed: u64 },
    SchemaCompiled { schema: Box<Schema>, schema_json: String, root_type_name: Option<String> },
    ProtoSchemaCompiled { schema: Box<ProtoSchema>, schema_json: String, root_message_names: Vec<String> },
    SchemaCompileError(String),
    JsonEncoded(Vec<u8>),
    EncodeError(String),
    /// `region_type_names[i]` is the short type name of `annotations[i]`.
    BinaryWalked { annotations: Vec<Region>, region_type_names: Vec<String>, decoded_json: String },
    WalkError(String),
    RandomGenerated { schema_text: String, data_text: String },
    RandomGenerateError(String),
}

/// Outside work that `dispatch` asks the runtime for.
#[derive(Debug)]
pub enum Effect {
    /// Compile FlatBuffers schema text; answered by `SchemaCompiled` or `SchemaCompileError`.
    CompileSchema { source: String },
    /// Compile protobuf schema text; answered by `ProtoSchemaCompiled` or `SchemaCompileError`.
    CompileProtoSchema { source: String },
    /// Encode JSON data; answered by `JsonEncoded` or `EncodeError`.
    EncodeJson { json_text: String, schema: Arc<Schema>, root_type_name: String },
    /// Parse hex text; answered by `SetBinaryData` or `EncodeError`.
    ParseHexData { hex_text: String },
    /// Walk a FlatBuffers binary; answered by `BinaryWalked` or `WalkError`.
    WalkBinary { binary: Vec<u8>, schema: Arc<Schema>, root_type_name: String },
    /// Walk a protobuf binary; answered by `BinaryWalked` or `WalkError`.
    WalkProtobuf { binary: Vec<u8>, schema: Arc<ProtoSchema>, root_message: String },
    /// Generate a random schema and data; answered by `RandomGenerated` or `RandomGenerateError`.
    GenerateRandomSchemaAndData { seed: u64 },
    /// Put text on the clipboard.
    CopyToClipboard { text: String },
    /// Set a query parameter of the page URL.
    SetUrlQueryParam { key: String, value: String },
}

/// An effect with its texts and bytes as sequences.
pub enum EffectView {
    CompileSchema { source: Seq<char> },
    CompileProtoSchema { source: Seq<char> },
    EncodeJson { json_text: Seq<char>, schema: Arc<Schema>, root_type_name: Seq<char> },
    ParseHexData { hex_text: Seq<char> },
    WalkBinary { binary: Seq<u8>, schema: Arc<Schema>, root_type_name: Seq<char> },
    WalkProtobuf { binary: Seq<u8>, schema: Arc<ProtoSchema>, root_message: Seq<char> },
    GenerateRandomSchemaAndData { seed: u64 },
    CopyToClipboard { text: Seq<char> },
    SetUrlQueryParam { key: Seq<char>, value: Seq<char> },
}

impl View for Effect {
    type V = EffectView;

    open spec fn view(&self) -> EffectView {
        match self {
            Effect::CompileSchema { source } => EffectView::CompileSchema { source: source@ },
            Effect::CompileProtoSchema { source } => EffectView::CompileProtoSchema { source: source@ },
            Effect::EncodeJson { json_text, schema, root_type_name } => EffectView::EncodeJson { json_text: json_text@, schema: *schema, root_type_name: root_type_name@ },
            Effect::ParseHexData { hex_text } => EffectView::ParseHexData { hex_text: hex_text@ },
            Effect::WalkBinary { binary, schema, root_type_name } => EffectView::WalkBinary { binary: binary@, schema: *schema, root_type_name: root_type_name@ },
            Effect::WalkProtobuf { binary, schema, root_message } => EffectView::WalkProtobuf { binary: binary@, schema: *schema, root_message: root_message@ },
            Effect::GenerateRandomSchemaAndData { seed } => EffectView::GenerateRandomSchemaAndData { seed: *seed },
            Effect::CopyToClipboard { text } => EffectView::CopyToClipboard { text: text@ },
            Effect::SetUrlQueryParam { key, value } => EffectView::SetUrlQueryParam { key: key@, value: value@ },
        }
    }
}

/// One dispatched command and the effects it produced, as text.
pub struct EventLogEntry {
    pub command: String,
    pub effects: Vec<String>,
}

impl View for EventLogEntry {
    type V = (Seq<char>, Seq<Seq<char>>);

    open spec fn view(&self) -> (Seq<char>, Seq<Seq<char>>) {
        (self.command@, self.effects@.map_values(|s: String| s@))
    }
}

/// The state of the application.
pub struct AppState {
    pub schema_text: String,
    pub data_text: String,
    pub data_format: DataFormat,
    pub root_type_name: String,
    pub schema_format: SchemaFormat,
    pub compiled_schema: Option<Arc<Schema>>,
    pub proto_schema: Option<Arc<ProtoSchema>>,
    pub compile_failure: Option<String>,
    pub binary_data: Option<Vec<u8>>,
    pub encode_error: Option<String>,
    pub annotations: Option<Vec<Region>>,
    /// Short type name of each region of `annotations`, in the same order.
    pub annotation_type_names: Vec<String>,
    pub hovered_region: Option<usize>,
    pub locked_region: Option<usize>,
    pub schema_json_output: String,
    pub show_schema_json: bool,
    pub decoded_json: String,
    pub show_decoded_json: bool,
    pub selected_template_idx: usize,
    pub status_message: String,
    /// Generation counter that resets the structure tree's open/closed state.
    pub structure_tree_gen: u64,
    /// `None`: default open state; `Some(true)`: all open; `Some(false)`: all closed.
    pub structure_all_open: Option<bool>,
    pub toast_message: Option<String>,
    pub toast_frames_remaining: u32,
    pub random_seed_counter: u64,
    pub event_log: VecDeque<EventLogEntry>,
}

/// The state with its texts, bytes and lists as sequences.
#[verifier::ext_equal]
pub struct AppView {
    pub schema_text: Seq<char>,
    pub data_text: Seq<char>,
    pub data_format: DataFormat,
    pub root_type_name: Seq<char>,
    pub schema_format: SchemaFormat,
    pub compiled_schema: Option<Arc<Schema>>,
    pub proto_schema: Option<Arc<ProtoSchema>>,
    pub compile_failure: Option<Seq<char>>,
    pub binary_data: Option<Seq<u8>>,
    pub encode_error: Option<Seq<char>>,
    pub annotations: Option<Seq<Region>>,
    pub annotation_type_names: Seq<Seq<char>>,
    pub hovered_region: Option<usize>,
    pub locked_region: Option<usize>,
    pub schema_json_output: Seq<char>,
    pub show_schema_json: bool,
    pub decoded_json: Seq<char>,
    pub show_decoded_json: bool,
    pub selected_template_idx: usize,
    pub status_message: Seq<char>,
    pub structure_tree_gen: u64,
    pub structure_all_open: Option<bool>,
    pub toast_message: Option<Seq<char>>,
    pub toast_frames_remaining: u32,
    pub random_seed_counter: u64,
    pub event_log: Seq<(Seq<char>, Seq<Seq<char>>)>,
}

/// Optional text as an optional sequence.
pub open spec fn opt_text(o: Option<String>) -> Option<Seq<char>> {
    match o {
        Some(s) => Some(s@),
        None => None,
    }
}

impl View for AppState {
    type V = AppView;

    open spec fn view(&self) -> AppView {
        AppView {
            schema_text: self.schema_text@,
            data_text: self.data_text@,
            data_format: self.data_format,
            root_type_name: self.root_type_name@,
            schema_format: self.schema_format,
            compiled_schema: self.compiled_schema,
            proto_schema: self.proto_schema,
            compile_failure: opt_text(self.compile_failure),
            binary_data: match self.binary_data {
                Some(b) => Some(b@),
                None => None,
            },
            encode_error: opt_text(self.encode_error),
            annotations: match self.annotations {
                Some(a) => Some(a@),
                None => None,
            },
            annotation_type_names: self.annotation_type_names@.map_values(|s: String| s@),
            hovered_region: self.hovered_region,
            locked_region: self.locked_region,
            schema_json_output: self.schema_json_output@,
            show_schema_json: self.show_schema_json,
            decoded_json: self.decoded_json@,
            show_decoded_json: self.show_decoded_json,
            selected_template_idx: self.selected_template_idx,
            status_message: self.status_message@,
            structure_tree_gen: self.structure_tree_gen,
            structure_all_open: self.structure_all_open,
            toast_message: opt_text(self.toast_message),
            toast_frames_remaining: self.toast_frames_remaining,
            random_seed_counter: self.random_seed_counter,
            event_log: self.event_log@.map_values(|e: EventLogEntry| e@),
        }
    }
}

// ---------------------------------------------------------------------------
// Texts of commands and effects
// ---------------------------------------------------------------------------

/// What `{:?}` writes for an optional string.
pub uninterp spec fn debug_option_text(o: Option<Seq<char>>) -> Seq<char>;

/// `format!("{:?}", o)`: std's `Debug` form of an optional string, named by
/// `debug_option_text`.
#[verifier::external_body]
fn debug_option_string(o: &Option<String>) -> (r: String)
    ensures
        r@ == debug_option_text(opt_text(*o)),
{
    format!("{:?}", o)
}

/// Name of a data format (its `Debug` form).
pub open spec fn format_name(f: DataFormat) -> Seq<char> {
    match f {
        DataFormat::Json => "Json"@,
        DataFormat::Binary => "Binary"@,
    }
}

/// `Debug` form of an optional index.
pub open spec fn opt_index_text(o: Option<usize>) -> Seq<char> {
    match o {
        Some(i) => "Some("@ + decimal(i as nat) + ")"@,
        None => "None"@,
    }
}

/// Log text of a command.
pub open spec fn command_text(c: Command) -> Seq<char> {
    match c {
        Command::SelectTemplate(i) => "SelectTemplate("@ + decimal(i as nat) + ")"@,
        Command::CompileAndEncode => "CompileAndEncode"@,
        Command::SwitchDataFormat(f) => "SwitchDataFormat("@ + format_name(f) + ")"@,
        Command::ToggleSchemaJson => "ToggleSchemaJson"@,
        Command::ToggleDecodedJson => "ToggleDecodedJson"@,
        Command::HoverRegion(r) => "HoverRegion("@ + opt_index_text(r) + ")"@,
        Command::ClickRegion(i) => "ClickRegion("@ + decimal(i as nat) + ")"@,
        Command::UnlockRegion => "UnlockRegion"@,
        Command::LoadSchemaText(_) => "LoadSchemaText(...)"@,
        Command::SetBinaryData(d) => "SetBinaryData("@ + decimal(d@.len()) + " bytes)"@,
        Command::CopyShareLink => "CopyShareLink"@,
        Command::LoadFromPermalink(_) => "LoadFromPermalink(...)"@,
        Command::GenerateRandom { seed } => "GenerateRandom(seed="@ + decimal(seed as nat) + ")"@,
        Command::SchemaCompiled { root_type_name, .. } => "SchemaCompiled(root="@ + debug_option_text(opt_text(root_type_name)) + ")"@,
        Command::ProtoSchemaCompiled { root_message_names, .. } => "ProtoSchemaCompiled("@ + decimal(root_message_names@.len()) + " messages)"@,
        Command::SchemaCompileError(e) => "SchemaCompileError("@ + e@ + ")"@,
        Command::JsonEncoded(d) => "JsonEncoded("@ + decimal(d@.len()) + " bytes)"@,
        Command::EncodeError(e) => "EncodeError("@ + e@ + ")"@,
        Command::BinaryWalked { annotations, .. } => "BinaryWalked("@ + decimal(annotations@.len()) + " regions)"@,
        Command::WalkError(e) => "WalkError("@ + e@ + ")"@,
        Command::RandomGenerated { .. } => "RandomGenerated(...)"@,
        Command::RandomGenerateError(e) => "RandomGenerateError("@ + e@ + ")"@,
    }
}

/// Log text of an effect.
pub open spec fn effect_text(e: EffectView) -> Seq<char> {
    match e {
        EffectView::CompileSchema { .. } => "CompileSchema"@,
        EffectView::CompileProtoSchema { .. } => "CompileProtoSchema"@,
        EffectView::EncodeJson { .. } => "EncodeJson"@,
        EffectView::ParseHexData { .. } => "ParseHexData"@,
        EffectView::WalkBinary { .. } => "WalkBinary"@,
        EffectView::WalkProtobuf { .. } => "WalkProtobuf"@,
        EffectView::GenerateRandomSchemaAndData { seed } => "GenerateRandomSchemaAndData(seed="@ + decimal(seed as nat) + ")"@,
        EffectView::CopyToClipboard { .. } => "CopyToClipboard"@,
        EffectView::SetUrlQueryParam { .. } => "SetUrlQueryParam"@,
    }
}

impl Command {
    /// The command's log text.
    pub fn describe(&self) -> (s: String)
        ensures
            s@ == command_text(*self),
    {
        let mut s = String::new();
        match self {
            Command::SelectTemplate(i) => {
                push_str(&mut s, "SelectTemplate(");
                push_decimal(&mut s, *i as u64);
                push_str(&mut s, ")");
            },
            Command::CompileAndEncode => push_str(&mut s, "CompileAndEncode"),
            Command::SwitchDataFormat(f) => {
                push_str(&mut s, "SwitchDataFormat(");
                match f {
                    DataFormat::Json => push_str(&mut s, "Json"),
                    DataFormat::Binary => push_str(&mut s, "Binary"),
                }
                push_str(&mut s, ")");
            },
            Command::ToggleSchemaJson => push_str(&mut s, "ToggleSchemaJson"),
            Command::ToggleDecodedJson => push_str(&mut s, "ToggleDecodedJson"),
            Command::HoverRegion(r) => {
                push_str(&mut s, "HoverRegion(");
                match r {
                    Some(i) => {
                        push_str(&mut s, "Some(");
                        push_decimal(&mut s, *i as u64);
                        push_str(&mut s, ")");
                    },
                    None => push_str(&mut s, "None"),
                }
                push_str(&mut s, ")");
            },
            Command::ClickRegion(i) => {
                push_str(&mut s, "ClickRegion(");
                push_decimal(&mut s, *i as u64);
                push_str(&mut s, ")");
            },
            Command::UnlockRegion => push_str(&mut s, "UnlockRegion"),
            Command::LoadSchemaText(_) => push_str(&mut s, "LoadSchemaText(...)"),
            Command::SetBinaryData(d) => {
                push_str(&mut s, "SetBinaryData(");
                push_decimal(&mut s, d.len() as u64);
                push_str(&mut s, " bytes)");
            },
            Command::CopyShareLink => push_str(&mut s, "CopyShareLink"),
            Command::LoadFromPermalink(_) => push_str(&mut s, "LoadFromPermalink(...)"),
            Command::GenerateRandom { seed } => {
                push_str(&mut s, "GenerateRandom(seed=");
                push_decimal(&mut s, *seed);
                push_str(&mut s, ")");
            },
            Command::SchemaCompiled { root_type_name, .. } => {
                push_str(&mut s, "SchemaCompiled(root=");
                let d = debug_option_string(root_type_name);
                push_str(&mut s, d.as_str());
                push_str(&mut s, ")");
            },
            Command::ProtoSchemaCompiled { root_message_names, .. } => {
                push_str(&mut s, "ProtoSchemaCompiled(");
                push_decimal(&mut s, root_message_names.len() as u64);
                push_str(&mut s, " messages)");
            },
            Command::SchemaCompileError(e) => {
                push_str(&mut s, "SchemaCompileError(");
                push_str(&mut s, e.as_str());
                push_str(&mut s, ")");
            },
            Command::JsonEncoded(d) => {
                push_str(&mut s, "JsonEncoded(");
                push_decimal(&mut s, d.len() as u64);
                push_str(&mut s, " bytes)");
            },
            Command::EncodeError(e) => {
                push_str(&mut s, "EncodeError(");
                push_str(&mut s, e.as_str());
                push_str(&mut s, ")");
            },
            Command::BinaryWalked { annotations, .. } => {
                push_str(&mut s, "BinaryWalked(");
                push_decimal(&mut s, annotations.len() as u64);
                push_str(&mut s, " regions)");
            },
            Command::WalkError(e) => {
                push_str(&mut s, "WalkError(");
                push_str(&mut s, e.as_str());
                push_str(&mut s, ")");
            },
            Command::RandomGenerated { .. } => push_str(&mut s, "RandomGenerated(...)"),
            Command::RandomGenerateError(e) => {
                push_str(&mut s, "RandomGenerateError(");
                push_str(&mut s, e.as_str());
                push_str(&mut s, ")");
            },
        }
        assert(s@ =~= command_text(*self));
        s
    }
}

impl Effect {
    /// The effect's log text.
    pub fn describe(&self) -> (s: String)
        ensures
            s@ == effect_text(self@),
    {
        match self {
            Effect::CompileSchema { .. } => string_of("CompileSchema"),
            Effect::CompileProtoSchema { .. } => string_of("CompileProtoSchema"),
            Effect::EncodeJson { .. } => string_of("EncodeJson"),
            Effect::ParseHexData { .. } => string_of("ParseHexData"),
            Effect::WalkBinary { .. } => string_of("WalkBinary"),
            Effect::WalkProtobuf { .. } => string_of("WalkProtobuf"),
            Effect::GenerateRandomSchemaAndData { seed } => {
                let mut s = string_of("GenerateRandomSchemaAndData(seed=");
                push_decimal(&mut s, *seed);
                push_str(&mut s, ")");
                s
            },
            Effect::CopyToClipboard { .. } => string_of("CopyToClipboard"),
            Effect::SetUrlQueryParam { .. } => string_of("SetUrlQueryParam"),
        }
    }
}

// ---------------------------------------------------------------------------
// Schema format detection and hex text
// ---------------------------------------------------------------------------

/// The text holds one of the FlatBuffers keywords `table `, `root_type `,
/// `namespace `, `attribute `, `file_identifier `.
pub open spec fn has_fbs_keyword(t: Seq<char>) -> bool {
    contains_seq(t, "root_type "@) || contains_seq(t, "table "@) || contains_seq(t, "namespace "@)
        || contains_seq(t, "attribute "@) || contains_seq(t, "file_identifier "@)
}

/// The text looks like a protobuf message: a `message ` keyword, a `{`, and
/// an `int32` or `string` field type.
pub open spec fn has_proto_message(t: Seq<char>) -> bool {
    contains_seq(t, "message "@) && contains_seq(t, "{"@) && (contains_seq(t, "int32"@) || contains_seq(t, "string"@))
}

/// Schema language of a schema text: protobuf when the trimmed text holds
/// `syntax = "proto` or `syntax = 'proto`, or starts with `edition =`, or
/// when it looks like a protobuf message and holds no FlatBuffers keyword;
/// FlatBuffers otherwise.
pub open spec fn schema_format_of(text: Seq<char>) -> SchemaFormat {
    let t = trim_seq(text);
    if contains_seq(t, "syntax = \"proto"@) || contains_seq(t, "syntax = 'proto"@) || starts_with_seq(t, "edition ="@) {
        SchemaFormat::Protobuf
    } else if has_fbs_keyword(t) {
        SchemaFormat::FlatBuffers
    } else if has_proto_message(t) {
        SchemaFormat::Protobuf
    } else {
        SchemaFormat::FlatBuffers
    }
}

/// Whether `t` holds the characters of `p`.
fn holds(t: &Vec<char>, p: &str) -> (r: bool)
    ensures
        r == contains_seq(t@, p@),
{
    let pc = chars_of(p);
    contains_chars(t.as_slice(), pc.as_slice())
}

/// Detects whether a schema text is FlatBuffers or protobuf: protobuf by its
/// `syntax` or `edition` line, or by a `message` block with `int32` or
/// `string` fields in a text without FlatBuffers keywords; FlatBuffers
/// otherwise.
pub fn detect_schema_format(text: &str) -> (r: SchemaFormat)
    ensures
        r == schema_format_of(text@),
{
    let cs = chars_of(text);
    let t = trim_chars(cs.as_slice());
    let p3 = chars_of("edition =");
    if holds(&t, "syntax = \"proto") || holds(&t, "syntax = 'proto") || starts_with_chars(t.as_slice(), p3.as_slice()) {
        SchemaFormat::Protobuf
    } else if holds(&t, "root_type ") || holds(&t, "table ") || holds(&t, "namespace ") || holds(&t, "attribute ")
        || holds(&t, "file_identifier ") {
        SchemaFormat::FlatBuffers
    } else if holds(&t, "message ") && holds(&t, "{") && (holds(&t, "int32") || holds(&t, "string")) {
        SchemaFormat::Protobuf
    } else {
        SchemaFormat::FlatBuffers
    }
}

/// A copy of a byte vector.
fn copy_bytes(v: &Vec<u8>) -> (r: Vec<u8>)
    ensures
        r@ == v@,
{
    let mut r: Vec<u8> = Vec::new();
    let mut i: usize = 0;
    while i < v.len()
        invariant
            i <= v@.len(),
            r@ == v@.take(i as int),
        decreases v@.len() - i,
    {
        r.push(v[i]);
        i = i + 1;
        assert(r@ =~= v@.take(i as int));
    }
    assert(v@.take(v@.len() as int) =~= v@);
    r
}

/// `Arc::clone`: another handle to the same value.
#[verifier::external_body]
fn share<T>(a: &Arc<T>) -> (r: Arc<T>)
    ensures
        r == *a,
{
    Arc::clone(a)
}

// ---------------------------------------------------------------------------
// What each command does
// ---------------------------------------------------------------------------

/// The effect that compiles the schema text in the given language.
pub open spec fn compile_effect(f: SchemaFormat, source: Seq<char>) -> EffectView {
    match f {
        SchemaFormat::FlatBuffers => EffectView::CompileSchema { source },
        SchemaFormat::Protobuf => EffectView::CompileProtoSchema { source },
    }
}

/// Root type used with a schema: the chosen one, else the schema's root table.
pub open spec fn effective_root(root: Seq<char>, schema: Schema) -> Seq<char> {
    if root.len() > 0 {
        root
    } else {
        match root_name(schema) {
            Some(n) => n,
            None => Seq::empty(),
        }
    }
}

/// Permalink text of the state's schema, data and data format, when the
/// schema text can be framed.
pub open spec fn link_text(s: AppView) -> Option<Seq<char>> {
    if fits(s.schema_text) {
        Some(base64_url(payload(s.schema_text, s.data_text, s.data_format == DataFormat::Binary)))
    } else {
        None
    }
}

/// The effect that puts the state's permalink into the page URL, if any.
pub open spec fn url_effects(s: AppView) -> Seq<EffectView> {
    match link_text(s) {
        Some(t) => seq![EffectView::SetUrlQueryParam { key: "data"@, value: t }],
        None => Seq::empty(),
    }
}

/// Status line describing a region.
pub open spec fn region_status(r: Region, tname: Seq<char>, locked: bool) -> Seq<char> {
    (if locked { "[locked] "@ } else { ""@ }) + hex4(r.byte_range.start as nat) + ".."@ + hex4(r.byte_range.end as nat) + " | "@
        + join_path(r.field_path@) + " | "@ + tname + " | "@ + r.value_display@
}

/// Status after a hover or lock change: the locked region, else the hovered
/// one, is described when it is one of the annotations.
pub open spec fn interaction_status(s: AppView) -> Seq<char> {
    let active = match s.locked_region {
        Some(i) => Some(i),
        None => s.hovered_region,
    };
    match active {
        Some(idx) => match s.annotations {
            Some(a) => if idx < a.len() {
                let tname = if idx < s.annotation_type_names.len() { s.annotation_type_names[idx as int] } else { Seq::empty() };
                region_status(a[idx as int], tname, s.locked_region == Some(idx))
            } else {
                s.status_message
            },
            None => s.status_message,
        },
        None => s.status_message,
    }
}

/// The state with its status updated for the current hover and lock.
pub open spec fn with_interaction_status(s: AppView) -> AppView {
    AppView { status_message: interaction_status(s), ..s }
}

/// `SelectTemplate(idx)`.
pub open spec fn after_select_template(s: AppView, idx: usize) -> (AppView, Seq<EffectView>) {
    if idx < TEMPLATE_COUNT {
        let t = template_at(idx as int);
        (AppView {
            schema_text: t.schema@,
            data_text: t.json_data@,
            data_format: DataFormat::Json,
            root_type_name: Seq::empty(),
            locked_region: None,
            selected_template_idx: idx,
            schema_format: SchemaFormat::FlatBuffers,
            ..s
        }, seq![EffectView::CompileSchema { source: t.schema@ }])
    } else {
        (s, Seq::empty())
    }
}

/// `CompileAndEncode`.
pub open spec fn after_compile(s: AppView) -> (AppView, Seq<EffectView>) {
    let f = schema_format_of(s.schema_text);
    (AppView { schema_format: f, ..s }, seq![compile_effect(f, s.schema_text)])
}

/// `SwitchDataFormat(nf)`.
pub open spec fn after_switch_format(s: AppView, nf: DataFormat) -> (AppView, Seq<EffectView>) {
    if nf == s.data_format {
        (s, Seq::empty())
    } else {
        let s1 = if nf == DataFormat::Binary {
            match s.binary_data {
                Some(b) => AppView { data_format: nf, data_text: hex_text(b), status_message: "Switched to Hex view."@, ..s },
                None => AppView { data_format: nf, ..s },
            }
        } else {
            AppView {
                data_format: nf,
                data_text: if s.decoded_json.len() > 0 { s.decoded_json } else { "{}"@ },
                status_message: "Switched to JSON view."@,
                ..s
            }
        };
        after_compile(s1)
    }
}

/// `SetBinaryData(data)`.
pub open spec fn after_set_binary(s: AppView, data: Seq<u8>) -> (AppView, Seq<EffectView>) {
    let s1 = AppView {
        status_message: "Loaded "@ + decimal(data.len()) + " bytes. Walking binary..."@,
        binary_data: Some(data),
        encode_error: None,
        ..s
    };
    let effs = match s.schema_format {
        SchemaFormat::FlatBuffers => match s.compiled_schema {
            Some(sc) => seq![EffectView::WalkBinary { binary: data, schema: sc, root_type_name: effective_root(s.root_type_name, *sc) }],
            None => Seq::empty(),
        },
        SchemaFormat::Protobuf => match s.proto_schema {
            Some(p) => seq![EffectView::WalkProtobuf { binary: data, schema: p, root_message: s.root_type_name }],
            None => Seq::empty(),
        },
    };
    (s1, effs)
}

/// `ClickRegion(idx)`: locks the region, or unlocks it when it is the locked one.
pub open spec fn after_click(s: AppView, idx: usize) -> AppView {
    let locked = if s.locked_region == Some(idx) { None } else { Some(idx) };
    with_interaction_status(AppView { locked_region: locked, ..s })
}

/// `CopyShareLink`.
pub open spec fn after_copy_link(s: AppView) -> (AppView, Seq<EffectView>) {
    match link_text(s) {
        Some(t) => (AppView {
            status_message: "Share link copied to clipboard."@,
            toast_message: Some("Link copied to clipboard!"@),
            toast_frames_remaining: TOAST_FRAMES,
            ..s
        }, seq![EffectView::SetUrlQueryParam { key: "data"@, value: t }, EffectView::CopyToClipboard { text: t }]),
        None => (AppView {
            status_message: "Failed to create share link: "@ + permalink_error_text(PermalinkError::TooLarge),
            ..s
        }, Seq::empty()),
    }
}

/// What a permalink text decodes to.
pub open spec fn permalink_of(text: Seq<char>) -> Result<(Seq<char>, Seq<char>, bool), PermalinkError> {
    crate::permalink::decode_text(text)
}

/// `LoadFromPermalink(text)`.
pub open spec fn after_load_link(s: AppView, text: Seq<char>) -> (AppView, Seq<EffectView>) {
    after_load_decoded(s, permalink_of(text))
}

/// `LoadFromPermalink` once the text is decoded.
pub open spec fn after_load_decoded(s: AppView, decoded: Result<(Seq<char>, Seq<char>, bool), PermalinkError>) -> (AppView, Seq<EffectView>) {
    match decoded {
        Ok((schema, data, hex)) => (AppView {
            schema_text: schema,
            data_text: data,
            data_format: if hex { DataFormat::Binary } else { DataFormat::Json },
            root_type_name: Seq::empty(),
            locked_region: None,
            status_message: "Loaded from shared link."@,
            ..s
        }, seq![EffectView::CompileSchema { source: schema }]),
        Err(e) => (AppView { status_message: "Failed to load shared link: "@ + permalink_error_text(e), ..s }, Seq::empty()),
    }
}

/// `SchemaCompiled { schema, schema_json, root_type_name }`.
pub open spec fn after_schema_compiled(s: AppView, schema: Schema, json: Seq<char>, root: Option<Seq<char>>) -> (AppView, Seq<EffectView>) {
    let r = if s.root_type_name.len() == 0 && root is Some { root->0 } else { s.root_type_name };
    let s1 = AppView {
        root_type_name: r,
        schema_json_output: json,
        compiled_schema: Some(Arc::new(schema)),
        compile_failure: None,
        status_message: "Schema compiled successfully."@,
        ..s
    };
    let e = match s.data_format {
        DataFormat::Json => EffectView::EncodeJson { json_text: s.data_text, schema: Arc::new(schema), root_type_name: effective_root(r, schema) },
        DataFormat::Binary => EffectView::ParseHexData { hex_text: s.data_text },
    };
    (s1, seq![e])
}

/// `ProtoSchemaCompiled { schema, schema_json, root_message_names }`.
pub open spec fn after_proto_compiled(s: AppView, schema: ProtoSchema, json: Seq<char>, names: Seq<Seq<char>>) -> (AppView, Seq<EffectView>) {
    let r = if s.root_type_name.len() == 0 && names.len() > 0 { names[0] } else { s.root_type_name };
    let s1 = AppView {
        root_type_name: r,
        schema_json_output: json,
        proto_schema: Some(Arc::new(schema)),
        compiled_schema: None,
        compile_failure: None,
        status_message: match s.data_format {
            DataFormat::Binary => "Proto schema compiled ("@ + decimal(names.len()) + " messages)."@,
            DataFormat::Json => "Proto schema compiled. Paste hex binary data and switch to Binary mode."@,
        },
        ..s
    };
    let effs = match s.data_format {
        DataFormat::Binary => seq![EffectView::ParseHexData { hex_text: s.data_text }],
        DataFormat::Json => Seq::empty(),
    };
    (s1, effs)
}

/// `JsonEncoded(binary)`.
pub open spec fn after_json_encoded(s: AppView, binary: Seq<u8>) -> (AppView, Seq<EffectView>) {
    let s1 = AppView {
        status_message: "Encoded "@ + decimal(binary.len()) + " bytes. Walking binary..."@,
        binary_data: Some(binary),
        encode_error: None,
        ..s
    };
    let effs = match s.compiled_schema {
        Some(sc) => seq![EffectView::WalkBinary { binary, schema: sc, root_type_name: effective_root(s.root_type_name, *sc) }],
        None => Seq::empty(),
    };
    (s1, effs)
}

/// `BinaryWalked { annotations, region_type_names, decoded_json }`.
pub open spec fn after_walked(s: AppView, annotations: Seq<Region>, names: Seq<Seq<char>>, json: Seq<char>) -> (AppView, Seq<EffectView>) {
    let data_len: nat = match s.binary_data {
        Some(b) => b.len(),
        None => 0,
    };
    let s1 = AppView {
        decoded_json: json,
        annotations: Some(annotations),
        annotation_type_names: names,
        encode_error: None,
        status_message: decimal(data_len) + " bytes, "@ + decimal(annotations.len()) + " regions. Hover to explore."@,
        ..s
    };
    (s1, url_effects(s1))
}

/// Next value of the random seed counter.
pub open spec fn next_seed(seed: u64) -> u64 {
    if seed == u64::MAX { 0 } else { (seed + 1) as u64 }
}

/// State and effects after a command, before the command is logged.
pub open spec fn step(s: AppView, c: Command) -> (AppView, Seq<EffectView>) {
    match c {
        Command::SelectTemplate(idx) => after_select_template(s, idx),
        Command::CompileAndEncode => after_compile(s),
        Command::SwitchDataFormat(nf) => after_switch_format(s, nf),
        Command::ToggleSchemaJson => (AppView { show_schema_json: !s.show_schema_json, ..s }, Seq::empty()),
        Command::ToggleDecodedJson => (AppView { show_decoded_json: !s.show_decoded_json, ..s }, Seq::empty()),
        Command::HoverRegion(r) => (with_interaction_status(AppView { hovered_region: r, ..s }), Seq::empty()),
        Command::ClickRegion(idx) => (after_click(s, idx), Seq::empty()),
        Command::UnlockRegion => (AppView { locked_region: None, ..s }, Seq::empty()),
        Command::LoadSchemaText(t) => (AppView { schema_text: t@, status_message: "Schema file loaded."@, ..s }, Seq::empty()),
        Command::SetBinaryData(d) => after_set_binary(s, d@),
        Command::CopyShareLink => after_copy_link(s),
        Command::LoadFromPermalink(t) => after_load_link(s, t@),
        Command::GenerateRandom { seed } => (AppView {
            random_seed_counter: next_seed(seed),
            status_message: "Generating random schema and data..."@,
            ..s
        }, seq![EffectView::GenerateRandomSchemaAndData { seed }]),
        Command::SchemaCompiled { schema, schema_json, root_type_name } => after_schema_compiled(s, *schema, schema_json@, opt_text(root_type_name)),
        Command::ProtoSchemaCompiled { schema, schema_json, root_message_names } =>
            after_proto_compiled(s, *schema, schema_json@, root_message_names@.map_values(|n: String| n@)),
        Command::SchemaCompileError(e) => (AppView {
            compiled_schema: None,
            proto_schema: None,
            schema_json_output: Seq::empty(),
            compile_failure: Some(e@),
            status_message: "Compile error: "@ + e@,
            ..s
        }, Seq::empty()),
        Command::JsonEncoded(b) => after_json_encoded(s, b@),
        Command::EncodeError(e) => (AppView { encode_error: Some(e@), status_message: "Encode error: "@ + e@, ..s }, Seq::empty()),
        Command::BinaryWalked { annotations, region_type_names, decoded_json } =>
            after_walked(s, annotations@, region_type_names@.map_values(|n: String| n@), decoded_json@),
        Command::WalkError(e) => (AppView {
            annotations: None,
            annotation_type_names: Seq::empty(),
            decoded_json: Seq::empty(),
            encode_error: Some("walker error: "@ + e@),
            status_message: "Walker error: "@ + e@,
            ..s
        }, Seq::empty()),
        Command::RandomGenerated { schema_text, data_text } => (AppView {
            schema_text: schema_text@,
            data_text: data_text@,
            data_format: DataFormat::Json,
            root_type_name: Seq::empty(),
            locked_region: None,
            status_message: "Random schema and data generated."@,
            ..s
        }, seq![EffectView::CompileSchema { source: schema_text@ }]),
        Command::RandomGenerateError(e) => (AppView { status_message: "Random generation error: "@ + e@, ..s }, Seq::empty()),
    }
}

/// The log with an entry appended, the oldest entry dropped beyond the maximum.
pub open spec fn log_append(log: Seq<(Seq<char>, Seq<Seq<char>>)>, entry: (Seq<char>, Seq<Seq<char>>)) -> Seq<(Seq<char>, Seq<Seq<char>>)> {
    let l = log.push(entry);
    if l.len() > MAX_EVENT_LOG_ENTRIES { l.drop_first() } else { l }
}

/// The state after a command, including its log entry: every command is
/// logged with the effects it asked for.
pub open spec fn dispatched(s: AppView, c: Command) -> AppView {
    let (s1, effs) = step(s, c);
    AppView { event_log: log_append(s1.event_log, (command_text(c), effs.map_values(|e: EffectView| effect_text(e)))), ..s1 }
}

/// Views of a list of effects.
pub open spec fn effect_views(v: Seq<Effect>) -> Seq<EffectView> {
    v.map_values(|e: Effect| e@)
}

} // verus!

verus! {

/// The state before any command: the first template, JSON data, nothing
/// compiled yet.
pub open spec fn initial_view() -> AppView {
    let t = template_at(0);
    AppView {
        schema_text: t.schema@,
        data_text: t.json_data@,
        data_format: DataFormat::Json,
        root_type_name: Seq::empty(),
        schema_format: SchemaFormat::FlatBuffers,
        compiled_schema: None,
        proto_schema: None,
        compile_failure: None,
        binary_data: None,
        encode_error: None,
        annotations: None,
        annotation_type_names: Seq::empty(),
        hovered_region: None,
        locked_region: None,
        schema_json_output: Seq::empty(),
        show_schema_json: false,
        decoded_json: Seq::empty(),
        show_decoded_json: false,
        selected_template_idx: 0,
        status_message: "Ready."@,
        structure_tree_gen: 0,
        structure_all_open: None,
        toast_message: None,
        toast_frames_remaining: 0,
        random_seed_counter: 0,
        event_log: Seq::empty(),
    }
}

impl Default for AppState {
    fn default() -> (s: Self)
        ensures
            s@ == initial_view(),
    {
        let ts = all();
        let t = ts[0];
        let s = AppState {
            schema_text: string_of(t.schema),
            data_text: string_of(t.json_data),
            data_format: DataFormat::Json,
            root_type_name: String::new(),
            schema_format: SchemaFormat::FlatBuffers,
            compiled_schema: None,
            proto_schema: None,
            compile_failure: None,
            binary_data: None,
            encode_error: None,
            annotations: None,
            annotation_type_names: Vec::new(),
            hovered_region: None,
            locked_region: None,
            schema_json_output: String::new(),
            show_schema_json: false,
            decoded_json: String::new(),
            show_decoded_json: false,
            selected_template_idx: 0,
            status_message: string_of("Ready."),
            structure_tree_gen: 0,
            structure_all_open: None,
            toast_message: None,
            toast_frames_remaining: 0,
            random_seed_counter: 0,
            event_log: VecDeque::new(),
        };
        assert(s@.annotation_type_names =~= Seq::<Seq<char>>::empty());
        assert(s@.event_log =~= Seq::<(Seq<char>, Seq<Seq<char>>)>::empty());
        s
    }
}

/// The toast countdown after one frame.
pub open spec fn after_tick(s: AppView) -> AppView {
    if s.toast_frames_remaining > 0 {
        let n = (s.toast_frames_remaining - 1) as u32;
        AppView { toast_frames_remaining: n, toast_message: if n == 0 { None } else { s.toast_message }, ..s }
    } else {
        s
    }
}

impl AppState {
    /// Root type to use with a schema: the chosen root type, else the
    /// schema's root table.
    fn effective_root_type_name(&self, schema: &Schema) -> (r: String)
        ensures
            r@ == effective_root(self.root_type_name@, *schema),
    {
        if !self.root_type_name.as_str().is_empty() {
            self.root_type_name.clone()
        } else {
            match crate::schema::extract_root_type_name(schema) {
                Some(n) => n,
                None => String::new(),
            }
        }
    }

    /// Sets the schema format from the schema text and returns the effect
    /// that compiles the schema.
    fn recompile(&mut self) -> (e: Effect)
        ensures
            final(self)@ == (AppView { schema_format: schema_format_of(old(self)@.schema_text), ..old(self)@ }),
            e@ == compile_effect(schema_format_of(old(self)@.schema_text), old(self)@.schema_text),
    {
        self.schema_format = detect_schema_format(self.schema_text.as_str());
        match self.schema_format {
            SchemaFormat::FlatBuffers => Effect::CompileSchema { source: self.schema_text.clone() },
            SchemaFormat::Protobuf => Effect::CompileProtoSchema { source: self.schema_text.clone() },
        }
    }

    /// The effect that writes the current permalink into the page URL, unless
    /// no permalink can be made.
    fn build_permalink_url_effect(&self) -> (r: Option<Effect>)
        ensures
            match r {
                Some(e) => url_effects(self@) == seq![e@],
                None => url_effects(self@) == Seq::<EffectView>::empty(),
            },
    {
        let data = PermalinkData {
            schema_text: self.schema_text.clone(),
            data_text: self.data_text.clone(),
            is_hex_format: self.data_format == DataFormat::Binary,
        };
        match encode(&data) {
            Ok(encoded) => Some(Effect::SetUrlQueryParam { key: string_of("data"), value: encoded }),
            Err(_) => None,
        }
    }

    /// Describes the locked region, else the hovered one, in the status line.
    fn update_status_from_interaction(&mut self)
        ensures
            final(self)@ == with_interaction_status(old(self)@),
    {
        let active = match self.locked_region {
            Some(i) => Some(i),
            None => self.hovered_region,
        };
        if let Some(idx) = active {
            let mut msg = String::new();
            let mut found = false;
            if let Some(annotations) = &self.annotations {
                if idx < annotations.len() {
                    let r = &annotations[idx];
                    let locked = match self.locked_region {
                        Some(l) => l == idx,
                        None => false,
                    };
                    if locked {
                        push_str(&mut msg, "[locked] ");
                    }
                    push_hex4(&mut msg, r.byte_range.start as u64);
                    push_str(&mut msg, "..");
                    push_hex4(&mut msg, r.byte_range.end as u64);
                    push_str(&mut msg, " | ");
                    let path = join_dotted(&r.field_path);
                    push_str(&mut msg, path.as_str());
                    push_str(&mut msg, " | ");
                    if idx < self.annotation_type_names.len() {
                        push_str(&mut msg, self.annotation_type_names[idx].as_str());
                    }
                    push_str(&mut msg, " | ");
                    push_str(&mut msg, r.value_display.as_str());
                    found = true;
                    proof {
                        let s = old(self)@;
                        reveal_strlit("");
                        let tname = if idx < s.annotation_type_names.len() { s.annotation_type_names[idx as int] } else { Seq::<char>::empty() };
                        if idx < s.annotation_type_names.len() {
                            assert(tname == self.annotation_type_names@[idx as int]@);
                        }
                        assert(msg@ =~= region_status(annotations@[idx as int], tname, s.locked_region == Some(idx)));
                    }
                }
            }
            if found {
                self.status_message = msg;
            }
        }
    }

    fn select_template(&mut self, idx: usize) -> (effects: Vec<Effect>)
        ensures
            final(self)@ == after_select_template(old(self)@, idx).0,
            effect_views(effects@) == after_select_template(old(self)@, idx).1,
    {
        let ts = all();
        let mut effects: Vec<Effect> = Vec::new();
        if idx < ts.len() {
            let t = ts[idx];
            self.schema_text = string_of(t.schema);
            self.data_text = string_of(t.json_data);
            self.data_format = DataFormat::Json;
            self.root_type_name = String::new();
            self.locked_region = None;
            self.selected_template_idx = idx;
            self.schema_format = SchemaFormat::FlatBuffers;
            effects.push(Effect::CompileSchema { source: self.schema_text.clone() });
        }
        assert(effect_views(effects@) =~= after_select_template(old(self)@, idx).1);
        effects
    }

    fn switch_data_format(&mut self, nf: DataFormat) -> (effects: Vec<Effect>)
        requires
            nf != old(self).data_format,
        ensures
            final(self)@ == after_switch_format(old(self)@, nf).0,
            effect_views(effects@) == after_switch_format(old(self)@, nf).1,
    {
        let prev = self.data_format;
        self.data_format = nf;
        match prev {
            DataFormat::Json => {
                if let Some(b) = &self.binary_data {
                    self.data_text = bytes_to_hex(b.as_slice());
                    self.status_message = string_of("Switched to Hex view.");
                }
            },
            DataFormat::Binary => {
                if !self.decoded_json.as_str().is_empty() {
                    self.data_text = self.decoded_json.clone();
                } else {
                    self.data_text = string_of("{}");
                }
                self.status_message = string_of("Switched to JSON view.");
            },
        }
        let e = self.recompile();
        let mut effects: Vec<Effect> = Vec::new();
        effects.push(e);
        assert(effect_views(effects@) =~= after_switch_format(old(self)@, nf).1);
        effects
    }

    fn set_binary_data(&mut self, data: Vec<u8>) -> (effects: Vec<Effect>)
        ensures
            final(self)@ == after_set_binary(old(self)@, data@).0,
            effect_views(effects@) == after_set_binary(old(self)@, data@).1,
    {
        let mut msg = string_of("Loaded ");
        push_decimal(&mut msg, data.len() as u64);
        push_str(&mut msg, " bytes. Walking binary...");
        self.status_message = msg;
        self.binary_data = Some(copy_bytes(&data));
        self.encode_error = None;
        let mut effects: Vec<Effect> = Vec::new();
        match self.schema_format {
            SchemaFormat::FlatBuffers => {
                if let Some(sc) = &self.compiled_schema {
                    let root = self.effective_root_type_name(sc);
                    effects.push(Effect::WalkBinary { binary: data, schema: share(sc), root_type_name: root });
                }
            },
            SchemaFormat::Protobuf => {
                if let Some(p) = &self.proto_schema {
                    effects.push(Effect::WalkProtobuf { binary: data, schema: share(p), root_message: self.root_type_name.clone() });
                }
            },
        }
        assert(self@.status_message =~= after_set_binary(old(self)@, data@).0.status_message);
        assert(effect_views(effects@) =~= after_set_binary(old(self)@, data@).1);
        effects
    }

    fn copy_share_link(&mut self) -> (effects: Vec<Effect>)
        ensures
            final(self)@ == after_copy_link(old(self)@).0,
            effect_views(effects@) == after_copy_link(old(self)@).1,
    {
        let data = PermalinkData {
            schema_text: self.schema_text.clone(),
            data_text: self.data_text.clone(),
            is_hex_format: self.data_format == DataFormat::Binary,
        };
        let mut effects: Vec<Effect> = Vec::new();
        match encode(&data) {
            Ok(encoded) => {
                self.status_message = string_of("Share link copied to clipboard.");
                self.toast_message = Some(string_of("Link copied to clipboard!"));
                self.toast_frames_remaining = TOAST_FRAMES;
                assert(link_text(self@) == link_text(old(self)@));
                assert(link_text(self@) == Some(encoded@));
                assert(url_effects(self@).len() == 1);
                assert(url_effects(self@)[0] == EffectView::SetUrlQueryParam { key: "data"@, value: encoded@ });
                if let Some(e) = self.build_permalink_url_effect() {
                    assert(seq![e@][0] == e@);
                    effects.push(e);
                }
                assert(effects@.len() == 1);
                assert(effects@[0]@ == EffectView::SetUrlQueryParam { key: "data"@, value: encoded@ });
                effects.push(Effect::CopyToClipboard { text: encoded });
                assert(effect_views(effects@) =~= seq![EffectView::SetUrlQueryParam { key: "data"@, value: encoded@ }, EffectView::CopyToClipboard { text: encoded@ }]);
            },
            Err(e) => {
                let mut msg = string_of("Failed to create share link: ");
                let d = e.describe();
                push_str(&mut msg, d.as_str());
                self.status_message = msg;
            },
        }
        assert(effect_views(effects@) =~= after_copy_link(old(self)@).1);
        assert(self@.status_message =~= after_copy_link(old(self)@).0.status_message);
        effects
    }

    fn load_from_permalink(&mut self, encoded: String) -> (effects: Vec<Effect>)
        ensures
            final(self)@ == after_load_link(old(self)@, encoded@).0,
            effect_views(effects@) == after_load_link(old(self)@, encoded@).1,
            forall|b: Seq<u8>| #[trigger] base64_url(b) == encoded@ ==> permalink_of(encoded@) == parse_payload(b),
    {
        let mut effects: Vec<Effect> = Vec::new();
        match decode(encoded.as_str()) {
            Ok(data) => {
                self.schema_text = data.schema_text;
                self.data_text = data.data_text;
                self.data_format = if data.is_hex_format { DataFormat::Binary } else { DataFormat::Json };
                self.root_type_name = String::new();
                self.locked_region = None;
                self.status_message = string_of("Loaded from shared link.");
                effects.push(Effect::CompileSchema { source: self.schema_text.clone() });
            },
            Err(e) => {
                let mut msg = string_of("Failed to load shared link: ");
                let d = e.describe();
                push_str(&mut msg, d.as_str());
                self.status_message = msg;
            },
        }
        assert(effect_views(effects@) =~= after_load_link(old(self)@, encoded@).1);
        assert(self@.status_message =~= after_load_link(old(self)@, encoded@).0.status_message);
        effects
    }

    fn schema_compiled(&mut self, schema: Box<Schema>, schema_json: String, root_type_name: Option<String>) -> (effects: Vec<Effect>)
        ensures
            final(self)@ == after_schema_compiled(old(self)@, *schema, schema_json@, opt_text(root_type_name)).0,
            effect_views(effects@) == after_schema_compiled(old(self)@, *schema, schema_json@, opt_text(root_type_name)).1,
    {
        if self.root_type_name.as_str().is_empty() {
            if let Some(name) = root_type_name {
                self.root_type_name = name;
            }
        }
        self.schema_json_output = schema_json;
        let sc = Arc::new(*schema);
        self.compiled_schema = Some(share(&sc));
        self.compile_failure = None;
        self.status_message = string_of("Schema compiled successfully.");
        let root = self.effective_root_type_name(&sc);
        let mut effects: Vec<Effect> = Vec::new();
        match self.data_format {
            DataFormat::Json => effects.push(Effect::EncodeJson { json_text: self.data_text.clone(), schema: sc, root_type_name: root }),
            DataFormat::Binary => effects.push(Effect::ParseHexData { hex_text: self.data_text.clone() }),
        }
        assert(effect_views(effects@) =~= after_schema_compiled(old(self)@, *schema, schema_json@, opt_text(root_type_name)).1);
        effects
    }

    fn proto_schema_compiled(&mut self, schema: Box<ProtoSchema>, schema_json: String, names: Vec<String>) -> (effects: Vec<Effect>)
        ensures
            final(self)@ == after_proto_compiled(old(self)@, *schema, schema_json@, names@.map_values(|n: String| n@)).0,
            effect_views(effects@) == after_proto_compiled(old(self)@, *schema, schema_json@, names@.map_values(|n: String| n@)).1,
    {
        let ghost ns = names@.map_values(|n: String| n@);
        if self.root_type_name.as_str().is_empty() {
            if names.len() > 0 {
                self.root_type_name = names[0].clone();
            }
        }
        self.schema_json_output = schema_json;
        self.proto_schema = Some(Arc::new(*schema));
        self.compiled_schema = None;
        self.compile_failure = None;
        let mut msg = string_of("Proto schema compiled (");
        push_decimal(&mut msg, names.len() as u64);
        push_str(&mut msg, " messages).");
        self.status_message = msg;
        let mut effects: Vec<Effect> = Vec::new();
        match self.data_format {
            DataFormat::Binary => effects.push(Effect::ParseHexData { hex_text: self.data_text.clone() }),
            DataFormat::Json => {
                self.status_message = string_of("Proto schema compiled. Paste hex binary data and switch to Binary mode.");
            },
        }
        assert(ns.len() == names@.len());
        assert(self@.status_message =~= after_proto_compiled(old(self)@, *schema, schema_json@, ns).0.status_message);
        assert(effect_views(effects@) =~= after_proto_compiled(old(self)@, *schema, schema_json@, ns).1);
        effects
    }

    fn json_encoded(&mut self, binary: Vec<u8>) -> (effects: Vec<Effect>)
        ensures
            final(self)@ == after_json_encoded(old(self)@, binary@).0,
            effect_views(effects@) == after_json_encoded(old(self)@, binary@).1,
    {
        let mut msg = string_of("Encoded ");
        push_decimal(&mut msg, binary.len() as u64);
        push_str(&mut msg, " bytes. Walking binary...");
        self.status_message = msg;
        self.binary_data = Some(copy_bytes(&binary));
        self.encode_error = None;
        let mut effects: Vec<Effect> = Vec::new();
        if let Some(sc) = &self.compiled_schema {
            let root = self.effective_root_type_name(sc);
            effects.push(Effect::WalkBinary { binary: binary, schema: share(sc), root_type_name: root });
        }
        assert(self@.status_message =~= after_json_encoded(old(self)@, binary@).0.status_message);
        assert(effect_views(effects@) =~= after_json_encoded(old(self)@, binary@).1);
        effects
    }

    fn binary_walked(&mut self, annotations: Vec<Region>, names: Vec<String>, decoded_json: String) -> (effects: Vec<Effect>)
        ensures
            final(self)@ == after_walked(old(self)@, annotations@, names@.map_values(|n: String| n@), decoded_json@).0,
            effect_views(effects@) == after_walked(old(self)@, annotations@, names@.map_values(|n: String| n@), decoded_json@).1,
    {
        let count = annotations.len();
        let data_len = match &self.binary_data {
            Some(d) => d.len(),
            None => 0,
        };
        self.decoded_json = decoded_json;
        self.annotations = Some(annotations);
        self.annotation_type_names = names;
        self.encode_error = None;
        let mut msg = String::new();
        push_decimal(&mut msg, data_len as u64);
        push_str(&mut msg, " bytes, ");
        push_decimal(&mut msg, count as u64);
        push_str(&mut msg, " regions. Hover to explore.");
        self.status_message = msg;
        let mut effects: Vec<Effect> = Vec::new();
        if let Some(e) = self.build_permalink_url_effect() {
            effects.push(e);
        }
        assert(self@.status_message =~= after_walked(old(self)@, annotations@, names@.map_values(|n: String| n@), decoded_json@).0.status_message);
        assert(effect_views(effects@) =~= after_walked(old(self)@, annotations@, names@.map_values(|n: String| n@), decoded_json@).1);
        effects
    }

    /// Applies a command: moves the state and returns the effects the runtime
    /// must perform. Every command but a switch to the data format already in
    /// use is logged with the effects it produced; the log keeps at most
    /// `MAX_EVENT_LOG_ENTRIES` entries, dropping the oldest.
    #[verifier::spinoff_prover]
    #[verifier::rlimit(40)]
    pub fn dispatch(&mut self, cmd: Command) -> (effects: Vec<Effect>)
        ensures
            effect_views(effects@) == step(old(self)@, cmd).1,
            final(self)@ == dispatched(old(self)@, cmd),
            cmd matches Command::LoadFromPermalink(t) ==> forall|b: Seq<u8>| #[trigger] base64_url(b) == t@ ==> permalink_of(t@) == parse_payload(b),
    {
        let cmd_str = cmd.describe();
        let ghost c = cmd;
        let ghost s0 = self@;
        let effects: Vec<Effect> = match cmd {
            Command::SelectTemplate(idx) => self.select_template(idx),
            Command::CompileAndEncode => {
                let e = self.recompile();
                let mut v: Vec<Effect> = Vec::new();
                v.push(e);
                assert(effect_views(v@) =~= step(s0, c).1);
                v
            },
            Command::SwitchDataFormat(nf) => {
                if nf == self.data_format {
                    let v: Vec<Effect> = Vec::new();
                    assert(effect_views(v@) =~= step(s0, c).1);
                    v
                } else {
                    self.switch_data_format(nf)
                }
            },
            Command::ToggleSchemaJson => {
                self.show_schema_json = !self.show_schema_json;
                Vec::new()
            },
            Command::ToggleDecodedJson => {
                self.show_decoded_json = !self.show_decoded_json;
                Vec::new()
            },
            Command::HoverRegion(r) => {
                self.hovered_region = r;
                self.update_status_from_interaction();
                Vec::new()
            },
            Command::ClickRegion(idx) => {
                let now_locked = match self.locked_region {
                    Some(l) => l == idx,
                    None => false,
                };
                if now_locked {
                    self.locked_region = None;
                } else {
                    self.locked_region = Some(idx);
                }
                self.update_status_from_interaction();
                Vec::new()
            },
            Command::UnlockRegion => {
                self.locked_region = None;
                Vec::new()
            },
            Command::LoadSchemaText(text) => {
                self.schema_text = text;
                self.status_message = string_of("Schema file loaded.");
                Vec::new()
            },
            Command::SetBinaryData(data) => self.set_binary_data(data),
            Command::CopyShareLink => self.copy_share_link(),
            Command::LoadFromPermalink(encoded) => self.load_from_permalink(encoded),
            Command::GenerateRandom { seed } => {
                self.random_seed_counter = if seed == u64::MAX { 0 } else { seed + 1 };
                self.status_message = string_of("Generating random schema and data...");
                let mut v: Vec<Effect> = Vec::new();
                v.push(Effect::GenerateRandomSchemaAndData { seed });
                assert(effect_views(v@) =~= step(s0, c).1);
                v
            },
            Command::SchemaCompiled { schema, schema_json, root_type_name } => self.schema_compiled(schema, schema_json, root_type_name),
            Command::ProtoSchemaCompiled { schema, schema_json, root_message_names } =>
                self.proto_schema_compiled(schema, schema_json, root_message_names),
            Command::SchemaCompileError(err) => {
                self.compiled_schema = None;
                self.proto_schema = None;
                self.schema_json_output = String::new();
                let mut msg = string_of("Compile error: ");
                push_str(&mut msg, err.as_str());
                self.compile_failure = Some(err);
                self.status_message = msg;
                Vec::new()
            },
            Command::JsonEncoded(binary) => self.json_encoded(binary),
            Command::EncodeError(err) => {
                let mut msg = string_of("Encode error: ");
                push_str(&mut msg, err.as_str());
                self.encode_error = Some(err);
                self.status_message = msg;
                Vec::new()
            },
            Command::BinaryWalked { annotations, region_type_names, decoded_json } =>
                self.binary_walked(annotations, region_type_names, decoded_json),
            Command::WalkError(err) => {
                self.annotations = None;
                self.annotation_type_names = Vec::new();
                self.decoded_json = String::new();
                let mut e = string_of("walker error: ");
                push_str(&mut e, err.as_str());
                self.encode_error = Some(e);
                let mut msg = string_of("Walker error: ");
                push_str(&mut msg, err.as_str());
                self.status_message = msg;
                Vec::new()
            },
            Command::RandomGenerated { schema_text, data_text } => {
                self.schema_text = schema_text;
                self.data_text = data_text;
                self.data_format = DataFormat::Json;
                self.root_type_name = String::new();
                self.locked_region = None;
                self.status_message = string_of("Random schema and data generated.");
                let mut v: Vec<Effect> = Vec::new();
                v.push(Effect::CompileSchema { source: self.schema_text.clone() });
                assert(effect_views(v@) =~= step(s0, c).1);
                v
            },
            Command::RandomGenerateError(err) => {
                let mut msg = string_of("Random generation error: ");
                push_str(&mut msg, err.as_str());
                self.status_message = msg;
                Vec::new()
            },
        };
        let ghost s1 = self@;
        assert(s1 =~= step(s0, c).0);
        assert(effect_views(effects@) =~= step(s0, c).1);
        let mut effect_strs: Vec<String> = Vec::new();
        let mut i: usize = 0;
        while i < effects.len()
            invariant
                i <= effects@.len(),
                effect_strs@.len() == i,
                forall|k: int| 0 <= k < i ==> #[trigger] effect_strs@[k]@ == effect_text(effects@[k]@),
            decreases effects@.len() - i,
        {
            let d = effects[i].describe();
            effect_strs.push(d);
            i = i + 1;
        }
        let entry = EventLogEntry { command: cmd_str, effects: effect_strs };
        assert(entry@ =~~= (command_text(c), step(s0, c).1.map_values(|e: EffectView| effect_text(e))));
        self.event_log.push_back(entry);
        if self.event_log.len() > MAX_EVENT_LOG_ENTRIES {
            let _ = self.event_log.pop_front();
        }
        assert(self@.event_log =~= log_append(s1.event_log, (command_text(c), step(s0, c).1.map_values(|e: EffectView| effect_text(e)))));
        effects
    }

    /// Counts the toast down by one frame and hides it when the count reaches zero.
    pub fn tick_toast(&mut self)
        ensures
            final(self)@ == after_tick(old(self)@),
    {
        if self.toast_frames_remaining > 0 {
            self.toast_frames_remaining = self.toast_frames_remaining - 1;
            if self.toast_frames_remaining == 0 {
                self.toast_message = None;
            }
        }
    }
}

} // verus!

verus! {

/// The event log never grows beyond `MAX_EVENT_LOG_ENTRIES` entries.
pub proof fn lemma_event_log_bounded(s: AppView, c: Command)
    requires
        s.event_log.len() <= MAX_EVENT_LOG_ENTRIES,
    ensures
        dispatched(s, c).event_log.len() <= MAX_EVENT_LOG_ENTRIES,
{
    assert(step(s, c).0.event_log == s.event_log);
}

/// Every command is logged: the log's newest entry names the command and
/// the effects it asked for, and the entries before it stay in order (the
/// oldest one dropped when the log was full).
pub proof fn lemma_log_records_command(s: AppView, c: Command)
    requires
        s.event_log.len() <= MAX_EVENT_LOG_ENTRIES,
    ensures
        ({
            let l = dispatched(s, c).event_log;
            &&& l.len() == (if s.event_log.len() == MAX_EVENT_LOG_ENTRIES { MAX_EVENT_LOG_ENTRIES as int } else { s.event_log.len() + 1int })
            &&& l.last() == (command_text(c), step(s, c).1.map_values(|e: EffectView| effect_text(e)))
            &&& l.drop_last() == (if s.event_log.len() == MAX_EVENT_LOG_ENTRIES { s.event_log.drop_first() } else { s.event_log })
        }),
{
    assert(step(s, c).0.event_log == s.event_log);
    let e = (command_text(c), step(s, c).1.map_values(|e: EffectView| effect_text(e)));
    let l = s.event_log.push(e);
    if l.len() > MAX_EVENT_LOG_ENTRIES {
        assert(l.drop_first().drop_last() =~= s.event_log.drop_first());
    } else {
        assert(l.drop_last() =~= s.event_log);
    }
}

/// Loading a binary keeps it as the state's bytes and asks for exactly one
/// walk of those bytes under the compiled schema of the current language:
/// a protobuf walk from the state's root message when a protobuf schema is
/// compiled, a FlatBuffers walk when a FlatBuffers schema is; no walk without
/// a compiled schema.
pub proof fn lemma_loaded_binary_is_walked(s: AppView, d: Vec<u8>)
    ensures
        dispatched(s, Command::SetBinaryData(d)).binary_data == Some(d@),
        s.schema_format == SchemaFormat::Protobuf ==> match s.proto_schema {
            Some(p) => step(s, Command::SetBinaryData(d)).1 == seq![EffectView::WalkProtobuf { binary: d@, schema: p, root_message: s.root_type_name }],
            None => step(s, Command::SetBinaryData(d)).1.len() == 0,
        },
        s.schema_format == SchemaFormat::FlatBuffers ==> match s.compiled_schema {
            Some(c) => step(s, Command::SetBinaryData(d)).1.len() == 1
                && (step(s, Command::SetBinaryData(d)).1[0] matches EffectView::WalkBinary { binary, schema, .. }
                && binary == d@ && schema == c),
            None => step(s, Command::SetBinaryData(d)).1.len() == 0,
        },
{
}

/// Clicking the same region twice leaves the lock as it was, when no other
/// region was locked before: a click locks an unlocked region and unlocks
/// the locked one.
pub proof fn lemma_click_twice(s: AppView, i: usize)
    requires
        s.locked_region is None || s.locked_region == Some(i),
    ensures
        dispatched(dispatched(s, Command::ClickRegion(i)), Command::ClickRegion(i)).locked_region == s.locked_region,
{
}

/// Toggling a JSON pane twice leaves it as it was.
pub proof fn lemma_toggle_twice(s: AppView)
    ensures
        dispatched(dispatched(s, Command::ToggleSchemaJson), Command::ToggleSchemaJson).show_schema_json == s.show_schema_json,
        dispatched(dispatched(s, Command::ToggleDecodedJson), Command::ToggleDecodedJson).show_decoded_json == s.show_decoded_json,
{
}

/// Switching to the data format already in use changes nothing but the
/// log, and asks for no effect.
pub proof fn lemma_switch_to_same_format(s: AppView)
    ensures
        dispatched(s, Command::SwitchDataFormat(s.data_format)) == (AppView { event_log: dispatched(s, Command::SwitchDataFormat(s.data_format)).event_log, ..s }),
        step(s, Command::SwitchDataFormat(s.data_format)).1 == Seq::<EffectView>::empty(),
{
}

/// A share link carries the state's schema text, data text and data format:
/// `CopyShareLink` puts `base64_url(payload(..))` on the clipboard, that text
/// decodes to the payload bytes (see `dispatch`), and loading those bytes
/// into any state restores the three and recompiles the schema.
pub proof fn lemma_share_link_roundtrip(s: AppView, s2: AppView)
    requires
        fits(s.schema_text),
    ensures
        after_copy_link(s).1 == seq![
            EffectView::SetUrlQueryParam { key: "data"@, value: base64_url(payload(s.schema_text, s.data_text, s.data_format == DataFormat::Binary)) },
            EffectView::CopyToClipboard { text: base64_url(payload(s.schema_text, s.data_text, s.data_format == DataFormat::Binary)) },
        ],
        ({
            let loaded = after_load_decoded(s2, parse_payload(payload(s.schema_text, s.data_text, s.data_format == DataFormat::Binary)));
            &&& loaded.0.schema_text == s.schema_text
            &&& loaded.0.data_text == s.data_text
            &&& loaded.0.data_format == s.data_format
            &&& loaded.1 == seq![EffectView::CompileSchema { source: s.schema_text }]
        }),
{
    crate::permalink::lemma_payload_roundtrip(s.schema_text, s.data_text, s.data_format == DataFormat::Binary);
}

/// The state after `n` frames.
pub open spec fn ticks(s: AppView, n: nat) -> AppView
    decreases n,
{
    if n == 0 {
        s
    } else {
        after_tick(ticks(s, (n - 1) as nat))
    }
}

/// A toast shown for `n` frames is gone after `n` ticks.
pub proof fn lemma_toast_expires(s: AppView)
    requires
        s.toast_frames_remaining > 0,
    ensures
        ticks(s, s.toast_frames_remaining as nat).toast_message is None,
        ticks(s, s.toast_frames_remaining as nat).toast_frames_remaining == 0,
{
    lemma_ticks_count(s, s.toast_frames_remaining as nat);
}

/// Each tick before the countdown ends takes one frame off.
proof fn lemma_ticks_count(s: AppView, n: nat)
    requires
        n <= s.toast_frames_remaining,
    ensures
        ticks(s, n).toast_frames_remaining == s.toast_frames_remaining - n,
        n < s.toast_frames_remaining ==> ticks(s, n).toast_message == s.toast_message,
        n == s.toast_frames_remaining && n > 0 ==> ticks(s, n).toast_message is None,
    decreases n,
{
    if n > 0 {
        lemma_ticks_count(s, (n - 1) as nat);
    }
}

/// Switching from JSON to hex writes the bytes as hex text whose whitespace
/// tokens are exactly one valid hex token per byte, so parsing it back gives
/// the same bytes; the bytes and their regions stay as they were.
pub proof fn lemma_switch_to_hex_text(s: AppView, b: Seq<u8>)
    requires
        s.data_format == DataFormat::Json,
        s.binary_data == Some(b),
    ensures
        after_switch_format(s, DataFormat::Binary).0.data_text == hex_text(b),
        after_switch_format(s, DataFormat::Binary).0.binary_data == s.binary_data,
        after_switch_format(s, DataFormat::Binary).0.annotations == s.annotations,
        crate::hex::split_ws(hex_text(b)).len() == b.len(),
        forall|k: int| 0 <= k < b.len() ==> crate::hex::token_byte(#[trigger] crate::hex::split_ws(hex_text(b))[k]) == Some(b[k]),
{
    crate::hex::lemma_hex_roundtrip(b);
}

/// Switching from hex to JSON writes the decoded JSON of the current regions
/// (or `{}` when there is none) as the data text; the bytes and their
/// regions stay as they were until the recompilation answers.
pub proof fn lemma_switch_to_json_text(s: AppView)
    requires
        s.data_format == DataFormat::Binary,
    ensures
        after_switch_format(s, DataFormat::Json).0.data_text == (if s.decoded_json.len() > 0 { s.decoded_json } else { "{}"@ }),
        after_switch_format(s, DataFormat::Json).0.binary_data == s.binary_data,
        after_switch_format(s, DataFormat::Json).0.annotations == s.annotations,
        after_switch_format(s, DataFormat::Json).1 == seq![compile_effect(schema_format_of(s.schema_text), s.schema_text)],
{
}

} // verus!
