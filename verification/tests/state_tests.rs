use std::sync::Arc;

use fbsviewer::effects::{encode_json_command, parse_hex_command};
use fbsviewer::json::{FloatForms, JsonNumber, JsonValue, NumberInt};
use fbsviewer::region::{Region, RegionType};
use fbsviewer::schema::{BaseType, Enum, EnumVal, Field, FieldType, Object, Schema};
use fbsviewer::state::{detect_schema_format, AppState, Command, DataFormat, Effect, SchemaFormat};
use fbsviewer::templates::{all, MONSTER_JSON, MONSTER_SCHEMA};

fn empty_schema() -> Schema {
    Schema { objects: vec![], enums: vec![], file_ident: None, root_table_index: None }
}

fn region(start: usize, end: usize, path: &[&str], value: &str) -> Region {
    Region {
        byte_range: start..end,
        region_type: RegionType::Padding,
        label: "label".to_string(),
        field_path: path.iter().map(|s| s.to_string()).collect(),
        value_display: value.to_string(),
        children: vec![],
        related_regions: vec![],
        depth: 0,
    }
}

#[test]
fn test_default_state() {
    let state = AppState::default();
    assert_eq!(state.data_format, DataFormat::Json);
    assert!(state.compiled_schema.is_none());
    assert!(state.binary_data.is_none());
    assert!(state.annotations.is_none());
    assert_eq!(state.status_message, "Ready.");
    assert!(state.root_type_name.is_empty());
}

#[test]
fn test_click_region_toggles_lock() {
    let mut state = AppState::default();
    state.dispatch(Command::ClickRegion(5));
    assert_eq!(state.locked_region, Some(5));
    state.dispatch(Command::ClickRegion(5));
    assert_eq!(state.locked_region, None);
    state.dispatch(Command::ClickRegion(3));
    assert_eq!(state.locked_region, Some(3));
    state.dispatch(Command::ClickRegion(7));
    assert_eq!(state.locked_region, Some(7));
}

#[test]
fn test_unlock_region() {
    let mut state = AppState::default();
    state.dispatch(Command::ClickRegion(5));
    assert_eq!(state.locked_region, Some(5));
    state.dispatch(Command::UnlockRegion);
    assert_eq!(state.locked_region, None);
}

#[test]
fn test_toggle_schema_json() {
    let mut state = AppState::default();
    assert!(!state.show_schema_json);
    state.dispatch(Command::ToggleSchemaJson);
    assert!(state.show_schema_json);
    state.dispatch(Command::ToggleSchemaJson);
    assert!(!state.show_schema_json);
}

#[test]
fn test_toggle_decoded_json() {
    let mut state = AppState::default();
    assert!(!state.show_decoded_json);
    state.dispatch(Command::ToggleDecodedJson);
    assert!(state.show_decoded_json);
    state.dispatch(Command::ToggleDecodedJson);
    assert!(!state.show_decoded_json);
}

#[test]
fn test_select_template_resets_format_to_json() {
    let mut state = AppState::default();
    state.data_format = DataFormat::Binary;
    state.locked_region = Some(3);
    let effects = state.dispatch(Command::SelectTemplate(1));
    assert_eq!(state.data_format, DataFormat::Json);
    assert_eq!(state.selected_template_idx, 1);
    assert!(state.locked_region.is_none());
    assert!(state.root_type_name.is_empty());
    assert!(effects.iter().any(|e| matches!(e, Effect::CompileSchema { .. })));
}

#[test]
fn test_schema_compiled_chains_to_encode_json() {
    let mut state = AppState::default();
    state.data_format = DataFormat::Json;
    let effects = state.dispatch(Command::SchemaCompiled {
        schema: Box::new(empty_schema()),
        schema_json: "{}".to_string(),
        root_type_name: Some("Monster".to_string()),
    });
    assert!(state.compiled_schema.is_some());
    assert!(state.compile_failure.is_none());
    assert_eq!(state.root_type_name, "Monster");
    assert!(effects.iter().any(|e| matches!(e, Effect::EncodeJson { .. })));
}

#[test]
fn test_schema_compiled_chains_to_parse_hex_when_binary_format() {
    let mut state = AppState::default();
    state.data_format = DataFormat::Binary;
    state.data_text = "0a 0b 0c".to_string();
    let effects = state.dispatch(Command::SchemaCompiled {
        schema: Box::new(empty_schema()),
        schema_json: "{}".to_string(),
        root_type_name: Some("Test".to_string()),
    });
    assert!(effects.iter().any(|e| matches!(e, Effect::ParseHexData { .. })));
}

#[test]
fn test_schema_compile_error_clears_schema() {
    let mut state = AppState::default();
    state.compiled_schema = Some(Arc::new(empty_schema()));
    state.dispatch(Command::SchemaCompileError("syntax error".to_string()));
    assert!(state.compiled_schema.is_none());
    assert_eq!(state.compile_failure.as_deref(), Some("syntax error"));
}

#[test]
fn test_walk_error_clears_annotations() {
    let mut state = AppState::default();
    state.annotations = Some(vec![]);
    state.decoded_json = "some json".to_string();
    state.dispatch(Command::WalkError("bad data".to_string()));
    assert!(state.annotations.is_none());
    assert!(state.decoded_json.is_empty());
}

#[test]
fn test_format_switch_json_to_hex_preserves_annotations() {
    let mut state = AppState::default();
    state.data_format = DataFormat::Json;
    state.binary_data = Some(vec![0x14, 0x00, 0x00, 0x00]);
    state.annotations = Some(vec![]);

    let _effects = state.dispatch(Command::SwitchDataFormat(DataFormat::Binary));

    assert!(state.annotations.is_some(), "Annotations must survive JSON->Hex format switch");
    assert_eq!(state.data_format, DataFormat::Binary);
    assert!(state.data_text.contains("14 00 00 00"));
}

#[test]
fn test_format_switch_hex_to_json_uses_decoded_json() {
    let mut state = AppState::default();
    state.data_format = DataFormat::Binary;
    state.decoded_json = r#"{"name": "Orc"}"#.to_string();

    let _effects = state.dispatch(Command::SwitchDataFormat(DataFormat::Json));

    assert_eq!(state.data_format, DataFormat::Json);
    assert_eq!(state.data_text, r#"{"name": "Orc"}"#);
}

#[test]
fn test_format_switch_hex_to_json_fallback_empty() {
    let mut state = AppState::default();
    state.data_format = DataFormat::Binary;
    state.decoded_json = String::new();

    let _effects = state.dispatch(Command::SwitchDataFormat(DataFormat::Json));

    assert_eq!(state.data_text, "{}");
}

#[test]
fn test_load_schema_text() {
    let mut state = AppState::default();
    state.dispatch(Command::LoadSchemaText("table Foo {}".to_string()));
    assert_eq!(state.schema_text, "table Foo {}");
    assert_eq!(state.status_message, "Schema file loaded.");
}

#[test]
fn test_event_log_records_commands() {
    let mut state = AppState::default();
    state.dispatch(Command::ToggleSchemaJson);
    state.dispatch(Command::ClickRegion(3));
    assert_eq!(state.event_log.len(), 2);
    assert_eq!(state.event_log[0].command, "ToggleSchemaJson");
    assert_eq!(state.event_log[1].command, "ClickRegion(3)");
}

#[test]
fn test_generate_random_dispatches_effect() {
    let mut state = AppState::default();
    let effects = state.dispatch(Command::GenerateRandom { seed: 42 });
    assert_eq!(state.random_seed_counter, 43);
    assert!(effects.iter().any(|e| matches!(e, Effect::GenerateRandomSchemaAndData { seed: 42 })));
}

#[test]
fn test_random_generated_chains_to_compile() {
    let mut state = AppState::default();
    state.data_format = DataFormat::Binary;
    state.locked_region = Some(3);
    let effects = state.dispatch(Command::RandomGenerated {
        schema_text: "table Foo {}".to_string(),
        data_text: "{}".to_string(),
    });
    assert_eq!(state.schema_text, "table Foo {}");
    assert_eq!(state.data_text, "{}");
    assert_eq!(state.data_format, DataFormat::Json);
    assert!(state.root_type_name.is_empty());
    assert!(state.locked_region.is_none());
    assert!(effects.iter().any(|e| matches!(e, Effect::CompileSchema { .. })));
}

#[test]
fn test_random_error_updates_status() {
    let mut state = AppState::default();
    state.dispatch(Command::RandomGenerateError("test error".to_string()));
    assert!(state.status_message.contains("test error"));
}

#[test]
fn test_load_invalid_permalink() {
    let mut state = AppState::default();
    state.dispatch(Command::LoadFromPermalink("not-valid-data".to_string()));
    assert!(state.status_message.contains("Failed"));
}

#[test]
fn test_detect_schema_format_proto() {
    assert_eq!(
        detect_schema_format("syntax = \"proto3\";\nmessage Foo { int32 x = 1; }"),
        SchemaFormat::Protobuf
    );
    assert_eq!(detect_schema_format("syntax = 'proto2';\nmessage Bar {}"), SchemaFormat::Protobuf);
    assert_eq!(detect_schema_format("edition = \"2023\";\nmessage Baz {}"), SchemaFormat::Protobuf);
}

#[test]
fn test_detect_schema_format_fbs() {
    assert_eq!(
        detect_schema_format("table Monster { hp:int; } root_type Monster;"),
        SchemaFormat::FlatBuffers
    );
    assert_eq!(detect_schema_format("namespace MyGame;\ntable T {}"), SchemaFormat::FlatBuffers);
}

#[test]
fn test_detect_proto_message_without_syntax_line() {
    assert_eq!(detect_schema_format("message Foo { int32 x = 1; }"), SchemaFormat::Protobuf);
    assert_eq!(detect_schema_format("message Foo { string s = 1; }"), SchemaFormat::Protobuf);
    assert_eq!(detect_schema_format(""), SchemaFormat::FlatBuffers);
    assert_eq!(detect_schema_format("message Foo { bool b = 1; }"), SchemaFormat::FlatBuffers);
    assert_eq!(detect_schema_format("table message { s: string; }"), SchemaFormat::FlatBuffers);
}

#[test]
fn test_every_template_is_flatbuffers_with_root_type() {
    for t in all() {
        assert_eq!(detect_schema_format(t.schema), SchemaFormat::FlatBuffers, "{}", t.name);
        assert!(t.schema.contains("root_type "), "{}", t.name);
        assert!(serde_json::from_str::<serde_json::Value>(t.json_data).unwrap().is_object(), "{}", t.name);
    }
}

// ---------------------------------------------------------------------------
// Further behaviour of the state machine
// ---------------------------------------------------------------------------

#[test]
fn test_default_state_holds_first_template() {
    let state = AppState::default();
    assert_eq!(state.schema_text, MONSTER_SCHEMA);
    assert_eq!(state.data_text, MONSTER_JSON);
    assert_eq!(state.schema_text, all()[0].schema);
    assert!(state.event_log.is_empty());
}

#[test]
fn test_event_log_keeps_last_two_hundred() {
    let mut state = AppState::default();
    for i in 0..250usize {
        state.dispatch(Command::ClickRegion(i));
    }
    assert_eq!(state.event_log.len(), 200);
    assert_eq!(state.event_log[0].command, "ClickRegion(50)");
    assert_eq!(state.event_log[199].command, "ClickRegion(249)");
}

#[test]
fn test_switch_to_same_format_is_logged_without_effects() {
    let mut state = AppState::default();
    let effects = state.dispatch(Command::SwitchDataFormat(DataFormat::Json));
    assert!(effects.is_empty());
    assert_eq!(state.event_log.len(), 1);
    assert_eq!(state.event_log[0].command, "SwitchDataFormat(Json)");
    assert!(state.event_log[0].effects.is_empty());
    let effects = state.dispatch(Command::SwitchDataFormat(DataFormat::Binary));
    assert_eq!(effects.len(), 1);
    assert!(matches!(&effects[0], Effect::CompileSchema { .. }));
    assert_eq!(state.event_log.len(), 2);
    assert_eq!(state.event_log[1].command, "SwitchDataFormat(Binary)");
    assert_eq!(state.event_log[1].effects, vec!["CompileSchema".to_string()]);
}

#[test]
fn test_every_command_is_logged_in_order() {
    let mut state = AppState::default();
    state.dispatch(Command::ToggleSchemaJson);
    state.dispatch(Command::ClickRegion(3));
    let names: Vec<&str> = state.event_log.iter().map(|e| e.command.as_str()).collect();
    assert_eq!(names, vec!["ToggleSchemaJson", "ClickRegion(3)"]);
}

#[test]
fn test_compile_and_encode_detects_protobuf() {
    let mut state = AppState::default();
    state.schema_text = "syntax = \"proto3\";\nmessage A {}".to_string();
    let effects = state.dispatch(Command::CompileAndEncode);
    assert_eq!(state.schema_format, SchemaFormat::Protobuf);
    assert!(matches!(&effects[0], Effect::CompileProtoSchema { source } if source == &state.schema_text));
}

#[test]
fn test_share_link_loads_back_into_fresh_state() {
    let mut state = AppState::default();
    state.schema_text = "table T { x:int; } root_type T;".to_string();
    state.data_text = "0a 0b".to_string();
    state.data_format = DataFormat::Binary;
    let effects = state.dispatch(Command::CopyShareLink);
    assert_eq!(state.status_message, "Share link copied to clipboard.");
    assert_eq!(state.toast_message.as_deref(), Some("Link copied to clipboard!"));
    assert_eq!(state.toast_frames_remaining, 120);
    assert_eq!(effects.len(), 2);
    let url_value = match &effects[0] {
        Effect::SetUrlQueryParam { key, value } => {
            assert_eq!(key, "data");
            value.clone()
        }
        other => panic!("unexpected effect {other:?}"),
    };
    match &effects[1] {
        Effect::CopyToClipboard { text } => assert_eq!(text, &url_value),
        other => panic!("unexpected effect {other:?}"),
    }

    let mut fresh = AppState::default();
    fresh.root_type_name = "Old".to_string();
    fresh.locked_region = Some(1);
    let effects = fresh.dispatch(Command::LoadFromPermalink(url_value));
    assert_eq!(fresh.schema_text, "table T { x:int; } root_type T;");
    assert_eq!(fresh.data_text, "0a 0b");
    assert_eq!(fresh.data_format, DataFormat::Binary);
    assert!(fresh.root_type_name.is_empty());
    assert!(fresh.locked_region.is_none());
    assert_eq!(fresh.status_message, "Loaded from shared link.");
    assert!(matches!(&effects[0], Effect::CompileSchema { source } if source == "table T { x:int; } root_type T;"));
}

#[test]
fn test_toast_disappears_after_its_frames() {
    let mut state = AppState::default();
    state.dispatch(Command::CopyShareLink);
    for _ in 0..119 {
        state.tick_toast();
    }
    assert!(state.toast_message.is_some());
    state.tick_toast();
    assert!(state.toast_message.is_none());
    assert_eq!(state.toast_frames_remaining, 0);
    state.tick_toast();
    assert_eq!(state.toast_frames_remaining, 0);
}

#[test]
fn test_hover_and_lock_describe_region() {
    let mut state = AppState::default();
    state.annotations = Some(vec![
        region(0, 4, &["Monster"], "root"),
        region(0x24, 0x26, &["Monster", "mana"], "200"),
    ]);
    state.annotation_type_names = vec!["root_offset".to_string(), "scalar".to_string()];
    state.dispatch(Command::HoverRegion(Some(1)));
    assert_eq!(state.status_message, "0x0024..0x0026 | Monster.mana | scalar | 200");
    state.dispatch(Command::ClickRegion(0));
    assert_eq!(state.status_message, "[locked] 0x0000..0x0004 | Monster | root_offset | root");
    state.dispatch(Command::HoverRegion(Some(9)));
    assert_eq!(state.status_message, "[locked] 0x0000..0x0004 | Monster | root_offset | root");
    assert_eq!(state.event_log[2].command, "HoverRegion(Some(9))");
}

#[test]
fn test_set_binary_data_walks_with_schema_root() {
    let mut state = AppState::default();
    let schema = Schema {
        objects: vec![Object {
            name: Some("Monster".to_string()),
            fields: vec![],
            is_struct: false,
            min_align: None,
            byte_size: None,
        }],
        enums: vec![],
        file_ident: None,
        root_table_index: Some(0),
    };
    state.compiled_schema = Some(Arc::new(schema));
    let effects = state.dispatch(Command::SetBinaryData(vec![1, 2, 3]));
    assert_eq!(state.status_message, "Loaded 3 bytes. Walking binary...");
    assert_eq!(state.binary_data, Some(vec![1, 2, 3]));
    match &effects[0] {
        Effect::WalkBinary { binary, root_type_name, .. } => {
            assert_eq!(binary, &vec![1, 2, 3]);
            assert_eq!(root_type_name, "Monster");
        }
        other => panic!("unexpected effect {other:?}"),
    }
    assert_eq!(state.event_log[0].command, "SetBinaryData(3 bytes)");
    assert_eq!(state.event_log[0].effects, vec!["WalkBinary".to_string()]);
}

#[test]
fn test_proto_schema_compiled_sets_first_message_as_root() {
    let mut state = AppState::default();
    state.data_format = DataFormat::Binary;
    state.data_text = "08 01".to_string();
    let effects = state.dispatch(Command::ProtoSchemaCompiled {
        schema: Box::new(fbsviewer::proto::ProtoSchema { file: vec![] }),
        schema_json: "2 messages in 1 files".to_string(),
        root_message_names: vec![".a.B".to_string(), ".a.C".to_string()],
    });
    assert_eq!(state.root_type_name, ".a.B");
    assert_eq!(state.status_message, "Proto schema compiled (2 messages).");
    assert!(matches!(&effects[0], Effect::ParseHexData { hex_text } if hex_text == "08 01"));
    assert_eq!(state.event_log[0].command, "ProtoSchemaCompiled(2 messages)");

    let mut json_state = AppState::default();
    let effects = json_state.dispatch(Command::ProtoSchemaCompiled {
        schema: Box::new(fbsviewer::proto::ProtoSchema { file: vec![] }),
        schema_json: String::new(),
        root_message_names: vec![],
    });
    assert!(effects.is_empty());
    assert_eq!(
        json_state.status_message,
        "Proto schema compiled. Paste hex binary data and switch to Binary mode."
    );
}

#[test]
fn test_binary_walked_reports_counts_and_syncs_url() {
    let mut state = AppState::default();
    state.binary_data = Some(vec![0; 12]);
    let effects = state.dispatch(Command::BinaryWalked {
        annotations: vec![region(0, 4, &["T"], "x")],
        region_type_names: vec!["root_offset".to_string()],
        decoded_json: "{}".to_string(),
    });
    assert_eq!(state.status_message, "12 bytes, 1 regions. Hover to explore.");
    assert_eq!(state.decoded_json, "{}");
    assert!(matches!(&effects[0], Effect::SetUrlQueryParam { key, .. } if key == "data"));
    assert_eq!(state.event_log[0].command, "BinaryWalked(1 regions)");
}

#[test]
fn test_error_commands_set_messages() {
    let mut state = AppState::default();
    state.dispatch(Command::EncodeError("bad".to_string()));
    assert_eq!(state.encode_error.as_deref(), Some("bad"));
    assert_eq!(state.status_message, "Encode error: bad");
    state.dispatch(Command::WalkError("short".to_string()));
    assert_eq!(state.encode_error.as_deref(), Some("walker error: short"));
    assert_eq!(state.status_message, "Walker error: short");
    state.dispatch(Command::SchemaCompileError("oops".to_string()));
    assert_eq!(state.status_message, "Compile error: oops");
    assert_eq!(state.event_log[2].command, "SchemaCompileError(oops)");
}

#[test]
fn test_generate_random_seed_wraps() {
    let mut state = AppState::default();
    state.dispatch(Command::GenerateRandom { seed: u64::MAX });
    assert_eq!(state.random_seed_counter, 0);
    assert_eq!(state.event_log[0].effects, vec![format!("GenerateRandomSchemaAndData(seed={})", u64::MAX)]);
}

#[test]
fn test_command_and_effect_descriptions() {
    let c = Command::SchemaCompiled {
        schema: Box::new(empty_schema()),
        schema_json: String::new(),
        root_type_name: Some("Monster".to_string()),
    };
    assert_eq!(c.describe(), "SchemaCompiled(root=Some(\"Monster\"))");
    assert_eq!(Command::HoverRegion(None).describe(), "HoverRegion(None)");
    assert_eq!(Command::JsonEncoded(vec![1, 2]).describe(), "JsonEncoded(2 bytes)");
    assert_eq!(Command::LoadFromPermalink("x".to_string()).describe(), "LoadFromPermalink(...)");
    assert_eq!(Effect::GenerateRandomSchemaAndData { seed: 7 }.describe(), "GenerateRandomSchemaAndData(seed=7)");
    assert_eq!(Effect::ParseHexData { hex_text: "00".to_string() }.describe(), "ParseHexData");
}

#[test]
fn test_select_template_out_of_range_does_nothing_but_log() {
    let mut state = AppState::default();
    let effects = state.dispatch(Command::SelectTemplate(12));
    assert!(effects.is_empty());
    assert_eq!(state.selected_template_idx, 0);
    assert_eq!(state.event_log.len(), 1);
    let effects = state.dispatch(Command::SelectTemplate(11));
    assert_eq!(state.schema_text, all()[11].schema);
    assert!(matches!(&effects[0], Effect::CompileSchema { source } if source == all()[11].schema));
}

// ---------------------------------------------------------------------------
// Running effects: the library's own encoder answers `EncodeJson` and
// `ParseHexData`; the schema compiler and the walker are stood in for by
// fixed answers for the one schema these tests compile.
// ---------------------------------------------------------------------------

const T_SCHEMA: &str = "table T { x:int; } root_type T;";

fn scalar(bt: BaseType) -> Option<FieldType> {
    Some(FieldType { base_type: Some(bt), element_type: None, index: None })
}

fn table_field(name: &str, type_: Option<FieldType>, id: u16) -> Field {
    Field { name: Some(name.to_string()), type_, id: Some(id), offset: None }
}

fn t_schema() -> Schema {
    Schema {
        objects: vec![Object {
            name: Some("T".to_string()),
            fields: vec![table_field("x", scalar(BaseType::BASE_TYPE_INT), 0)],
            is_struct: false,
            min_align: None,
            byte_size: None,
        }],
        enums: vec![],
        file_ident: None,
        root_table_index: Some(0),
    }
}

/// The compiled form of the Monster template's schema.
fn monster_schema() -> Schema {
    let float_at = |name: &str, offset: u16| Field {
        name: Some(name.to_string()),
        type_: scalar(BaseType::BASE_TYPE_FLOAT),
        id: None,
        offset: Some(offset),
    };
    let vec3 = Object {
        name: Some("MyGame.Vec3".to_string()),
        fields: vec![float_at("x", 0), float_at("y", 4), float_at("z", 8)],
        is_struct: true,
        min_align: Some(4),
        byte_size: Some(12),
    };
    let monster = Object {
        name: Some("MyGame.Monster".to_string()),
        fields: vec![
            table_field("pos", Some(FieldType { base_type: Some(BaseType::BASE_TYPE_STRUCT), element_type: None, index: Some(0) }), 0),
            table_field("mana", scalar(BaseType::BASE_TYPE_SHORT), 1),
            table_field("hp", scalar(BaseType::BASE_TYPE_SHORT), 2),
            table_field("name", scalar(BaseType::BASE_TYPE_STRING), 3),
            table_field("color", Some(FieldType { base_type: Some(BaseType::BASE_TYPE_BYTE), element_type: None, index: Some(0) }), 4),
            table_field(
                "inventory",
                Some(FieldType { base_type: Some(BaseType::BASE_TYPE_VECTOR), element_type: Some(BaseType::BASE_TYPE_U_BYTE), index: None }),
                5,
            ),
        ],
        is_struct: false,
        min_align: None,
        byte_size: None,
    };
    let value = |name: &str, v: i64| EnumVal { name: Some(name.to_string()), value: Some(v), union_type: None };
    Schema {
        objects: vec![vec3, monster],
        enums: vec![Enum { name: Some("MyGame.Color".to_string()), values: vec![value("Red", 1), value("Green", 2), value("Blue", 3)] }],
        file_ident: None,
        root_table_index: Some(1),
    }
}

fn to_json(v: &serde_json::Value) -> JsonValue {
    match v {
        serde_json::Value::Null => JsonValue::Null,
        serde_json::Value::Bool(b) => JsonValue::Bool(*b),
        serde_json::Value::Number(n) => {
            let f = n.as_f64().unwrap_or(0.0);
            let int = if let Some(u) = n.as_u64() {
                NumberInt::PosInt(u)
            } else if let Some(i) = n.as_i64() {
                NumberInt::NegInt(i)
            } else {
                NumberInt::NotInt
            };
            JsonValue::Number(JsonNumber {
                int,
                float: FloatForms { f64_bits: f.to_bits(), f32_bits: (f as f32).to_bits(), to_i64: f as i64, to_u64: f as u64 },
            })
        }
        serde_json::Value::String(s) => JsonValue::String(s.clone()),
        serde_json::Value::Array(a) => JsonValue::Array(a.iter().map(to_json).collect()),
        serde_json::Value::Object(m) => JsonValue::Object(m.iter().map(|(k, v)| (k.clone(), to_json(v))).collect()),
    }
}

fn answer(effect: Effect) -> Option<Command> {
    match effect {
        Effect::CompileSchema { source } => Some(if source == T_SCHEMA {
            Command::SchemaCompiled { schema: Box::new(t_schema()), schema_json: "{}".to_string(), root_type_name: Some("T".to_string()) }
        } else if source == MONSTER_SCHEMA {
            Command::SchemaCompiled {
                schema: Box::new(monster_schema()),
                schema_json: "{}".to_string(),
                root_type_name: Some("MyGame.Monster".to_string()),
            }
        } else {
            Command::SchemaCompileError("no compiler for this schema here".to_string())
        }),
        Effect::EncodeJson { json_text, schema, root_type_name } => {
            let parsed = serde_json::from_str::<serde_json::Value>(&json_text).map(|v| to_json(&v)).map_err(|e| e.to_string());
            Some(encode_json_command(parsed, &schema, &root_type_name))
        }
        Effect::ParseHexData { hex_text } => Some(parse_hex_command(&hex_text)),
        Effect::WalkBinary { binary, schema, .. } => {
            let decoded = if schema.objects.len() == 1 { r#"{"x": 42}"# } else { MONSTER_JSON };
            Some(Command::BinaryWalked {
                annotations: vec![region(0, 4, &[], "root"), region(4, binary.len(), &["x"], "rest")],
                region_type_names: vec!["Padding".to_string(), "Padding".to_string()],
                decoded_json: decoded.to_string(),
            })
        }
        _ => None,
    }
}

fn run_with_effects(state: &mut AppState, cmd: Command) {
    for effect in state.dispatch(cmd) {
        if let Some(next) = answer(effect) {
            run_with_effects(state, next);
        }
    }
}

#[test]
fn test_pipeline_with_fixed_compiler_and_walker_answers() {
    let mut state = AppState::default();
    run_with_effects(&mut state, Command::CompileAndEncode);

    assert!(state.compiled_schema.is_some(), "Schema should compile successfully");
    assert!(state.compile_failure.is_none());
    assert!(state.binary_data.is_some(), "Binary data should be produced");
    assert!(state.encode_error.is_none());
    assert!(state.annotations.is_some(), "Annotations should be produced");
    assert!(!state.decoded_json.is_empty());
    let annotations = state.annotations.as_ref().unwrap();
    assert!(!annotations.is_empty(), "Should have at least one annotation region");
}

#[test]
fn test_format_switch_roundtrip_with_fixed_answers() {
    let mut state = AppState::default();
    run_with_effects(&mut state, Command::CompileAndEncode);
    let first_binary = state.binary_data.clone().unwrap();
    let first_annotations_count = state.annotations.as_ref().unwrap().len();

    run_with_effects(&mut state, Command::SwitchDataFormat(DataFormat::Binary));
    assert_eq!(state.data_format, DataFormat::Binary);
    assert!(state.annotations.is_some(), "Annotations must survive JSON->Hex switch");
    let hex_binary = state.binary_data.clone().unwrap();
    assert_eq!(first_binary, hex_binary, "Binary data must be identical after format switch");

    run_with_effects(&mut state, Command::SwitchDataFormat(DataFormat::Json));
    assert_eq!(state.data_format, DataFormat::Json);
    assert!(state.annotations.is_some(), "Annotations must survive Hex->JSON switch");
    assert_eq!(
        state.annotations.as_ref().unwrap().len(),
        first_annotations_count,
        "Annotation count must match after round-trip"
    );
}

#[test]
fn test_copy_share_link_produces_effects() {
    let mut state = AppState::default();
    run_with_effects(&mut state, Command::CompileAndEncode);
    let effects = state.dispatch(Command::CopyShareLink);
    assert!(
        effects.iter().any(|e| matches!(e, Effect::CopyToClipboard { .. })),
        "CopyShareLink should produce CopyToClipboard effect"
    );
    assert!(
        effects.iter().any(|e| matches!(e, Effect::SetUrlQueryParam { .. })),
        "CopyShareLink should produce SetUrlQueryParam effect"
    );
    assert!(state.status_message.contains("clipboard"));
}

#[test]
fn test_permalink_round_trip_through_state() {
    let mut state = AppState::default();
    state.schema_text = "table T { x:int; } root_type T;".to_string();
    state.data_text = r#"{"x": 42}"#.to_string();
    state.data_format = DataFormat::Json;

    let effects = state.dispatch(Command::CopyShareLink);
    let encoded = effects
        .iter()
        .find_map(|e| match e {
            Effect::SetUrlQueryParam { key, value } if key == "data" => Some(value.clone()),
            _ => None,
        })
        .expect("should have SetUrlQueryParam effect with key 'data'");

    let mut state2 = AppState::default();
    run_with_effects(&mut state2, Command::LoadFromPermalink(encoded));
    assert_eq!(state2.schema_text, "table T { x:int; } root_type T;");
    assert_eq!(state2.data_text, r#"{"x": 42}"#);
    assert_eq!(state2.data_format, DataFormat::Json);
    assert!(state2.compiled_schema.is_some(), "should auto-compile after loading permalink");
    assert!(state2.annotations.is_some(), "should auto-walk after loading permalink");
}

#[test]
fn test_compile_and_encode_runs_through_to_binary() {
    let mut state = AppState::default();
    state.schema_text = T_SCHEMA.to_string();
    state.data_text = r#"{"x": 42}"#.to_string();
    run_with_effects(&mut state, Command::CompileAndEncode);
    assert_eq!(state.root_type_name, "T");
    assert_eq!(
        state.binary_data.as_deref(),
        Some(&[0x0Cu8, 0, 0, 0, 6, 0, 8, 0, 4, 0, 0, 0, 8, 0, 0, 0, 42, 0, 0, 0][..])
    );
    assert_eq!(state.annotations.as_ref().map(|a| a.len()), Some(2));
}
