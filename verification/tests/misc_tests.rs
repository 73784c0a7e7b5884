use fbsviewer::cli::{choose_root_type, is_hex_input, schema_source_for_extension, SchemaSource};
use fbsviewer::effects::{
    binary_file_command, encode_json_command, parse_hex_command, proto_compiled_command, schema_file_command,
    schema_upload_command,
};
use fbsviewer::json::JsonValue;
use fbsviewer::proto::{ProtoFile, ProtoSchema};
use fbsviewer::schema::{extract_root_type_name, schema_is_wf, BaseType, Field, FieldType, Object, Schema};
use fbsviewer::state::{AppState, Command, DataFormat};
use fbsviewer::templates::all;
use fbsviewer::url::{data_param_values, pick_permalink, query_url, share_url, startup_command};
use fbsviewer::view::{data_format_label, emit_interaction_commands, format_choice_label, ToolbarInput};

fn int_field(name: &str, id: u16) -> Field {
    Field {
        name: Some(name.to_string()),
        type_: Some(FieldType { base_type: Some(BaseType::BASE_TYPE_INT), element_type: None, index: None }),
        id: Some(id),
        offset: None,
    }
}

fn one_table(fields: Vec<Field>) -> Schema {
    Schema {
        objects: vec![Object { name: Some("T".to_string()), fields, is_struct: false, min_align: None, byte_size: None }],
        enums: vec![],
        file_ident: None,
        root_table_index: Some(0),
    }
}

#[test]
fn test_templates_listed_in_order() {
    let t = all();
    let names: Vec<&str> = t.iter().map(|t| t.name).collect();
    assert_eq!(
        names,
        vec![
            "Monster",
            "Simple Scalars",
            "Nested Structs",
            "String Fields",
            "Nested Tables",
            "Union",
            "Vector of Tables",
            "Vector of Strings",
            "All Scalar Types",
            "Default Values",
            "Vector of Structs",
            "File Identifier",
        ]
    );
    assert_eq!(t[0].description, "Struct, enum, string, vector of scalars");
    assert!(t[0].schema.contains("root_type Monster;"));
    assert!(t[11].json_data.starts_with('{'));
}

#[test]
fn test_schema_sources() {
    assert_eq!(schema_source_for_extension("fbs"), Ok(SchemaSource::Fbs));
    assert_eq!(schema_source_for_extension("json"), Ok(SchemaSource::Json));
    assert_eq!(schema_source_for_extension("proto"), Ok(SchemaSource::Proto));
    assert_eq!(
        schema_source_for_extension("txt"),
        Err("unsupported schema file extension '.txt': expected .fbs, .json, or .proto".to_string())
    );
    assert_eq!(
        schema_source_for_extension(""),
        Err("unsupported schema file extension '.': expected .fbs, .json, or .proto".to_string())
    );
}

#[test]
fn test_hex_input_detection() {
    assert!(is_hex_input(true, Some("bin")));
    assert!(is_hex_input(false, Some("hex")));
    assert!(is_hex_input(false, Some("txt")));
    assert!(!is_hex_input(false, Some("bin")));
    assert!(!is_hex_input(false, None));
}

#[test]
fn test_root_type_choice() {
    assert_eq!(choose_root_type(Some("A".to_string()), Some("B".to_string())), Some("A".to_string()));
    assert_eq!(choose_root_type(None, Some("B".to_string())), Some("B".to_string()));
    assert_eq!(choose_root_type(None, None), None);
}

#[test]
fn test_parse_hex_command() {
    assert!(matches!(parse_hex_command("14 00"), Command::SetBinaryData(b) if b == vec![0x14, 0x00]));
    assert!(matches!(parse_hex_command(""), Command::EncodeError(m) if m == "no hex bytes found in input"));
    assert!(matches!(parse_hex_command("14 qq"), Command::EncodeError(m) if m == "invalid hex byte 'qq' at position 1"));
}

#[test]
fn test_encode_json_command() {
    let schema = one_table(vec![int_field("a", 0)]);
    let c = encode_json_command(Err("EOF while parsing".to_string()), &schema, "T");
    assert!(matches!(c, Command::EncodeError(m) if m == "Invalid JSON: EOF while parsing"));
    let c = encode_json_command(Ok(JsonValue::Object(vec![])), &schema, "T");
    assert!(matches!(c, Command::JsonEncoded(b) if b == vec![0x0C, 0, 0, 0, 6, 0, 4, 0, 0, 0, 0, 0, 8, 0, 0, 0]));
    let c = encode_json_command(Ok(JsonValue::Null), &schema, "U");
    assert!(matches!(c, Command::EncodeError(m) if m == "root type 'U' not found in schema"));
}

#[test]
fn test_proto_compiled_command() {
    let fds = ProtoSchema {
        file: vec![ProtoFile { package: Some("p".to_string()), message_names: vec![Some("A".to_string()), Some("B".to_string())] }],
    };
    match proto_compiled_command(fds) {
        Command::ProtoSchemaCompiled { schema, schema_json, root_message_names } => {
            assert_eq!(schema.file.len(), 1);
            assert_eq!(schema_json, "2 messages in 1 files");
            assert_eq!(root_message_names, vec![".p.A".to_string(), ".p.B".to_string()]);
        }
        other => panic!("unexpected command {other:?}"),
    }
}

#[test]
fn test_schema_well_formedness() {
    assert!(schema_is_wf(&one_table(vec![int_field("a", 0), int_field("b", 1)])));
    assert!(!schema_is_wf(&one_table(vec![int_field("a", 1), int_field("b", 1)])));
    let mut s = one_table(vec![]);
    s.objects[0].is_struct = true;
    s.objects[0].byte_size = Some(4);
    s.objects[0].fields.push(Field { offset: Some(8), ..int_field("x", 0) });
    assert!(!schema_is_wf(&s));
}

#[test]
fn test_root_type_of_schema() {
    let mut s = one_table(vec![]);
    assert_eq!(extract_root_type_name(&s), Some("T".to_string()));
    s.root_table_index = Some(3);
    assert_eq!(extract_root_type_name(&s), None);
    s.root_table_index = None;
    assert_eq!(extract_root_type_name(&s), None);
}

#[test]
fn test_view_decisions() {
    assert_eq!(data_format_label(DataFormat::Json), "Data (JSON)");
    assert_eq!(data_format_label(DataFormat::Binary), "Data (Hex bytes)");
    let c = emit_interaction_commands(Some(1), Some(2), Some(4));
    assert_eq!(c.len(), 2);
    assert!(matches!(c[0], Command::ClickRegion(4)));
    assert!(matches!(c[1], Command::HoverRegion(Some(2))));
    assert!(emit_interaction_commands(Some(1), Some(1), None).is_empty());
    assert!(matches!(emit_interaction_commands(Some(1), None, None)[0], Command::HoverRegion(None)));
}

#[test]
fn test_structure_expand_collapse() {
    let mut state = AppState::default();
    state.set_structure_all_open(true);
    assert_eq!(state.structure_tree_gen, 1);
    assert_eq!(state.structure_all_open, Some(true));
    state.set_structure_all_open(false);
    assert_eq!(state.structure_tree_gen, 2);
    assert_eq!(state.structure_all_open, Some(false));
}

#[test]
fn test_toolbar_commands_in_widget_order() {
    let mut state = AppState::default();
    state.random_seed_counter = 7;
    let none = ToolbarInput {
        selected_template: 0,
        compile_clicked: false,
        random_clicked: false,
        share_clicked: false,
        data_format: DataFormat::Json,
    };
    assert!(state.toolbar_commands(none).is_empty());
    let all_at_once = ToolbarInput {
        selected_template: 3,
        compile_clicked: true,
        random_clicked: true,
        share_clicked: true,
        data_format: DataFormat::Binary,
    };
    let c = state.toolbar_commands(all_at_once);
    assert_eq!(c.len(), 5);
    assert!(matches!(c[0], Command::SelectTemplate(3)));
    assert!(matches!(c[1], Command::CompileAndEncode));
    assert!(matches!(c[2], Command::GenerateRandom { seed: 7 }));
    assert!(matches!(c[3], Command::CopyShareLink));
    assert!(matches!(c[4], Command::SwitchDataFormat(DataFormat::Binary)));
    assert_eq!(format_choice_label(DataFormat::Json), "JSON");
    assert_eq!(format_choice_label(DataFormat::Binary), "Hex");
}

#[test]
fn test_view_parts_follow_state() {
    let mut state = AppState::default();
    let p = state.view_parts();
    assert_eq!(p.schema_json_button, None);
    assert_eq!(p.decoded_json_button, None);
    assert!(!p.tree_buttons && !p.unlock_button);
    assert_eq!(p.tree_placeholder, Some("No data loaded. Click 'Compile & Encode' to start."));
    assert_eq!(p.hex_placeholder, Some("No binary data."));

    state.compiled_schema = Some(std::sync::Arc::new(one_table(vec![int_field("x", 0)])));
    state.show_schema_json = true;
    state.schema_json_output = "{}".to_string();
    state.binary_data = Some(vec![1, 2]);
    let p = state.view_parts();
    assert_eq!(p.schema_json_button, Some("Hide JSON"));
    assert!(p.schema_json_panel);
    assert_eq!(p.hex_placeholder, Some("Binary data loaded but no annotations."));

    state.annotations = Some(vec![]);
    state.decoded_json = "{}".to_string();
    state.locked_region = Some(0);
    let p = state.view_parts();
    assert_eq!(p.decoded_json_button, Some("View Decoded"));
    assert!(!p.decoded_json_panel);
    assert!(p.tree_buttons && p.unlock_button);
    assert_eq!(p.tree_placeholder, None);
    assert_eq!(p.hex_placeholder, None);
}

#[test]
fn test_data_params_of_query_string() {
    assert_eq!(data_param_values("?data=abc&x=1&data="), vec!["abc".to_string(), String::new()]);
    assert_eq!(data_param_values("data=zz"), vec!["zz".to_string()]);
    assert_eq!(data_param_values("?x=data=1&&dat=2"), Vec::<String>::new());
    assert!(data_param_values("").is_empty());
    assert!(data_param_values("?").is_empty());
}

#[test]
fn test_startup_picks_first_nonempty_link() {
    let picked = pick_permalink(vec![None, Some(String::new()), Some("q1".to_string()), Some("q2".to_string())]);
    assert_eq!(picked.as_deref(), Some("q1"));
    assert_eq!(pick_permalink(vec![None, Some(String::new())]), None);
    assert!(matches!(startup_command(Some("abc".to_string())), Command::LoadFromPermalink(ref d) if d == "abc"));
    assert!(matches!(startup_command(Some(String::new())), Command::CompileAndEncode));
    assert!(matches!(startup_command(None), Command::CompileAndEncode));
}

#[test]
fn test_share_and_query_urls() {
    assert_eq!(share_url("https://x.io", "/viz/", "AbC"), "https://x.io/viz/?data=AbC");
    assert_eq!(query_url("/viz/", "data", "AbC"), "/viz/?data=AbC");
}

#[test]
fn test_file_load_commands() {
    assert!(matches!(schema_file_command(Ok("table T {}".to_string())), Command::LoadSchemaText(ref t) if t == "table T {}"));
    assert!(matches!(schema_file_command(Err("gone".to_string())), Command::SchemaCompileError(ref e) if e == "failed to read file: gone"));
    assert!(matches!(binary_file_command(Ok(vec![1, 2])), Command::SetBinaryData(ref d) if d == &vec![1u8, 2]));
    assert!(matches!(binary_file_command(Err("gone".to_string())), Command::EncodeError(ref e) if e == "failed to read file: gone"));
    assert!(matches!(
        schema_upload_command(Err("bad byte".to_string())),
        Command::SchemaCompileError(ref e) if e == "Invalid UTF-8 in schema file: bad byte"
    ));
    assert!(matches!(schema_upload_command(Ok("x".to_string())), Command::LoadSchemaText(ref t) if t == "x"));
}
