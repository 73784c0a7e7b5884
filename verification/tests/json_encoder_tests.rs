use fbsviewer::encoder::{encode_json, JsonEncodeError};
use fbsviewer::json::{FloatForms, JsonNumber, JsonValue, NumberInt};
use fbsviewer::schema::{BaseType, Enum, EnumVal, Field, FieldType, Object, Schema};

fn number(n: &serde_json::Number) -> JsonNumber {
    let f = n.as_f64().unwrap_or(0.0);
    let int = if let Some(u) = n.as_u64() {
        NumberInt::PosInt(u)
    } else if let Some(i) = n.as_i64() {
        NumberInt::NegInt(i)
    } else {
        NumberInt::NotInt
    };
    JsonNumber {
        int,
        float: FloatForms {
            f64_bits: f.to_bits(),
            f32_bits: (f as f32).to_bits(),
            to_i64: f as i64,
            to_u64: f as u64,
        },
    }
}

fn to_json(v: &serde_json::Value) -> JsonValue {
    match v {
        serde_json::Value::Null => JsonValue::Null,
        serde_json::Value::Bool(b) => JsonValue::Bool(*b),
        serde_json::Value::Number(n) => JsonValue::Number(number(n)),
        serde_json::Value::String(s) => JsonValue::String(s.clone()),
        serde_json::Value::Array(a) => JsonValue::Array(a.iter().map(to_json).collect()),
        serde_json::Value::Object(m) => {
            JsonValue::Object(m.iter().map(|(k, v)| (k.clone(), to_json(v))).collect())
        }
    }
}

fn json(text: &str) -> JsonValue {
    to_json(&serde_json::from_str::<serde_json::Value>(text).unwrap())
}

fn ty(bt: BaseType) -> Option<FieldType> {
    Some(FieldType { base_type: Some(bt), element_type: None, index: None })
}

fn field(name: &str, t: Option<FieldType>, id: u16) -> Field {
    Field { name: Some(name.to_string()), type_: t, id: Some(id), offset: None }
}

fn table(name: &str, fields: Vec<Field>) -> Object {
    Object { name: Some(name.to_string()), fields, is_struct: false, min_align: None, byte_size: None }
}

fn simple_scalars_schema() -> Schema {
    Schema {
        objects: vec![table(
            "Config",
            vec![
                field("debug", ty(BaseType::BASE_TYPE_BOOL), 0),
                field("volume", ty(BaseType::BASE_TYPE_INT), 1),
                field("brightness", ty(BaseType::BASE_TYPE_FLOAT), 2),
            ],
        )],
        enums: vec![],
        file_ident: None,
        root_table_index: Some(0),
    }
}

fn monster_schema() -> Schema {
    let float_at = |name: &str, offset: u16| Field {
        name: Some(name.to_string()),
        type_: ty(BaseType::BASE_TYPE_FLOAT),
        id: None,
        offset: Some(offset),
    };
    let vec3 = Object {
        name: Some("Vec3".to_string()),
        fields: vec![float_at("x", 0), float_at("y", 4), float_at("z", 8)],
        is_struct: true,
        min_align: Some(4),
        byte_size: Some(12),
    };
    let monster = table(
        "Monster",
        vec![
            field("pos", Some(FieldType { base_type: Some(BaseType::BASE_TYPE_STRUCT), element_type: None, index: Some(0) }), 0),
            field("mana", ty(BaseType::BASE_TYPE_SHORT), 1),
            field("hp", ty(BaseType::BASE_TYPE_SHORT), 2),
            field("name", ty(BaseType::BASE_TYPE_STRING), 3),
            field("color", Some(FieldType { base_type: Some(BaseType::BASE_TYPE_BYTE), element_type: None, index: Some(0) }), 4),
            field(
                "inventory",
                Some(FieldType {
                    base_type: Some(BaseType::BASE_TYPE_VECTOR),
                    element_type: Some(BaseType::BASE_TYPE_U_BYTE),
                    index: None,
                }),
                5,
            ),
        ],
    );
    let value = |name: &str, v: i64| EnumVal { name: Some(name.to_string()), value: Some(v), union_type: None };
    Schema {
        objects: vec![vec3, monster],
        enums: vec![Enum { name: Some("Color".to_string()), values: vec![value("Red", 1), value("Green", 2), value("Blue", 3)] }],
        file_ident: None,
        root_table_index: Some(1),
    }
}

fn hex(text: &str) -> Vec<u8> {
    text.split_whitespace().map(|t| u8::from_str_radix(t, 16).unwrap()).collect()
}

#[test]
fn test_error_root_type_not_found() {
    let schema = simple_scalars_schema();
    let err = encode_json(&json("{}"), &schema, "NonExistent").unwrap_err();
    assert!(err.describe().contains("not found"));
}

#[test]
fn test_error_expected_object() {
    let schema = simple_scalars_schema();
    let err = encode_json(&json("[1, 2, 3]"), &schema, "Config").unwrap_err();
    assert!(err.describe().contains("expected JSON object"));
}

#[test]
fn test_error_type_mismatch() {
    let schema = simple_scalars_schema();
    let err = encode_json(&json(r#"{"volume": "not_a_number"}"#), &schema, "Config").unwrap_err();
    assert!(
        err.describe().contains("expected") || err.describe().contains("number"),
        "error: {}",
        err.describe()
    );
}

// ---------------------------------------------------------------------------
// Byte layout
// ---------------------------------------------------------------------------

#[test]
fn test_two_field_table_layout() {
    let schema = Schema {
        objects: vec![table(
            "TwoFields",
            vec![field("count", ty(BaseType::BASE_TYPE_INT), 0), field("active", ty(BaseType::BASE_TYPE_BOOL), 1)],
        )],
        enums: vec![],
        file_ident: None,
        root_table_index: Some(0),
    };
    let bytes = encode_json(&json(r#"{"count": 99, "active": true}"#), &schema, "TwoFields").unwrap();
    assert_eq!(bytes, hex("0C 00 00 00 08 00 0C 00 04 00 08 00 08 00 00 00 63 00 00 00 01 00 00 00"));
}

#[test]
fn test_monster_layout() {
    let schema = monster_schema();
    let input = r#"{
      "pos": { "x": 1.0, "y": 2.0, "z": 3.0 },
      "mana": 200,
      "hp": 300,
      "name": "Orc",
      "color": "Red",
      "inventory": [0, 1, 2, 3, 4]
    }"#;
    let bytes = encode_json(&json(input), &schema, "Monster").unwrap();
    let mut expected = hex("14 00 00 00 10 00 20 00 04 00 10 00 12 00 14 00 18 00 1c 00 10 00 00 00 00 00 80 3f 00 00 00 40 00 00 40 40 c8 00 2c 01 0c 00 00 00 01 00 00 00 0c 00 00 00 03 00 00 00 4f 72 63 00 05 00 00 00 00 01 02 03 04");
    expected.extend_from_slice(&[0, 0, 0]);
    assert_eq!(bytes, expected);
}

#[test]
fn test_short_name_finds_namespaced_root() {
    let mut schema = simple_scalars_schema();
    schema.objects[0].name = Some("MyGame.Config".to_string());
    let bytes = encode_json(&json("{}"), &schema, "Config").unwrap();
    // root offset, vtable of three empty slots, padding, table with only its soffset
    assert_eq!(bytes, hex("10 00 00 00 0A 00 04 00 00 00 00 00 00 00 00 00 0C 00 00 00"));
}

#[test]
fn test_file_identifier_follows_root_offset() {
    let mut schema = simple_scalars_schema();
    schema.file_ident = Some("CONF".to_string());
    let bytes = encode_json(&json(r#"{"volume": 7}"#), &schema, "Config").unwrap();
    assert_eq!(&bytes[4..8], b"CONF");
    let root = u32::from_le_bytes([bytes[0], bytes[1], bytes[2], bytes[3]]) as usize;
    let soffset = i32::from_le_bytes([bytes[root], bytes[root + 1], bytes[root + 2], bytes[root + 3]]);
    let vtable = root - soffset as usize;
    assert_eq!(u16::from_le_bytes([bytes[vtable], bytes[vtable + 1]]), 10);
}

// ---------------------------------------------------------------------------
// Error variants
// ---------------------------------------------------------------------------

#[test]
fn test_unknown_enum_value() {
    let err = encode_json(&json(r#"{"color": "Purple"}"#), &monster_schema(), "Monster").unwrap_err();
    assert_eq!(
        err,
        JsonEncodeError::UnknownEnumValue { enum_name: "Color".to_string(), value: "Purple".to_string() }
    );
    assert_eq!(err.describe(), "unknown enum value 'Purple' for enum 'Color'");
}

#[test]
fn test_expected_string_for_string_field() {
    let err = encode_json(&json(r#"{"name": 5}"#), &monster_schema(), "Monster").unwrap_err();
    assert_eq!(err.describe(), "expected JSON string for field 'name', got number");
}

#[test]
fn test_expected_array_for_vector_field() {
    let err = encode_json(&json(r#"{"inventory": {}}"#), &monster_schema(), "Monster").unwrap_err();
    assert_eq!(err.describe(), "expected JSON array for vector field 'inventory', got object");
}

#[test]
fn test_missing_struct_field() {
    let err = encode_json(&json(r#"{"pos": {"x": 1, "y": 2}}"#), &monster_schema(), "Monster").unwrap_err();
    assert_eq!(err, JsonEncodeError::MissingStructField { field_name: "z".to_string() });
    assert_eq!(err.describe(), "struct field 'z' is missing in JSON (structs require all fields)");
}

#[test]
fn test_expected_number_message() {
    let err = encode_json(&json(r#"{"volume": "loud"}"#), &simple_scalars_schema(), "Config").unwrap_err();
    assert_eq!(err.describe(), "expected JSON number for field 'volume' (BASE_TYPE_INT), got string");
}

#[test]
fn test_enum_index_out_of_range() {
    let mut schema = simple_scalars_schema();
    schema.objects[0].fields.push(field(
        "kind",
        Some(FieldType { base_type: Some(BaseType::BASE_TYPE_U_TYPE), element_type: None, index: Some(4) }),
        3,
    ));
    let err = encode_json(&json(r#"{"kind": 1}"#), &schema, "Config").unwrap_err();
    assert_eq!(err, JsonEncodeError::EnumIndexOutOfRange { index: 4, count: 0 });
    assert_eq!(err.describe(), "enum index 4 out of range (have 0 enums)");
}

#[test]
fn test_remaining_messages() {
    let cases = [
        (JsonEncodeError::RootTypeNotFound { name: "X".to_string() }, "root type 'X' not found in schema"),
        (
            JsonEncodeError::ExpectedObject { object_name: "T".to_string(), actual: "array".to_string() },
            "expected JSON object for table/struct 'T', got array",
        ),
        (
            JsonEncodeError::UnknownField { object_name: "T".to_string(), field_name: "f".to_string() },
            "unknown field 'f' in table 'T'",
        ),
        (
            JsonEncodeError::MissingUnionType { field_name: "u".to_string() },
            "union field 'u' requires companion 'u_type' field",
        ),
        (JsonEncodeError::ObjectIndexOutOfRange { index: 3, count: 2 }, "object index 3 out of range (have 2 objects)"),
        (JsonEncodeError::MaxDepthExceeded { max: 64 }, "encoding depth exceeded maximum of 64"),
        (
            JsonEncodeError::NumberOutOfRange {
                field_name: "f".to_string(),
                base_type: "BASE_TYPE_FLOAT".to_string(),
                value: "3".to_string(),
            },
            "number out of range for field 'f' (BASE_TYPE_FLOAT): 3",
        ),
    ];
    for (err, text) in cases {
        assert_eq!(err.describe(), text);
    }
}

fn u32_at(b: &[u8], p: usize) -> usize {
    u32::from_le_bytes([b[p], b[p + 1], b[p + 2], b[p + 3]]) as usize
}

#[test]
fn test_long_vector_elements_are_eight_aligned() {
    let schema = Schema {
        objects: vec![table(
            "Longs",
            vec![
                field("tag", ty(BaseType::BASE_TYPE_BOOL), 0),
                field(
                    "vals",
                    Some(FieldType { base_type: Some(BaseType::BASE_TYPE_VECTOR), element_type: Some(BaseType::BASE_TYPE_LONG), index: None }),
                    1,
                ),
            ],
        )],
        enums: vec![],
        file_ident: None,
        root_table_index: Some(0),
    };
    for tag in [true, false] {
        let text = format!(r#"{{"tag": {tag}, "vals": [1, -2, 300]}}"#);
        let bytes = encode_json(&json(&text), &schema, "Longs").unwrap();
        let tp = u32_at(&bytes, 0);
        let vt = tp - u32_at(&bytes, tp);
        let slot = u16::from_le_bytes([bytes[vt + 6], bytes[vt + 7]]) as usize;
        let fp = tp + slot;
        let vp = fp + u32_at(&bytes, fp);
        assert_eq!(vp % 4, 0);
        assert_eq!((vp + 4) % 8, 0);
        assert_eq!(u32_at(&bytes, vp), 3);
        let elem = |i: usize| i64::from_le_bytes(bytes[vp + 4 + 8 * i..vp + 12 + 8 * i].try_into().unwrap());
        assert_eq!((elem(0), elem(1), elem(2)), (1, -2, 300));
        assert_eq!(bytes.len() % 4, 0);
    }
}

fn vtable_of(bytes: &[u8], tp: usize) -> usize {
    let soff = i32::from_le_bytes([bytes[tp], bytes[tp + 1], bytes[tp + 2], bytes[tp + 3]]);
    (tp as i64 - soff as i64) as usize
}

#[test]
fn test_equal_vtables_are_shared() {
    let item = table("Item", vec![field("name", ty(BaseType::BASE_TYPE_STRING), 0), field("quantity", ty(BaseType::BASE_TYPE_INT), 1)]);
    let inventory = table(
        "Inventory",
        vec![
            field(
                "items",
                Some(FieldType { base_type: Some(BaseType::BASE_TYPE_VECTOR), element_type: Some(BaseType::BASE_TYPE_TABLE), index: Some(0) }),
                0,
            ),
            field("owner", ty(BaseType::BASE_TYPE_STRING), 1),
            field("count", ty(BaseType::BASE_TYPE_SHORT), 2),
        ],
    );
    let schema = Schema { objects: vec![item, inventory], enums: vec![], file_ident: None, root_table_index: Some(1) };
    let text = r#"{"items": [{"name": "A", "quantity": 1}, {"name": "B", "quantity": 2}], "owner": "Test"}"#;
    let bytes = encode_json(&json(text), &schema, "Inventory").unwrap();
    let root = u32_at(&bytes, 0);
    let root_vt = vtable_of(&bytes, root);
    let items_slot = u16::from_le_bytes([bytes[root_vt + 4], bytes[root_vt + 5]]) as usize;
    let vp = root + items_slot + u32_at(&bytes, root + items_slot);
    assert_eq!(u32_at(&bytes, vp), 2);
    let e0 = vp + 4 + u32_at(&bytes, vp + 4);
    let e1 = vp + 8 + u32_at(&bytes, vp + 8);
    let vt0 = vtable_of(&bytes, e0);
    let vt1 = vtable_of(&bytes, e1);
    // the two items have the same layout, so the second reuses the first's vtable
    assert_eq!(vt0, vt1);
    assert_ne!(vt0, root_vt);
    assert_eq!(&bytes[vt0..vt0 + 8], &[8, 0, 12, 0, 4, 0, 8, 0]);
    // the quantities are where the shared vtable says
    assert_eq!(u32_at(&bytes, e0 + 8), 1);
    assert_eq!(u32_at(&bytes, e1 + 8), 2);
}

/// The compiled `StructAlpha (force_align: 16)`: ulong, ubyte, uint, double.
fn struct_alpha() -> Object {
    let at = |name: &str, bt: BaseType, offset: u16| Field {
        name: Some(name.to_string()),
        type_: ty(bt),
        id: None,
        offset: Some(offset),
    };
    Object {
        name: Some("StructAlpha".to_string()),
        fields: vec![
            at("field_a", BaseType::BASE_TYPE_U_LONG, 0),
            at("field_b", BaseType::BASE_TYPE_U_BYTE, 8),
            at("field_c", BaseType::BASE_TYPE_U_INT, 12),
            at("field_d", BaseType::BASE_TYPE_DOUBLE, 16),
        ],
        is_struct: true,
        min_align: Some(16),
        byte_size: Some(32),
    }
}

fn struct_type(index: u32) -> Option<FieldType> {
    Some(FieldType { base_type: Some(BaseType::BASE_TYPE_STRUCT), element_type: None, index: Some(index) })
}

#[test]
fn test_force_align_struct_inline_layout() {
    let root = table("Root", vec![field("alpha", struct_type(0), 0), field("label", ty(BaseType::BASE_TYPE_STRING), 1)]);
    let schema = Schema { objects: vec![struct_alpha(), root], enums: vec![], file_ident: None, root_table_index: Some(1) };
    let text = r#"{"alpha": {"field_a": 1, "field_b": 2, "field_c": 3, "field_d": 4.0}, "label": "hi"}"#;
    let bytes = encode_json(&json(text), &schema, "Root").unwrap();
    let tp = u32_at(&bytes, 0);
    let vt = vtable_of(&bytes, tp);
    let start = tp + u16::from_le_bytes([bytes[vt + 4], bytes[vt + 5]]) as usize;
    assert_eq!(u64::from_le_bytes(bytes[start..start + 8].try_into().unwrap()), 1);
    assert_eq!(bytes[start + 8], 2);
    assert_eq!(u32::from_le_bytes(bytes[start + 12..start + 16].try_into().unwrap()), 3);
    assert_eq!(f64::from_le_bytes(bytes[start + 16..start + 24].try_into().unwrap()), 4.0);
    assert!(bytes[start + 24..start + 32].iter().all(|&b| b == 0));
}

#[test]
fn test_force_align_struct_vector_elements() {
    let root = table(
        "Root",
        vec![field(
            "items",
            Some(FieldType { base_type: Some(BaseType::BASE_TYPE_VECTOR), element_type: Some(BaseType::BASE_TYPE_STRUCT), index: Some(0) }),
            0,
        )],
    );
    let schema = Schema { objects: vec![struct_alpha(), root], enums: vec![], file_ident: None, root_table_index: Some(1) };
    let text = r#"{"items": [{"field_a": 100, "field_b": 10, "field_c": 1000, "field_d": 59.19},
                             {"field_a": 200, "field_b": 20, "field_c": 2000, "field_d": -86.89}]}"#;
    let bytes = encode_json(&json(text), &schema, "Root").unwrap();
    let tp = u32_at(&bytes, 0);
    let vt = vtable_of(&bytes, tp);
    let fp = tp + u16::from_le_bytes([bytes[vt + 4], bytes[vt + 5]]) as usize;
    let vp = fp + u32_at(&bytes, fp);
    assert_eq!(u32_at(&bytes, vp), 2);
    let e0 = vp + 4;
    assert_eq!(e0 % 16, 0, "elements start 16-aligned");
    let e1 = e0 + 32;
    assert_eq!(u64::from_le_bytes(bytes[e0..e0 + 8].try_into().unwrap()), 100);
    assert_eq!(u64::from_le_bytes(bytes[e1..e1 + 8].try_into().unwrap()), 200);
    assert_eq!(bytes[e1 + 8], 20);
    assert_eq!(u32::from_le_bytes(bytes[e1 + 12..e1 + 16].try_into().unwrap()), 2000);
    let d0 = f64::from_le_bytes(bytes[e0 + 16..e0 + 24].try_into().unwrap());
    let d1 = f64::from_le_bytes(bytes[e1 + 16..e1 + 24].try_into().unwrap());
    assert!((d0 - 59.19).abs() < 0.001 && (d1 + 86.89).abs() < 0.001);
}
