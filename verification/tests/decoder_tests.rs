use fbsviewer::decoder::{annotations_to_json, field_name_from_path, parse_scalar_value, DecodedJson};
use fbsviewer::region::{Region, RegionType};
use fbsviewer::schema::BaseType;

fn region(kind: RegionType, path: &[&str], value: &str, children: Vec<usize>, depth: usize) -> Region {
    Region {
        byte_range: 0..4,
        region_type: kind,
        label: String::new(),
        field_path: path.iter().map(|s| s.to_string()).collect(),
        value_display: value.to_string(),
        children,
        related_regions: vec![],
        depth,
    }
}

fn members(v: &DecodedJson) -> &Vec<(String, DecodedJson)> {
    match v {
        DecodedJson::Object(m) => m,
        other => panic!("not an object: {other:?}"),
    }
}

fn member<'a>(v: &'a DecodedJson, key: &str) -> &'a DecodedJson {
    &members(v).iter().rev().find(|(k, _)| k == key).unwrap().1
}

#[test]
fn test_scalar_value_forms() {
    assert!(matches!(parse_scalar_value(""), Some(DecodedJson::Null)));
    assert!(matches!(parse_scalar_value("   "), Some(DecodedJson::Null)));
    assert!(matches!(parse_scalar_value("true"), Some(DecodedJson::Bool(true))));
    assert!(matches!(parse_scalar_value(" false "), Some(DecodedJson::Bool(false))));
    assert!(matches!(parse_scalar_value("-42"), Some(DecodedJson::Int(-42))));
    assert!(matches!(parse_scalar_value("+7"), Some(DecodedJson::Int(7))));
    assert!(matches!(parse_scalar_value("18446744073709551615"), Some(DecodedJson::UInt(u64::MAX))));
    assert!(matches!(parse_scalar_value("-9223372036854775808"), Some(DecodedJson::Int(i64::MIN))));
    assert!(matches!(parse_scalar_value("3.5"), Some(DecodedJson::FloatText(t)) if t == "3.5"));
    assert!(matches!(parse_scalar_value("Orc"), Some(DecodedJson::FloatText(t)) if t == "Orc"));
}

#[test]
fn test_scalar_value_with_parenthesis() {
    assert!(matches!(parse_scalar_value("Red (1)"), Some(DecodedJson::Str(t)) if t == "Red"));
    assert!(matches!(parse_scalar_value("Blue (-3)"), Some(DecodedJson::Str(t)) if t == "Blue"));
    assert!(matches!(parse_scalar_value("200 (short)"), Some(DecodedJson::Int(200))));
    assert!(matches!(parse_scalar_value("1.5 (float)"), Some(DecodedJson::FloatText(t)) if t == "1.5"));
    assert!(matches!(parse_scalar_value("Red (x)"), Some(DecodedJson::FloatText(t)) if t == "Red"));
    assert!(matches!(parse_scalar_value("a (b) (2)"), Some(DecodedJson::Str(t)) if t == "a (b)"));
    assert!(parse_scalar_value("abc (").is_none());
    assert!(parse_scalar_value("abc (1)é").is_none());
}

#[test]
fn test_field_name_from_path() {
    let path = vec!["Monster".to_string(), "pos".to_string()];
    assert_eq!(field_name_from_path(&path, "Vec3"), "pos");
    assert_eq!(field_name_from_path(&path[..1], "Vec3"), "Monster");
    assert_eq!(field_name_from_path(&[], "Vec3"), "Vec3");
}

#[test]
fn test_no_root_table_gives_null() {
    let regions = vec![region(RegionType::RootOffset, &[], "20", vec![], 0)];
    assert!(matches!(annotations_to_json(&regions), Some(DecodedJson::Null)));
    assert!(matches!(annotations_to_json(&[]), Some(DecodedJson::Null)));
}

#[test]
fn test_monster_like_tree() {
    let regions = vec![
        // 0: root table
        region(RegionType::TableSOffset { object_name: "Monster".to_string() }, &["Monster"], "", vec![1, 2, 3, 6, 7, 8], 0),
        // 1: scalar
        region(
            RegionType::ScalarField { field_name: "hp".to_string(), base_type: BaseType::BASE_TYPE_SHORT },
            &["Monster", "hp"],
            "300",
            vec![],
            1,
        ),
        // 2: enum-valued scalar
        region(
            RegionType::ScalarField { field_name: "color".to_string(), base_type: BaseType::BASE_TYPE_BYTE },
            &["Monster", "color"],
            "Red (1)",
            vec![],
            1,
        ),
        // 3: string offset with its data at 4
        region(RegionType::StringOffset { field_name: "name".to_string() }, &["Monster", "name"], "", vec![5, 4], 1),
        region(RegionType::StringData { field_name: "name".to_string() }, &["Monster", "name"], "\"Orc\"", vec![], 2),
        region(RegionType::StringLength, &["Monster", "name"], "3", vec![], 2),
        // 6: inline struct with one field at 9
        region(RegionType::StructInline { object_name: "Vec3".to_string() }, &["Monster", "pos"], "", vec![9], 1),
        // 7: vector of scalars, elements out of order
        region(RegionType::VectorOffset { field_name: "inventory".to_string() }, &["Monster", "inventory"], "", vec![10, 11, 12], 1),
        // 8: padding is skipped
        region(RegionType::Padding, &[], "", vec![], 1),
        // 9: struct field
        region(
            RegionType::StructField { field_name: "x".to_string(), base_type: BaseType::BASE_TYPE_FLOAT },
            &["Monster", "pos", "x"],
            "1.5",
            vec![],
            2,
        ),
        region(RegionType::VectorElement { index: 1 }, &[], "20", vec![], 2),
        region(RegionType::VectorLength, &[], "2", vec![], 2),
        region(RegionType::VectorElement { index: 0 }, &[], "10", vec![], 2),
    ];
    let out = annotations_to_json(&regions).unwrap();
    assert!(matches!(member(&out, "hp"), DecodedJson::Int(300)));
    assert!(matches!(member(&out, "color"), DecodedJson::Str(s) if s == "Red"));
    assert!(matches!(member(&out, "name"), DecodedJson::Str(s) if s == "Orc"));
    assert!(matches!(member(member(&out, "pos"), "x"), DecodedJson::FloatText(s) if s == "1.5"));
    match member(&out, "inventory") {
        DecodedJson::Array(items) => {
            assert_eq!(items.len(), 2);
            assert!(matches!(items[0], DecodedJson::Int(10)));
            assert!(matches!(items[1], DecodedJson::Int(20)));
        }
        other => panic!("not an array: {other:?}"),
    }
    assert_eq!(members(&out).len(), 5);
}

#[test]
fn test_nested_table_union_and_string_vector() {
    let regions = vec![
        // 0: root below the depth limit is not the root
        region(RegionType::TableSOffset { object_name: "Deep".to_string() }, &["Deep"], "", vec![], 2),
        // 1: root
        region(RegionType::TableSOffset { object_name: "Root".to_string() }, &["Root"], "", vec![2, 4, 5, 7], 1),
        // 2: offset to a sub-table at 3
        region(
            RegionType::ScalarField { field_name: "child".to_string(), base_type: BaseType::BASE_TYPE_TABLE },
            &["Root", "child"],
            "12",
            vec![3],
            2,
        ),
        region(RegionType::TableSOffset { object_name: "Child".to_string() }, &["Root", "child"], "", vec![], 3),
        // 4: union type
        region(RegionType::UnionTypeField { field_name: "weapon".to_string() }, &["Root", "weapon_type"], "Sword (1)", vec![], 2),
        // 5: union data pointing at table 6
        region(RegionType::UnionDataOffset { field_name: "weapon".to_string() }, &["Root", "weapon"], "", vec![6], 2),
        region(RegionType::TableSOffset { object_name: "Sword".to_string() }, &["Root", "weapon"], "", vec![], 3),
        // 7: vector of strings
        region(RegionType::VectorOffset { field_name: "tags".to_string() }, &["Root", "tags"], "", vec![8], 2),
        region(RegionType::VectorElement { index: 0 }, &[], "", vec![9], 3),
        region(RegionType::StringData { field_name: "tags".to_string() }, &[], "\"a\"", vec![], 4),
    ];
    let out = annotations_to_json(&regions).unwrap();
    assert_eq!(members(member(&out, "child")).len(), 0);
    assert!(matches!(member(&out, "weapon_type"), DecodedJson::Str(s) if s == "Sword"));
    assert_eq!(members(member(&out, "weapon")).len(), 0);
    match member(&out, "tags") {
        DecodedJson::Array(items) => assert!(matches!(&items[0], DecodedJson::Str(s) if s == "a")),
        other => panic!("not an array: {other:?}"),
    }
}

#[test]
fn test_out_of_range_child_has_no_value() {
    let regions = vec![region(RegionType::TableSOffset { object_name: "T".to_string() }, &["T"], "", vec![5], 0)];
    assert!(annotations_to_json(&regions).is_none());
}

#[test]
fn test_cyclic_tree_has_no_value() {
    let regions = vec![
        region(RegionType::TableSOffset { object_name: "T".to_string() }, &["T"], "", vec![1], 0),
        region(
            RegionType::ScalarField { field_name: "loop".to_string(), base_type: BaseType::BASE_TYPE_TABLE },
            &["T", "loop"],
            "",
            vec![0],
            1,
        ),
    ];
    assert!(annotations_to_json(&regions).is_none());
}
