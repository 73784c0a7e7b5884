use fbsviewer::proto::{
    collect_proto_message_names, convert_region_kind, convert_regions, ProtoFile, ProtoRegion,
    ProtoRegionKind, ProtoSchema, ProtoWalkError,
};
use fbsviewer::region::RegionType;

#[test]
fn convert_simple_message() {
    let proto_regions = vec![ProtoRegion {
        byte_range: 0..10,
        kind: ProtoRegionKind::Message { message_name: ".test.Foo".to_string() },
        label: "Foo".to_string(),
        field_path: vec!["Foo".to_string()],
        value_display: "10 bytes".to_string(),
        children: vec![],
        depth: 0,
    }];

    let converted = convert_regions(&proto_regions);
    assert_eq!(converted.len(), 1);
    assert_eq!(
        converted[0].region_type,
        RegionType::ProtoMessage { message_name: ".test.Foo".to_string() }
    );
    assert_eq!(converted[0].byte_range, 0..10);
    assert_eq!(converted[0].label, "Foo");
}

#[test]
fn convert_preserves_children() {
    let proto_regions = vec![
        ProtoRegion {
            byte_range: 0..10,
            kind: ProtoRegionKind::Message { message_name: ".test.Foo".to_string() },
            label: "Foo".to_string(),
            field_path: vec!["Foo".to_string()],
            value_display: "10 bytes".to_string(),
            children: vec![1],
            depth: 0,
        },
        ProtoRegion {
            byte_range: 0..2,
            kind: ProtoRegionKind::Varint { field_name: "id".to_string() },
            label: "id: 42".to_string(),
            field_path: vec!["Foo".to_string(), "id".to_string()],
            value_display: "42".to_string(),
            children: vec![],
            depth: 1,
        },
    ];

    let converted = convert_regions(&proto_regions);
    assert_eq!(converted.len(), 2);
    assert_eq!(converted[0].children, vec![1]);
    assert_eq!(converted[1].region_type, RegionType::ProtoVarint { field_name: "id".to_string() });
}

#[test]
fn test_region_kinds_map_to_shared_types() {
    assert_eq!(
        convert_region_kind(&ProtoRegionKind::PackedRepeated {
            field_name: "xs".to_string(),
            element_type: "int32".to_string(),
        }),
        RegionType::ProtoLengthDelimited { field_name: "xs".to_string() }
    );
    assert_eq!(
        convert_region_kind(&ProtoRegionKind::EnumValue {
            field_name: "c".to_string(),
            enum_name: "Color".to_string(),
            value_name: "RED".to_string(),
        }),
        RegionType::ProtoVarint { field_name: "c".to_string() }
    );
    assert_eq!(
        convert_region_kind(&ProtoRegionKind::UnknownField { field_number: 9, wire_type: 5 }),
        RegionType::ProtoTag { field_number: 9, wire_type: 5 }
    );
    assert_eq!(convert_region_kind(&ProtoRegionKind::LengthPrefix), RegionType::ProtoLength);
}

#[test]
fn test_converted_regions_have_no_related_regions() {
    let converted = convert_regions(&[ProtoRegion {
        byte_range: 3..5,
        kind: ProtoRegionKind::Tag { field_number: 1, wire_type: 2 },
        label: "tag".to_string(),
        field_path: vec![],
        value_display: String::new(),
        children: vec![],
        depth: 2,
    }]);
    assert!(converted[0].related_regions.is_empty());
    assert_eq!(converted[0].depth, 2);
    assert_eq!(converted[0].region_type, RegionType::ProtoTag { field_number: 1, wire_type: 2 });
}

#[test]
fn test_collect_proto_message_names_qualifies() {
    let fds = ProtoSchema {
        file: vec![
            ProtoFile {
                package: Some("pkg".to_string()),
                message_names: vec![Some("Foo".to_string()), None, Some("Bar".to_string())],
            },
            ProtoFile { package: None, message_names: vec![Some("Top".to_string())] },
            ProtoFile { package: Some(String::new()), message_names: vec![Some("Empty".to_string())] },
        ],
    };
    assert_eq!(collect_proto_message_names(&fds), vec![".pkg.Foo", ".pkg.Bar", ".Top", ".Empty"]);
}

#[test]
fn test_proto_walk_error_message() {
    assert_eq!(
        ProtoWalkError::WalkFailed("truncated".to_string()).describe(),
        "protobuf walk failed: truncated"
    );
}
