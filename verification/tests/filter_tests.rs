use fbsviewer::filter::{apply_filters, parse_byte_range, parse_offset, ranges_overlap};
use fbsviewer::region::{Region, RegionType};

fn region(start: usize, end: usize, path: &[&str]) -> Region {
    Region {
        byte_range: start..end,
        region_type: RegionType::Padding,
        label: String::new(),
        field_path: path.iter().map(|s| s.to_string()).collect(),
        value_display: String::new(),
        children: vec![],
        related_regions: vec![],
        depth: 0,
    }
}

fn sample() -> (Vec<Region>, Vec<String>) {
    let regions = vec![
        region(0, 4, &[]),
        region(4, 20, &["Monster"]),
        region(20, 24, &["Monster", "name"]),
        region(24, 40, &["Monster", "name"]),
        region(40, 44, &["Monster", "hp"]),
    ];
    let names = ["root_offset", "vtable", "string_offset", "string_data", "scalar"].iter().map(|s| s.to_string()).collect();
    (regions, names)
}

#[test]
fn test_parse_offsets() {
    assert_eq!(parse_offset("16"), Ok(16));
    assert_eq!(parse_offset("0x10"), Ok(16));
    assert_eq!(parse_offset("0X1f"), Ok(31));
    assert_eq!(parse_offset("+5"), Ok(5));
    assert_eq!(parse_offset("x"), Err("invalid offset 'x': invalid digit found in string".to_string()));
    assert_eq!(parse_offset(""), Err("invalid offset '': cannot parse integer from empty string".to_string()));
    assert_eq!(parse_offset("0xZZ"), Err("invalid hex offset '0xZZ': invalid digit found in string".to_string()));
    assert_eq!(parse_offset("0x"), Err("invalid hex offset '0x': cannot parse integer from empty string".to_string()));
}

#[test]
fn test_parse_byte_ranges() {
    assert_eq!(parse_byte_range("16..32"), Ok(16..32));
    assert_eq!(parse_byte_range("0x10..0x20"), Ok(16..32));
    assert_eq!(parse_byte_range(" 16 .. 32 "), Ok(16..32));
    assert_eq!(
        parse_byte_range("abc"),
        Err("invalid byte range 'abc': expected format 'START..END' (e.g. '16..32' or '0x10..0x20')".to_string())
    );
    assert_eq!(
        parse_byte_range("1..2..3"),
        Err("invalid byte range '1..2..3': expected format 'START..END' (e.g. '16..32' or '0x10..0x20')".to_string())
    );
    assert_eq!(parse_byte_range("32..16"), Err("invalid byte range: start (32) must be less than end (16)".to_string()));
    assert_eq!(parse_byte_range("5..5"), Err("invalid byte range: start (5) must be less than end (5)".to_string()));
    assert_eq!(parse_byte_range("1...2"), Err("invalid offset '.2': invalid digit found in string".to_string()));
}

#[test]
fn test_ranges_overlap() {
    assert!(ranges_overlap(&(0..4), &(3..10)));
    assert!(!ranges_overlap(&(0..4), &(4..10)));
    assert!(!ranges_overlap(&(10..12), &(4..10)));
    assert!(ranges_overlap(&(5..6), &(0..100)));
}

#[test]
fn test_filters() {
    let (regions, names) = sample();
    assert_eq!(apply_filters(&regions, &names, None, None, None), Ok(vec![0, 1, 2, 3, 4]));
    assert_eq!(apply_filters(&regions, &names, Some("16..24"), None, None), Ok(vec![1, 2]));
    assert_eq!(apply_filters(&regions, &names, None, Some("Monster.name"), None), Ok(vec![2, 3]));
    assert_eq!(apply_filters(&regions, &names, None, Some("ster"), Some("scalar")), Ok(vec![4]));
    assert_eq!(apply_filters(&regions, &names, Some("0x14..0x30"), Some("name"), Some("string_data")), Ok(vec![3]));
    assert!(apply_filters(&regions, &names, Some("bad"), None, None).is_err());
}

#[test]
fn test_no_filter_lists_all_and_filters_intersect() {
    let (regions, names) = sample();
    assert_eq!(apply_filters(&regions, &names, None, None, None), Ok(vec![0, 1, 2, 3, 4]));
    let by_range = apply_filters(&regions, &names, Some("0x10..0x1a"), None, None).unwrap();
    let by_field = apply_filters(&regions, &names, None, Some("name"), None).unwrap();
    let by_type = apply_filters(&regions, &names, None, None, Some("string_offset")).unwrap();
    let all = apply_filters(&regions, &names, Some("0x10..0x1a"), Some("name"), Some("string_offset")).unwrap();
    let expected: Vec<usize> =
        (0..regions.len()).filter(|i| by_range.contains(i) && by_field.contains(i) && by_type.contains(i)).collect();
    assert_eq!(all, expected);
    assert_eq!(all, vec![2]);
}
