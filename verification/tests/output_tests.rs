use fbsviewer::output::{json_rows, render_compact, render_table, truncate, OutputFormat, RegionOutput};
use fbsviewer::region::{Region, RegionType};

fn region(start: usize, end: usize, depth: usize, label: &str, path: &[&str], value: &str) -> Region {
    Region {
        byte_range: start..end,
        region_type: RegionType::Padding,
        label: label.to_string(),
        field_path: path.iter().map(|s| s.to_string()).collect(),
        value_display: value.to_string(),
        children: vec![],
        related_regions: vec![],
        depth,
    }
}

#[test]
fn test_output_format_names() {
    assert_eq!(OutputFormat::from_name("table"), Ok(OutputFormat::Table));
    assert_eq!(OutputFormat::from_name("json"), Ok(OutputFormat::Json));
    assert_eq!(OutputFormat::from_name("compact"), Ok(OutputFormat::Compact));
    assert_eq!(
        OutputFormat::from_name("xml"),
        Err("unknown format 'xml': expected 'table', 'json', or 'compact'".to_string())
    );
    assert_eq!("compact".parse::<OutputFormat>(), Ok(OutputFormat::Compact));
    assert_eq!(OutputFormat::Json.name(), "json");
    assert_eq!(OutputFormat::Table.name(), "table");
}

#[test]
fn test_truncate_keeps_short_text() {
    assert_eq!(truncate("short", 30), "short");
    assert_eq!(truncate("exactly8", 8), "exactly8");
}

#[test]
fn test_truncate_cuts_long_text() {
    assert_eq!(truncate("hello world", 8), "hello...");
    assert_eq!(truncate("abcdef", 2), "...");
}

#[test]
fn test_truncate_cuts_on_character_boundary() {
    assert_eq!(truncate("日本語日本語", 5), "日本...");
}

#[test]
fn test_table_listing() {
    let regions = vec![
        region(0, 4, 0, "root offset", &["Monster"], "20"),
        region(0x24, 0x26, 1, "mana", &["Monster", "mana"], "200"),
    ];
    let names = vec!["root_offset".to_string(), "scalar".to_string()];
    let text = render_table(&regions, &names, &[1]);
    let header = format!("{:<15} {:>5}  {:<18} {:<30} {:<30} VALUE", "BYTE RANGE", "SIZE", "TYPE", "LABEL", "PATH");
    let row = format!(
        "{:<15} {:>5}  {:<18} {:<30} {:<30} {}",
        "0x0024..0x0026", 2, "scalar", "  mana", "Monster.mana", "200"
    );
    assert_eq!(text, format!("{header}\n{}\n{row}\n\n1 region(s) shown.\n", "-".repeat(120)));
}

#[test]
fn test_table_truncates_long_columns() {
    let long_path: Vec<&str> = vec!["AVeryLongTableName", "aVeryLongFieldName", "more"];
    let regions = vec![region(0x10000, 0x10004, 2, "a label that is much too long for its column", &long_path, "v")];
    let names = vec!["scalar".to_string()];
    let text = render_table(&regions, &names, &[0]);
    let row = format!(
        "{:<15} {:>5}  {:<18} {:<30} {:<30} {}",
        "0x10000..0x10004", 4, "scalar", "    a label that is much to...", "AVeryLongTableName.aVeryLon...", "v"
    );
    assert!(text.contains(&format!("\n{row}\n")));
}

#[test]
fn test_compact_listing() {
    let regions = vec![region(0, 4, 0, "root", &["Monster"], "20"), region(4, 6, 1, "vt", &[], "")];
    let names = vec!["root_offset".to_string(), "vtable_size".to_string()];
    let text = render_compact(&regions, &names, &[1, 0]);
    assert_eq!(text, "0x0004..0x0006 vtable_size vt [] = \n0x0000..0x0004 root_offset root [Monster] = 20\n");
}

#[test]
fn test_json_rows() {
    let regions = vec![region(0x20, 0x30, 3, "name", &["Monster", "name"], "\"Orc\"")];
    let names = vec!["string_data".to_string()];
    let rows: Vec<RegionOutput> = json_rows(&regions, &names, &[0]);
    assert_eq!(rows.len(), 1);
    let r = &rows[0];
    assert_eq!(r.byte_start, "0x0020");
    assert_eq!(r.byte_end, "0x0030");
    assert_eq!(r.size, 16);
    assert_eq!(r.region_type, "string_data");
    assert_eq!(r.label, "name");
    assert_eq!(r.field_path, "Monster.name");
    assert_eq!(r.value, "\"Orc\"");
    assert_eq!(r.depth, 3);
}
