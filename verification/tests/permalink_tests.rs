use fbsviewer::permalink::{decode, decode_payload, encode, PermalinkData, PermalinkError};

fn data(schema: &str, text: &str, hex: bool) -> PermalinkData {
    PermalinkData { schema_text: schema.to_string(), data_text: text.to_string(), is_hex_format: hex }
}

#[test]
fn test_encode_frames_and_base64_encodes() {
    assert_eq!(encode(&data("a", "b", false)).unwrap(), "AQABAAAAYWI");
    assert_eq!(encode(&data("", "", true)).unwrap(), "AQEAAAAA");
    assert_eq!(encode(&data("é", "日本", false)).unwrap(), "AQACAAAAw6nml6XmnKw");
}

#[test]
fn test_decode_reads_back_what_encode_wrote() {
    for (schema, text, hex) in [
        ("table T { x:int; } root_type T;", "{\"x\": 42}", false),
        ("", "", true),
        ("é ü", "日本語 text", false),
    ] {
        let link = encode(&data(schema, text, hex)).unwrap();
        let back = decode(&link).unwrap();
        assert_eq!(back.schema_text, schema);
        assert_eq!(back.data_text, text);
        assert_eq!(back.is_hex_format, hex);
    }
}

#[test]
fn test_decode_known_text() {
    let d = decode("AQABAAAAYWI").unwrap();
    assert_eq!(d.schema_text, "a");
    assert_eq!(d.data_text, "b");
    assert!(!d.is_hex_format);
}

#[test]
fn test_decode_errors() {
    assert!(matches!(decode("not-valid-data"), Err(PermalinkError::InvalidEncoding)));
    assert!(matches!(decode("AgAAAAAA"), Err(PermalinkError::UnsupportedVersion(2))));
    assert!(matches!(decode("AQAAAA"), Err(PermalinkError::Truncated)));
    assert!(matches!(decode("AQIAAAAA"), Err(PermalinkError::InvalidFlags(2))));
    assert!(matches!(decode("AQAFAAAAYQ"), Err(PermalinkError::Truncated)));
    assert!(matches!(decode("AQABAAAA_w"), Err(PermalinkError::InvalidText)));
    assert!(matches!(decode(""), Err(PermalinkError::Truncated)));
}

#[test]
fn test_decode_payload_directly() {
    let d = decode_payload(&[1, 1, 2, 0, 0, 0, b'a', b'b', b'c']).unwrap();
    assert_eq!(d.schema_text, "ab");
    assert_eq!(d.data_text, "c");
    assert!(d.is_hex_format);
    assert!(matches!(decode_payload(&[]), Err(PermalinkError::Truncated)));
    assert!(matches!(decode_payload(&[9]), Err(PermalinkError::UnsupportedVersion(9))));
}

#[test]
fn test_error_messages() {
    assert_eq!(PermalinkError::TooLarge.describe(), "schema text is too large for a permalink");
    assert_eq!(PermalinkError::InvalidEncoding.describe(), "invalid base64 encoding");
    assert_eq!(PermalinkError::Truncated.describe(), "permalink data is truncated");
    assert_eq!(PermalinkError::UnsupportedVersion(7).describe(), "unsupported permalink version 7");
    assert_eq!(PermalinkError::InvalidFlags(3).describe(), "invalid permalink flags 3");
    assert_eq!(PermalinkError::InvalidText.describe(), "permalink text is not valid UTF-8");
}
