use fbsviewer::hex::{bytes_to_hex, parse_hex_bytes, HexParseError};

#[test]
fn test_parse_spaced_hex() {
    let result = parse_hex_bytes("14 00 00 00").unwrap();
    assert_eq!(result, vec![0x14, 0x00, 0x00, 0x00]);
}

#[test]
fn test_parse_0x_prefix() {
    let result = parse_hex_bytes("0x14 0xFF").unwrap();
    assert_eq!(result, vec![0x14, 0xFF]);
}

#[test]
fn test_empty_returns_error() {
    let result = parse_hex_bytes("");
    assert!(matches!(result, Err(HexParseError::Empty)));
}

#[test]
fn test_invalid_byte_returns_error() {
    let result = parse_hex_bytes("ZZ");
    assert!(matches!(result, Err(HexParseError::InvalidByte { .. })));
}

#[test]
fn test_mixed_whitespace() {
    let result = parse_hex_bytes("14\t00\n00\r\n00").unwrap();
    assert_eq!(result, vec![0x14, 0x00, 0x00, 0x00]);
}

#[test]
fn test_bytes_to_hex_lowercase_pairs() {
    assert_eq!(bytes_to_hex(&[0x14, 0x00, 0xab, 0xff]), "14 00 ab ff");
    assert_eq!(bytes_to_hex(&[]), "");
    assert_eq!(bytes_to_hex(&[0x07]), "07");
}

#[test]
fn test_hex_text_parses_back() {
    let data: Vec<u8> = (0u8..=255).collect();
    let text = bytes_to_hex(&data);
    assert_eq!(parse_hex_bytes(&text).unwrap(), data);
}

#[test]
fn test_invalid_byte_reports_token_and_position() {
    let err = parse_hex_bytes("14 0x1 zz 00").unwrap_err();
    assert_eq!(err, HexParseError::InvalidByte { token: "zz".to_string(), position: 2 });
    assert_eq!(err.describe(), "invalid hex byte 'zz' at position 2");
}

#[test]
fn test_whitespace_only_is_empty() {
    let err = parse_hex_bytes(" \n\t ").unwrap_err();
    assert_eq!(err, HexParseError::Empty);
    assert_eq!(err.describe(), "no hex bytes found in input");
}

#[test]
fn test_three_digit_token_is_invalid() {
    assert!(matches!(parse_hex_bytes("100"), Err(HexParseError::InvalidByte { position: 0, .. })));
    assert_eq!(parse_hex_bytes("0Xab f").unwrap(), vec![0xab, 0x0f]);
}
