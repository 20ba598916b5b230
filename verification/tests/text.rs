use graph_utility::text::{is_space_byte, parse_u32, skip_field, skip_line, skip_spaces};

#[test]
fn parse_u32_reads_decimal_numbers() {
    assert_eq!(parse_u32(b"0"), Some(0));
    assert_eq!(parse_u32(b"7"), Some(7));
    assert_eq!(parse_u32(b"007"), Some(7));
    assert_eq!(parse_u32(b"1234567890"), Some(1234567890));
    assert_eq!(parse_u32(b"4294967295"), Some(u32::MAX));
    assert_eq!(parse_u32(b"+42"), Some(42));
    assert_eq!(parse_u32(b"000000000000000000000000000000000001"), Some(1));
}

#[test]
fn parse_u32_rejects_what_is_no_number() {
    assert_eq!(parse_u32(b""), None);
    assert_eq!(parse_u32(b"+"), None);
    assert_eq!(parse_u32(b"-1"), None);
    assert_eq!(parse_u32(b"++1"), None);
    assert_eq!(parse_u32(b"1+"), None);
    assert_eq!(parse_u32(b"12a"), None);
    assert_eq!(parse_u32(b" 12"), None);
    assert_eq!(parse_u32(b"12 "), None);
    assert_eq!(parse_u32(b"1.5"), None);
    assert_eq!(parse_u32(b"0x10"), None);
}

#[test]
fn parse_u32_rejects_what_does_not_fit() {
    assert_eq!(parse_u32(b"4294967296"), None);
    assert_eq!(parse_u32(b"99999999999999999999999999999"), None);
    assert_eq!(parse_u32(b"+4294967296"), None);
}

#[test]
fn parse_u32_agrees_with_the_standard_library() {
    let samples = ["0", "1", "+1", "-0", "0012", "4294967295", "4294967296", "42949672950", "", "+", "a", "1e3", "٣"];
    for sample in samples {
        assert_eq!(parse_u32(sample.as_bytes()), sample.parse::<u32>().ok(), "{}", sample);
    }
}

#[test]
fn white_space_is_ascii_white_space() {
    for byte in 0u8..=255 {
        let expected = byte == b' ' || byte == b'\t' || byte == b'\n' || byte == 0x0b || byte == 0x0c || byte == b'\r';
        assert_eq!(is_space_byte(byte), expected);
    }
}

#[test]
fn fields_and_lines_are_found() {
    let line = b"  12\t 34  ";
    assert_eq!(skip_spaces(line, 0), 2);
    assert_eq!(skip_field(line, 2), 4);
    assert_eq!(skip_spaces(line, 4), 6);
    assert_eq!(skip_field(line, 6), 8);
    assert_eq!(skip_spaces(line, 8), 10);
    assert_eq!(skip_field(line, 10), 10);
    let text = b"ab\n\ncd";
    assert_eq!(skip_line(text, 0), 2);
    assert_eq!(skip_line(text, 3), 3);
    assert_eq!(skip_line(text, 4), 6);
    assert_eq!(skip_line(text, 6), 6);
}
