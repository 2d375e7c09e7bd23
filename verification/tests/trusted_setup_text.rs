use moonglass_core::crypto::kzg::trusted_setup::{
    hex_value, parse_hex_line, parse_text_count, setup_text_lines, TEXT_HEADER_LINES,
};
use moonglass_core::crypto::kzg::SetupFileError;

#[test]
fn lines_are_trimmed_numbered_and_blank_ones_dropped() {
    let lines = setup_text_lines("2\n\n  3 \r\nabc");
    let got: Vec<(usize, &str)> = lines.iter().map(|l| (l.line, l.text.as_str())).collect();
    assert_eq!(got, vec![(1, "2"), (3, "3"), (4, "abc")]);
}

#[test]
fn trailing_newline_adds_no_line() {
    let lines = setup_text_lines("a\nb\n");
    assert_eq!(lines.len(), 2);
    assert_eq!(lines[1].line, 2);
    assert_eq!(lines[1].text, "b");
    assert!(setup_text_lines("").is_empty());
    assert!(setup_text_lines("\n \t\n").is_empty());
}

#[test]
fn header_is_two_count_lines() {
    assert_eq!(TEXT_HEADER_LINES, 2);
}

#[test]
fn counts_parse_as_decimal() {
    assert_eq!(parse_text_count("4096", 1), Ok(4096));
    assert_eq!(parse_text_count("+65", 2), Ok(65));
    assert_eq!(parse_text_count("007", 2), Ok(7));
}

#[test]
fn malformed_counts_are_rejected() {
    assert_eq!(parse_text_count("", 5), Err(SetupFileError::InvalidTextCount { line: 5 }));
    assert_eq!(parse_text_count("+", 5), Err(SetupFileError::InvalidTextCount { line: 5 }));
    assert_eq!(parse_text_count("-1", 5), Err(SetupFileError::InvalidTextCount { line: 5 }));
    assert_eq!(parse_text_count("12a", 5), Err(SetupFileError::InvalidTextCount { line: 5 }));
    assert_eq!(parse_text_count(" 1", 5), Err(SetupFileError::InvalidTextCount { line: 5 }));
}

#[test]
fn oversized_counts_overflow() {
    let too_big = "1".repeat(40);
    assert_eq!(parse_text_count(&too_big, 9), Err(SetupFileError::TextCountOverflow { line: 9 }));
    let max = usize::MAX.to_string();
    assert_eq!(parse_text_count(&max, 9), Ok(usize::MAX));
}

#[test]
fn hex_digits_decode_to_nibbles() {
    assert_eq!(hex_value(b'0', 1), Ok(0));
    assert_eq!(hex_value(b'9', 1), Ok(9));
    assert_eq!(hex_value(b'a', 1), Ok(10));
    assert_eq!(hex_value(b'F', 1), Ok(15));
    assert_eq!(hex_value(b'g', 7), Err(SetupFileError::InvalidHexCharacter { line: 7, value: 'g' }));
}

#[test]
fn hex_lines_decode_with_or_without_prefix() {
    assert_eq!(parse_hex_line("0x0aFf", 3, 2), Ok(vec![0x0a, 0xff]));
    assert_eq!(parse_hex_line("0aff", 3, 2), Ok(vec![0x0a, 0xff]));
    assert_eq!(parse_hex_line("", 3, 0), Ok(vec![]));
}

#[test]
fn hex_line_errors() {
    assert_eq!(
        parse_hex_line("0x0a", 3, 2),
        Err(SetupFileError::InvalidHexLength { line: 3, expected: 4, got: 2 })
    );
    assert_eq!(
        parse_hex_line("0axf", 4, 2),
        Err(SetupFileError::InvalidHexCharacter { line: 4, value: 'x' })
    );
    assert_eq!(parse_hex_line("00", 4, usize::MAX), Err(SetupFileError::SizeOverflow));
}
