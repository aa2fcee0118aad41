use sedx::command::Address;
use sedx::file_processor::common::{matches_address, AddressContext};

#[test]
fn matches_last_line_from_total_line_count() {
    let context = AddressContext { line: "last", line_number: 3, total_lines: Some(3), is_last_line: false };

    assert!(matches_address(&Address::LastLine, &context));
}

#[test]
fn matches_last_line_from_streaming_lookahead() {
    let context = AddressContext { line: "last", line_number: 3, total_lines: None, is_last_line: true };

    assert!(matches_address(&Address::LastLine, &context));
}

#[test]
fn matches_negated_pattern_address() {
    let context = AddressContext { line: "alpha", line_number: 1, total_lines: Some(1), is_last_line: true };

    assert!(matches_address(&Address::Negated(Box::new(Address::Pattern("bravo".to_string()))), &context));
}

#[test]
fn step_address_selects_every_nth_line_from_start() {
    for n in 1..10usize {
        let context = AddressContext { line: "x", line_number: n, total_lines: None, is_last_line: false };
        let expected = n >= 2 && (n - 2) % 3 == 0;
        assert_eq!(matches_address(&Address::Step { start: 2, step: 3 }, &context), expected);
    }
}

#[test]
fn pattern_address_matches_by_regex() {
    let context = AddressContext { line: "hello world", line_number: 7, total_lines: None, is_last_line: false };
    assert!(matches_address(&Address::Pattern("wor.d".to_string()), &context));
    assert!(!matches_address(&Address::Pattern("^world".to_string()), &context));
    assert!(matches_address(&Address::LineNumber(7), &context));
    assert!(!matches_address(&Address::LineNumber(8), &context));
}
