use scc::error::ParseError;
use scc::parser::scanner::MdxParser;

fn scalars(s: &str) -> Vec<char> {
    s.chars().collect()
}

#[test]
fn new_scanner_starts_at_zero() {
    let input = scalars("abc");
    let scanner = MdxParser::new(&input);
    assert_eq!(scanner.cursor, 0);
    assert!(!scanner.is_end());
}

#[test]
fn empty_input_is_at_end() {
    let input = scalars("");
    let scanner = MdxParser::new(&input);
    assert!(scanner.is_end());
    assert_eq!(scanner.peek_many(4), "");
}

#[test]
fn peek_does_not_move() {
    let input = scalars("héllo");
    let scanner = MdxParser::new(&input);
    assert_eq!(scanner.peek_one(), 'h');
    assert_eq!(scanner.peek_many(3), "hél");
    assert_eq!(scanner.peek_many(0), "");
    assert_eq!(scanner.peek_many(99), "héllo");
    assert_eq!(scanner.cursor, 0);
}

#[test]
fn consume_moves_by_one_scalar_of_any_width() {
    let input = scalars("é√😀x");
    let mut scanner = MdxParser::new(&input);
    assert_eq!(scanner.consume(), 'é');
    assert_eq!(scanner.cursor, 1);
    assert_eq!(scanner.consume(), '√');
    assert_eq!(scanner.cursor, 2);
    assert_eq!(scanner.consume(), '😀');
    assert_eq!(scanner.cursor, 3);
    assert_eq!(scanner.consume(), 'x');
    assert_eq!(scanner.cursor, 4);
    assert!(scanner.is_end());
}

#[test]
fn starts_with_matches_at_the_cursor_only() {
    let input = scalars("ab**cd");
    let mut scanner = MdxParser::new(&input);
    assert!(scanner.starts_with("ab"));
    assert!(scanner.starts_with(""));
    assert!(!scanner.starts_with("**"));
    assert!(!scanner.starts_with("ab**cde"));
    scanner.advance_many(2);
    assert!(scanner.starts_with("**"));
    assert!(scanner.starts_with("**cd"));
}

#[test]
fn advance_never_passes_the_end() {
    let input = scalars("abc");
    let mut scanner = MdxParser::new(&input);
    scanner.advance_many(2);
    assert_eq!(scanner.cursor, 2);
    scanner.advance_many(10);
    assert_eq!(scanner.cursor, 3);
    scanner.advance_one();
    assert_eq!(scanner.cursor, 3);
    scanner.advance_many(usize::MAX);
    assert_eq!(scanner.cursor, 3);
}

#[test]
fn cursor_stays_in_bounds_after_every_operation() {
    let input = scalars("# a\n\n `b` **c**");
    let mut scanner = MdxParser::new(&input);
    let len = input.len();
    let mut last = scanner.cursor;
    scanner.skip_whitespace();
    assert!(last <= scanner.cursor && scanner.cursor <= len);
    last = scanner.cursor;
    let _ = scanner.consume_expect("#");
    assert!(last <= scanner.cursor && scanner.cursor <= len);
    last = scanner.cursor;
    let _ = scanner.consume_expect("nothing like this");
    assert!(last <= scanner.cursor && scanner.cursor <= len);
    last = scanner.cursor;
    let _ = scanner.consume_while(|_| true);
    assert!(last <= scanner.cursor && scanner.cursor <= len);
    assert_eq!(scanner.cursor, len);
    let _ = scanner.consume_expect_whitespace();
    let _ = scanner.consume_expect_newline();
    let _ = scanner.consume_expect_double_newline();
    scanner.skip_trivial();
    scanner.advance_one();
    assert_eq!(scanner.cursor, len);
}

#[test]
fn consume_expect_moves_past_the_literal() {
    let input = scalars("```rust");
    let mut scanner = MdxParser::new(&input);
    assert_eq!(scanner.consume_expect("```"), Ok(()));
    assert_eq!(scanner.cursor, 3);
}

#[test]
fn consume_expect_reports_a_mismatch_without_moving() {
    let input = scalars("ab");
    let mut scanner = MdxParser::new(&input);
    scanner.advance_one();
    assert_eq!(
        scanner.consume_expect("xyz"),
        Err(ParseError::ScanMismatch {
            offset: 1,
            expected: "xyz".to_string(),
            found: "b".to_string(),
        })
    );
    assert_eq!(scanner.cursor, 1);
}

#[test]
fn consume_expect_whitespace_takes_one_scalar() {
    let input = scalars("  x");
    let mut scanner = MdxParser::new(&input);
    assert_eq!(scanner.consume_expect_whitespace(), Ok(()));
    assert_eq!(scanner.cursor, 1);
    assert_eq!(scanner.consume_expect_whitespace(), Ok(()));
    assert_eq!(
        scanner.consume_expect_whitespace(),
        Err(ParseError::ScanMismatch {
            offset: 2,
            expected: " ".to_string(),
            found: "x".to_string(),
        })
    );
    assert_eq!(scanner.cursor, 2);
}

#[test]
fn consume_expect_newline_and_blank_line() {
    let input = scalars("\n\n\nx");
    let mut scanner = MdxParser::new(&input);
    assert!(scanner.is_newline());
    assert!(scanner.is_doble_newline());
    assert_eq!(scanner.consume_expect_double_newline(), Ok(()));
    assert_eq!(scanner.cursor, 2);
    assert!(!scanner.is_doble_newline());
    assert_eq!(
        scanner.consume_expect_double_newline(),
        Err(ParseError::ScanMismatch {
            offset: 2,
            expected: "\n\n".to_string(),
            found: "\nx".to_string(),
        })
    );
    assert_eq!(scanner.consume_expect_newline(), Ok(()));
    assert_eq!(scanner.cursor, 3);
    assert_eq!(
        scanner.consume_expect_newline(),
        Err(ParseError::ScanMismatch {
            offset: 3,
            expected: "\n".to_string(),
            found: "x".to_string(),
        })
    );
}

#[test]
fn consume_while_returns_the_longest_run() {
    let input = scalars("héllo wörld");
    let mut scanner = MdxParser::new(&input);
    assert_eq!(scanner.consume_while(|c| c != ' '), "héllo");
    assert_eq!(scanner.cursor, 5);
    assert_eq!(scanner.consume_while(|c| c != ' '), "");
    assert_eq!(scanner.cursor, 5);
    scanner.advance_one();
    assert_eq!(scanner.consume_while(|c| c != ' '), "wörld");
    assert!(scanner.is_end());
}

#[test]
fn consume_until_stops_before_the_scalar() {
    let input = scalars("alt] rest");
    let mut scanner = MdxParser::new(&input);
    assert_eq!(scanner.consume_until(']'), "alt");
    assert_eq!(scanner.peek_one(), ']');
}

#[test]
fn skip_whitespace_takes_unicode_white_space() {
    let input = scalars(" \t\r\n\u{a0}\u{2003}\u{3000}\u{85}x ");
    let mut scanner = MdxParser::new(&input);
    assert!(scanner.is_whitespace());
    scanner.skip_whitespace();
    assert_eq!(scanner.cursor, 8);
    assert_eq!(scanner.peek_one(), 'x');
    assert!(!scanner.is_whitespace());
    scanner.skip_trivial();
    assert_eq!(scanner.cursor, 8);
}

#[test]
fn zero_width_space_is_not_white_space() {
    let input = scalars("\u{200b}x");
    let mut scanner = MdxParser::new(&input);
    scanner.skip_whitespace();
    assert_eq!(scanner.cursor, 0);
}

#[test]
fn contains_tests_each_literal() {
    let input = scalars("_x");
    let scanner = MdxParser::new(&input);
    assert!(scanner.contains(vec!["`", "*", "_"]));
    assert!(!scanner.contains(vec!["`", "*"]));
    assert!(!scanner.contains(vec![]));
}

#[test]
fn digit_and_class_tests_at_the_end_are_false() {
    let input = scalars("7");
    let mut scanner = MdxParser::new(&input);
    assert!(scanner.is_digit());
    scanner.advance_one();
    assert!(!scanner.is_digit());
    assert!(!scanner.is_whitespace());
    assert!(!scanner.is_newline());
    assert!(!scanner.is_doble_newline());
}

#[test]
fn mismatch_reports_what_stands_at_the_cursor() {
    let input = scalars("abc");
    let mut scanner = MdxParser::new(&input);
    scanner.advance_many(2);
    assert_eq!(
        scanner.mismatch("xy"),
        ParseError::ScanMismatch { offset: 2, expected: "xy".to_string(), found: "c".to_string() }
    );
}
