use basic_cookies::{ScanCharResult, ScanUntilCharResult, StringScanner};

#[test]
fn get_cursor() {
    assert_eq!(0, StringScanner::from_str("").get_cursor())
}

#[test]
fn is_at_end_of_string_empty() {
    let scanner = StringScanner::from_str("");
    assert_eq!(true, scanner.is_at_end_of_string());
}

#[test]
fn is_at_end_of_string_false() {
    let scanner = StringScanner::from_str("abc");
    assert_eq!(false, scanner.is_at_end_of_string());
}

#[test]
fn is_at_end_of_string_true() {
    let mut scanner = StringScanner::from_str("abc");
    scanner.scan_char_once('a');
    scanner.scan_char_once('b');
    scanner.scan_char_once('c');

    assert_eq!(true, scanner.is_at_end_of_string());
}

#[test]
fn scan_char_once_single_occurence() {
    let mut scanner = StringScanner::from_str("abcde");
    let result = scanner.scan_char_once('a');
    assert_eq!(ScanCharResult::CharFound(1), result);
    assert_eq!(1, scanner.get_cursor());
}

#[test]
fn scan_char_once_multiple_occurences() {
    let mut scanner = StringScanner::from_str("aaaabcde");
    let result = scanner.scan_char_once('a');
    assert_eq!(ScanCharResult::CharFound(1), result);
    assert_eq!(1, scanner.get_cursor());
}

#[test]
fn scan_char_once_no_match() {
    let mut scanner = StringScanner::from_str("bcde");
    let result = scanner.scan_char_once('a');
    assert_eq!(ScanCharResult::CharNotFound, result);
    assert_eq!(0, scanner.get_cursor());
}

#[test]
fn scan_char_once_empty_str() {
    let mut scanner = StringScanner::from_str("");
    let result = scanner.scan_char_once('a');
    assert_eq!(ScanCharResult::CharNotFound, result);
    assert_eq!(0, scanner.get_cursor());
}

#[test]
fn scan_until_char_immediate() {
    let mut scanner = StringScanner::from_str("abcde");
    let result = scanner.scan_until_char('a');
    assert_eq!(ScanUntilCharResult::CharFound, result);
    assert_eq!(0, scanner.get_cursor());
}

#[test]
fn scan_until_char_empty() {
    let mut scanner = StringScanner::from_str("");
    let result = scanner.scan_until_char('a');
    assert_eq!(ScanUntilCharResult::EndOfStringReached, result);
    assert_eq!(0, scanner.get_cursor());
}

#[test]
fn scan_until_char_mid_string() {
    let mut scanner = StringScanner::from_str("abcde");
    let result = scanner.scan_until_char('c');
    assert_eq!(ScanUntilCharResult::CharFound, result);
    assert_eq!(2, scanner.get_cursor());
}

#[test]
fn scan_until_char_mid_string_multiple_matches() {
    let mut scanner = StringScanner::from_str("abccde");
    let result = scanner.scan_until_char('c');
    assert_eq!(ScanUntilCharResult::CharFound, result);
    assert_eq!(2, scanner.get_cursor());
}

#[test]
fn scan_until_char_no_match() {
    let mut scanner = StringScanner::from_str("abcde");
    let result = scanner.scan_until_char('x');
    assert_eq!(ScanUntilCharResult::EndOfStringReached, result);
    assert_eq!(5, scanner.get_cursor());
}

#[test]
fn scan_until_char_or_whitespace_immediate() {
    let mut scanner = StringScanner::from_str("abcde");
    let result = scanner.scan_until_char_or_whitespace('a');
    assert_eq!(ScanUntilCharResult::CharFound, result);
    assert_eq!(0, scanner.get_cursor());
}

#[test]
fn scan_until_char_or_whitespace_empty() {
    let mut scanner = StringScanner::from_str("");
    let result = scanner.scan_until_char_or_whitespace('a');
    assert_eq!(ScanUntilCharResult::EndOfStringReached, result);
    assert_eq!(0, scanner.get_cursor());
}

#[test]
fn scan_until_char_or_whitespace_mid_string() {
    let mut scanner = StringScanner::from_str("abcde");
    let result = scanner.scan_until_char_or_whitespace('c');
    assert_eq!(ScanUntilCharResult::CharFound, result);
    assert_eq!(2, scanner.get_cursor());
}

#[test]
fn scan_until_char_or_whitespace_mid_string_x09() {
    let mut scanner = StringScanner::from_str("ab\x09de");
    let result = scanner.scan_until_char_or_whitespace('c');
    assert_eq!(ScanUntilCharResult::CharFound, result);
    assert_eq!(2, scanner.get_cursor());
}

#[test]
fn scan_until_char_or_whitespace_mid_string_x20() {
    let mut scanner = StringScanner::from_str("ab de");
    let result = scanner.scan_until_char_or_whitespace('c');
    assert_eq!(ScanUntilCharResult::CharFound, result);
    assert_eq!(2, scanner.get_cursor());
}

#[test]
fn scan_until_char_or_whitespace_mid_string_multiple_matches() {
    let mut scanner = StringScanner::from_str("abccde");
    let result = scanner.scan_until_char_or_whitespace('c');
    assert_eq!(ScanUntilCharResult::CharFound, result);
    assert_eq!(2, scanner.get_cursor());
}

#[test]
fn scan_until_char_or_whitespace_mid_string_multiple_matches_x09() {
    let mut scanner = StringScanner::from_str("ab\x09\x09de");
    let result = scanner.scan_until_char_or_whitespace('c');
    assert_eq!(ScanUntilCharResult::CharFound, result);
    assert_eq!(2, scanner.get_cursor());
}

#[test]
fn scan_until_char_or_whitespace_mid_string_multiple_matches_x20() {
    let mut scanner = StringScanner::from_str("ab \x09de");
    let result = scanner.scan_until_char_or_whitespace('c');
    assert_eq!(ScanUntilCharResult::CharFound, result);
    assert_eq!(2, scanner.get_cursor());
}

#[test]
fn scan_until_char_or_whitespace_mid_string_multiple_matches_mixed() {
    let mut scanner = StringScanner::from_str("ab\x20cde");
    let result = scanner.scan_until_char_or_whitespace('c');
    assert_eq!(ScanUntilCharResult::CharFound, result);
    assert_eq!(2, scanner.get_cursor());
}

#[test]
fn scan_until_char_or_whitespace_no_match() {
    let mut scanner = StringScanner::from_str("abcde");
    let result = scanner.scan_until_char_or_whitespace('x');
    assert_eq!(ScanUntilCharResult::EndOfStringReached, result);
    assert_eq!(5, scanner.get_cursor());
}

#[test]
fn scan_whitespace_repeating_empty() {
    let mut scanner = StringScanner::from_str("");
    let result = scanner.scan_whitespace_repeating();
    assert_eq!(ScanCharResult::CharNotFound, result);
    assert_eq!(0, scanner.get_cursor());
}

#[test]
fn scan_whitespace_repeating_no_whitespace() {
    let mut scanner = StringScanner::from_str("abcde");
    let result = scanner.scan_whitespace_repeating();
    assert_eq!(ScanCharResult::CharNotFound, result);
    assert_eq!(0, scanner.get_cursor());
}

#[test]
fn scan_whitespace_repeating_single_x09() {
    let mut scanner = StringScanner::from_str("\x09");
    let result = scanner.scan_whitespace_repeating();
    assert_eq!(ScanCharResult::CharFound(1), result);
    assert_eq!(1, scanner.get_cursor());
}

#[test]
fn scan_whitespace_repeating_single_x20() {
    let mut scanner = StringScanner::from_str("\x20");
    let result = scanner.scan_whitespace_repeating();
    assert_eq!(ScanCharResult::CharFound(1), result);
    assert_eq!(1, scanner.get_cursor());
}

#[test]
fn scan_whitespace_repeating_mixed_entire_str() {
    let mut scanner = StringScanner::from_str(" \x09\x20\x09 ");
    let result = scanner.scan_whitespace_repeating();
    assert_eq!(ScanCharResult::CharFound(5), result);
    assert_eq!(5, scanner.get_cursor());
}

#[test]
fn scan_whitespace_repeating_mixed_prefix_only() {
    let mut scanner = StringScanner::from_str(" \x09\x20\x09 abcde");
    let result = scanner.scan_whitespace_repeating();
    assert_eq!(ScanCharResult::CharFound(5), result);
    assert_eq!(5, scanner.get_cursor());
}

#[test]
fn scanner_walks_wide_codepoints() {
    let mut scanner = StringScanner::from_str("東京=都; x");
    assert_eq!(ScanUntilCharResult::CharFound, scanner.scan_until_char('='));
    assert_eq!(2, scanner.get_cursor());
    assert_eq!("東京", scanner.substring(0, 2));
    assert_eq!(ScanCharResult::CharFound(1), scanner.scan_char_once('='));
    assert_eq!(ScanUntilCharResult::CharFound, scanner.scan_until_char_or_whitespace(';'));
    assert_eq!(4, scanner.get_cursor());
    assert_eq!("都", scanner.substring(3, 4));
}

#[test]
fn scan_until_char_or_whitespace_stops_at_separator() {
    let mut scanner = StringScanner::from_str("abc;def");
    assert_eq!(ScanUntilCharResult::CharFound, scanner.scan_until_char_or_whitespace(';'));
    assert_eq!(3, scanner.get_cursor());
    assert_eq!(ScanCharResult::CharNotFound, scanner.scan_whitespace_repeating());
    assert_eq!(3, scanner.get_cursor());
}
