use scop::ppm::{
    find_line_end, find_next_nonspace, find_next_space, parse_header, parse_p3_values,
    parse_u32_numeral, parse_u8_numeral, tokenize, trim_bytes,
};

#[test]
fn line_end_finds_the_newline() {
    let data = b"ab\ncd";
    assert_eq!(find_line_end(data, 0), 3);
    assert_eq!(find_line_end(data, 3), 5);
    assert_eq!(find_line_end(data, 5), 5);
}

#[test]
fn line_end_on_immediate_newline() {
    let data = b"\n\nx";
    assert_eq!(find_line_end(data, 0), 1);
    assert_eq!(find_line_end(data, 1), 2);
    assert_eq!(find_line_end(data, 2), 3);
}

#[test]
fn nonspace_and_space_scans() {
    let data = b"  a b";
    assert_eq!(find_next_nonspace(data, 0), 2);
    assert_eq!(find_next_space(data, 2), 3);
    assert_eq!(find_next_nonspace(data, 3), 4);
    assert_eq!(find_next_space(data, 4), 5);
}

#[test]
fn tokenize_splits_on_whitespace() {
    let ts = tokenize(b"  12 \t 345\r\n6 ");
    let ts: Vec<&[u8]> = ts.iter().map(|t| t.as_slice()).collect();
    assert_eq!(ts, vec![&b"12"[..], &b"345"[..], &b"6"[..]]);
}

#[test]
fn tokenize_of_blank_line_is_empty() {
    assert!(tokenize(b" \t \r\n").is_empty());
    assert!(tokenize(b"").is_empty());
}

#[test]
fn trim_removes_surrounding_whitespace() {
    assert_eq!(trim_bytes(b"  P3 \r\n"), b"P3".to_vec());
    assert_eq!(trim_bytes(b"P6"), b"P6".to_vec());
    assert_eq!(trim_bytes(b" a b "), b"a b".to_vec());
    assert_eq!(trim_bytes(b" \t "), Vec::<u8>::new());
}

#[test]
fn u32_numerals_parse_exactly() {
    assert_eq!(parse_u32_numeral(b"0"), Some(0));
    assert_eq!(parse_u32_numeral(b"0042"), Some(42));
    assert_eq!(parse_u32_numeral(b"+7"), Some(7));
    assert_eq!(parse_u32_numeral(b"4294967295"), Some(u32::MAX));
    assert_eq!(parse_u32_numeral(b"4294967296"), None);
    assert_eq!(parse_u32_numeral(b"99999999999999999999"), None);
    assert_eq!(parse_u32_numeral(b""), None);
    assert_eq!(parse_u32_numeral(b"+"), None);
    assert_eq!(parse_u32_numeral(b"-3"), None);
    assert_eq!(parse_u32_numeral(b"12a"), None);
    assert_eq!(parse_u32_numeral(b"a12"), None);
}

#[test]
fn u8_numerals_parse_exactly() {
    assert_eq!(parse_u8_numeral(b"255"), Some(255));
    assert_eq!(parse_u8_numeral(b"000"), Some(0));
    assert_eq!(parse_u8_numeral(b"+16"), Some(16));
    assert_eq!(parse_u8_numeral(b"256"), None);
    assert_eq!(parse_u8_numeral(b"x"), None);
}

#[test]
fn header_of_simple_stream() {
    // first line is consumed unexamined, then format, dimensions, max color
    let data = b"x\nP3\n1 1\n255\nrest";
    let h = parse_header(data).expect("header should scan");
    assert_eq!(h.format, b"P3".to_vec());
    assert_eq!(h.width, 1);
    assert_eq!(h.height, 1);
    assert_eq!(h.max_color, 255);
    assert_eq!(h.body_start, 13);
}

#[test]
fn header_skips_comments_and_keeps_last_dimensions() {
    let data = b"junk\n# note\nP6\n# more\n2 3\n4 5\n255\n";
    let h = parse_header(data).expect("header should scan");
    assert_eq!(h.format, b"P6".to_vec());
    // the later dimension pair wins
    assert_eq!(h.width, 4);
    assert_eq!(h.height, 5);
    assert_eq!(h.max_color, 255);
}

#[test]
fn header_ignores_lines_with_other_token_counts() {
    let data = b"x\nP3\n9 9 9\n1 2\n255\n";
    let h = parse_header(data).expect("header should scan");
    assert_eq!(h.width, 1);
    assert_eq!(h.height, 2);
}

#[test]
fn header_format_line_may_come_after_blank_lines() {
    let data = b"x\n \t \nP3\n1 1\n255\n";
    let h = parse_header(data).expect("header should scan");
    assert_eq!(h.format, b"P3".to_vec());
}

#[test]
fn header_missing_max_color_fails() {
    assert!(parse_header(b"x\nP3\n2 1\n").is_none());
    assert!(parse_header(b"").is_none());
    assert!(parse_header(b"x\n").is_none());
}

#[test]
fn header_bad_numerals_fail() {
    assert!(parse_header(b"x\nP3\n2 one\n255\n").is_none());
    assert!(parse_header(b"x\nP3\n2 1\nabc\n").is_none());
    assert!(parse_header(b"x\nP3\n4294967296 1\n255\n").is_none());
}

#[test]
fn p3_values_read_line_by_line() {
    let data = b"1 2\n3\n4 5 6\n";
    let vals = parse_p3_values(data, 0).expect("values should read");
    assert_eq!(vals, vec![1, 2, 3, 4, 5, 6]);
}

#[test]
fn p3_values_from_offset_and_empty_tail() {
    let data = b"9 9\n7 8\n";
    assert_eq!(parse_p3_values(data, 4), Some(vec![7, 8]));
    assert_eq!(parse_p3_values(data, 8), Some(vec![]));
}

#[test]
fn p3_values_reject_bad_samples() {
    assert!(parse_p3_values(b"1 256 2\n", 0).is_none());
    assert!(parse_p3_values(b"1 -2 3\n", 0).is_none());
    assert!(parse_p3_values(b"1 2\nx\n", 0).is_none());
}
