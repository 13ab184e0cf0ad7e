use ftoc::numeral::{chars_of, format_i32, parse_i32, trim_chars};

fn chars(s: &str) -> Vec<char> {
    s.chars().collect()
}

#[test]
fn parse_plain_and_signed() {
    assert_eq!(parse_i32(&chars("212")), Some(212));
    assert_eq!(parse_i32(&chars("0")), Some(0));
    assert_eq!(parse_i32(&chars("-40")), Some(-40));
    assert_eq!(parse_i32(&chars("+7")), Some(7));
    assert_eq!(parse_i32(&chars("007")), Some(7));
}

#[test]
fn parse_rejects_non_numerals() {
    assert_eq!(parse_i32(&chars("")), None);
    assert_eq!(parse_i32(&chars("-")), None);
    assert_eq!(parse_i32(&chars("+")), None);
    assert_eq!(parse_i32(&chars("abc")), None);
    assert_eq!(parse_i32(&chars("1-2")), None);
    assert_eq!(parse_i32(&chars("--5")), None);
    assert_eq!(parse_i32(&chars("12 ")), None);
    assert_eq!(parse_i32(&chars("1.5")), None);
}

#[test]
fn parse_respects_i32_range() {
    assert_eq!(parse_i32(&chars("2147483647")), Some(i32::MAX));
    assert_eq!(parse_i32(&chars("2147483648")), None);
    assert_eq!(parse_i32(&chars("-2147483648")), Some(i32::MIN));
    assert_eq!(parse_i32(&chars("-2147483649")), None);
    assert_eq!(parse_i32(&chars("99999999999999999999")), None);
}

#[test]
fn format_renders_decimals() {
    assert_eq!(format_i32(0), "0");
    assert_eq!(format_i32(7), "7");
    assert_eq!(format_i32(212), "212");
    assert_eq!(format_i32(-17), "-17");
    assert_eq!(format_i32(i32::MAX), "2147483647");
    assert_eq!(format_i32(i32::MIN), "-2147483648");
}

#[test]
fn format_then_parse_round_trips() {
    for n in [0, 1, -1, 212, -40, i32::MAX, i32::MIN] {
        let rendered = format_i32(n);
        let buf: Vec<char> = rendered.chars().collect();
        assert_eq!(parse_i32(&buf), Some(n));
    }
}

#[test]
fn trim_removes_surrounding_whitespace() {
    assert_eq!(trim_chars(&chars(" 212\n")), chars("212"));
    assert_eq!(trim_chars(&chars("\t-40\r\n")), chars("-40"));
    assert_eq!(trim_chars(&chars("   ")), chars(""));
    assert_eq!(trim_chars(&chars("")), chars(""));
    assert_eq!(trim_chars(&chars("a b")), chars("a b"));
}

#[test]
fn chars_of_matches_str_chars() {
    assert_eq!(chars_of("212"), chars("212"));
    assert_eq!(chars_of(""), chars(""));
    assert_eq!(chars_of(" -40 "), chars(" -40 "));
}
