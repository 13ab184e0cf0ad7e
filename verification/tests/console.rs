use ftoc::console::convert_line;

#[test]
fn console_converts_valid_line() {
    let line = convert_line("212").expect("valid input must convert");
    assert!(line.contains("212\u{b0}F is 100\u{b0}C"));
    assert_eq!(line, "Result: 212\u{b0}F is 100\u{b0}C");
}

#[test]
fn console_trims_the_line() {
    let line = convert_line("  -40\n").expect("valid input must convert");
    assert_eq!(line, "Result: -40\u{b0}F is -40\u{b0}C");
}

#[test]
fn console_rejects_invalid_line() {
    assert_eq!(convert_line("abc"), None);
    assert_eq!(convert_line(""), None);
    assert_eq!(convert_line("12.5"), None);
    assert_eq!(convert_line("9999999999"), None);
}
