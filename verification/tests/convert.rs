use ftoc::convert::faren_to_celsius;

#[test]
fn converter_reference_values() {
    assert_eq!(faren_to_celsius(32), 0);
    assert_eq!(faren_to_celsius(212), 100);
    assert_eq!(faren_to_celsius(-40), -40);
    assert_eq!(faren_to_celsius(0), -17);
}

#[test]
fn converter_truncates_toward_zero() {
    // (31 - 32) * 5 = -5; -5 / 9 truncates to 0, not -1.
    assert_eq!(faren_to_celsius(31), 0);
    assert_eq!(faren_to_celsius(33), 0);
    assert_eq!(faren_to_celsius(50), 10);
    assert_eq!(faren_to_celsius(-4), -20);
}

#[test]
fn converter_total_at_extremes() {
    assert_eq!(faren_to_celsius(i32::MAX), 1_193_046_452);
    assert_eq!(faren_to_celsius(i32::MIN), -1_193_046_488);
}
