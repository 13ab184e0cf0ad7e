use ftoc::interactive::{AppState, Key};

fn type_str(st: &mut AppState, text: &str) {
    for c in text.chars() {
        st.step(Key::Char(c));
    }
}

fn submit(st: &mut AppState, text: &str) -> String {
    type_str(st, text);
    st.step(Key::Enter);
    st.output.clone().expect("Enter always sets the output")
}

#[test]
fn typing_and_enter_shows_conversion() {
    let mut st = AppState::new();
    st.step(Key::Char('2'));
    st.step(Key::Char('1'));
    st.step(Key::Char('2'));
    st.step(Key::Enter);
    let out = st.output.clone().expect("submit must set the output");
    assert!(out.contains("212\u{b0}F = 100\u{b0}C"));
    assert_eq!(out, "212\u{b0}F = 100\u{b0}C");
    assert!(st.input.is_empty());
    assert!(st.is_running());
}

#[test]
fn negative_input_converts() {
    let mut st = AppState::new();
    let out = submit(&mut st, "-40");
    assert_eq!(out, "-40\u{b0}F = -40\u{b0}C");
}

#[test]
fn enter_on_empty_buffer_shows_error() {
    let mut st = AppState::new();
    st.step(Key::Enter);
    assert_eq!(st.output.as_deref(), Some("Invalid number! Try again."));
    assert!(st.input.is_empty());
    assert!(st.is_running());
}

#[test]
fn malformed_buffer_shows_error_and_recovers() {
    let mut st = AppState::new();
    let out = submit(&mut st, "2-2");
    assert_eq!(out, "Invalid number! Try again.");
    // The loop keeps going and the next submit works.
    let out = submit(&mut st, "50");
    assert_eq!(out, "50\u{b0}F = 10\u{b0}C");
}

#[test]
fn out_of_range_buffer_shows_error() {
    let mut st = AppState::new();
    let out = submit(&mut st, "2147483648");
    assert_eq!(out, "Invalid number! Try again.");
}

#[test]
fn backspace_edits_the_buffer() {
    let mut st = AppState::new();
    type_str(&mut st, "21");
    st.step(Key::Backspace);
    st.step(Key::Char('3'));
    assert_eq!(st.input, vec!['2', '3']);
    st.step(Key::Enter);
    assert_eq!(st.output.as_deref(), Some("23\u{b0}F = -5\u{b0}C"));
}

#[test]
fn backspace_on_empty_buffer_is_harmless() {
    let mut st = AppState::new();
    st.step(Key::Backspace);
    assert!(st.input.is_empty());
    assert!(st.is_running());
    assert_eq!(st.output, None);
}

#[test]
fn other_keys_are_ignored() {
    let mut st = AppState::new();
    type_str(&mut st, "21");
    st.step(Key::Char('x'));
    st.step(Key::Char(' '));
    st.step(Key::Other);
    assert_eq!(st.input, vec!['2', '1']);
    assert!(st.is_running());
    assert_eq!(st.output, None);
}

#[test]
fn escape_terminates_immediately() {
    let mut st = AppState::new();
    assert!(st.is_running());
    st.step(Key::Esc);
    assert!(!st.is_running());
}

#[test]
fn escape_terminates_with_pending_buffer() {
    let mut st = AppState::new();
    type_str(&mut st, "212");
    st.step(Key::Esc);
    assert!(!st.is_running());
    // A terminated state no longer reacts to keys.
    st.step(Key::Char('5'));
    st.step(Key::Enter);
    assert!(!st.is_running());
    assert_eq!(st.input, vec!['2', '1', '2']);
    assert_eq!(st.output, None);
}

#[test]
fn repeated_submit_gives_same_output() {
    let mut st = AppState::new();
    let first = submit(&mut st, "212");
    let second = submit(&mut st, "212");
    assert_eq!(first, second);

    let first = submit(&mut st, "boom?");
    let second = submit(&mut st, "boom?");
    assert_eq!(first, second);
}

#[test]
fn screen_text_helpers() {
    let mut st = AppState::new();
    assert_eq!(st.output_line(), "Type a number and press Enter to convert");
    assert_eq!(st.input_line(), "");
    type_str(&mut st, "-12");
    assert_eq!(st.input_line(), "-12");
    st.step(Key::Enter);
    assert_eq!(st.output_line(), "-12\u{b0}F = -24\u{b0}C");
    assert_eq!(st.input_line(), "");
}
