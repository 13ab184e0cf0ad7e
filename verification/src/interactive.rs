//! The interactive front end's state machine.
//!
//! The full-screen mode runs a polling loop: draw the screen, wait briefly for
//! a key, update the state, repeat until the user quits. Everything the loop
//! decides is here, as a pure transition from (state, key) to the next state;
//! drawing and key polling stay outside the library. The state is the pending
//! input buffer and the last output line, plus whether the loop is still
//! running.

use vstd::prelude::*;
use vstd::string::*;
use crate::convert::{f_to_c, faren_to_celsius};
use crate::numeral::{
    dec_rep, format_i32, is_dec_digit, literal_val, parse_i32, parses_to_i32, trim_chars,
    trim_seq,
};

verus! {

/// Whether the interactive loop keeps going.
#[derive(Clone, Copy, Debug, PartialEq, Eq, Structural)]
pub enum Mode {
    Running,
    Terminated,
}

/// A keyboard event, as far as the state machine cares about it. Every key
/// the terminal can report maps onto one of these; `Other` stands for all
/// the keys the loop ignores.
#[derive(Clone, Copy, Debug, PartialEq, Eq, Structural)]
pub enum Key {
    Char(char),
    Backspace,
    Enter,
    Esc,
    Other,
}

/// The mathematical image of an [`AppState`].
#[verifier::ext_equal]
pub struct StateView {
    pub mode: Mode,
    pub input: Seq<char>,
    pub output: Option<Seq<char>>,
}

/// A character the input buffer accepts: a decimal digit or a minus sign.
pub open spec fn accepts_char(c: char) -> bool {
    is_dec_digit(c) || c == '-'
}

/// The buffer invariant: it only ever holds digits and minus signs;
/// every other keystroke is ignored.
pub open spec fn buffer_wf(s: StateView) -> bool {
    forall|i: int| 0 <= i < s.input.len() ==> accepts_char(#[trigger] s.input[i])
}

/// The message a successful conversion of `f` shows.
pub open spec fn success_msg_seq(f: int) -> Seq<char> {
    dec_rep(f) + "\u{b0}F = "@ + dec_rep(f_to_c(f)) + "\u{b0}C"@
}

/// The message shown when the submitted buffer is not a number.
pub open spec fn invalid_msg_seq() -> Seq<char> {
    "Invalid number! Try again."@
}

/// The instruction shown before the first submit.
pub open spec fn placeholder_seq() -> Seq<char> {
    "Type a number and press Enter to convert"@
}

/// What pressing Enter on buffer `input` puts into the last-output field.
pub open spec fn submit_msg_seq(input: Seq<char>) -> Seq<char> {
    if parses_to_i32(trim_seq(input)) {
        success_msg_seq(literal_val(trim_seq(input)))
    } else {
        invalid_msg_seq()
    }
}

/// The state after the loop handles key `k` in state `s`. A terminated
/// state never changes; a running one follows the dispatch table: accepted
/// characters extend the buffer, Backspace shortens it, Enter submits it,
/// Escape quits, anything else is ignored.
pub open spec fn spec_step(s: StateView, k: Key) -> StateView {
    if s.mode is Terminated {
        s
    } else {
        match k {
            Key::Char(c) => {
                if accepts_char(c) {
                    StateView { input: s.input.push(c), ..s }
                } else {
                    s
                }
            },
            Key::Backspace => {
                if s.input.len() > 0 {
                    StateView { input: s.input.drop_last(), ..s }
                } else {
                    s
                }
            },
            Key::Enter => StateView {
                mode: s.mode,
                input: Seq::empty(),
                output: Some(submit_msg_seq(s.input)),
            },
            Key::Esc => StateView { mode: Mode::Terminated, ..s },
            Key::Other => s,
        }
    }
}

/// The state the interactive loop starts in.
pub open spec fn init_view() -> StateView {
    StateView { mode: Mode::Running, input: Seq::empty(), output: None }
}

/// The state after a whole sequence of keys, first key first.
pub open spec fn run_keys(s: StateView, ks: Seq<Key>) -> StateView
    decreases ks.len(),
{
    if ks.len() == 0 {
        s
    } else {
        run_keys(spec_step(s, ks[0]), ks.subrange(1, ks.len() as int))
    }
}

/// A key the buffer accepts as typing: a character key carrying a digit
/// or a minus sign.
pub open spec fn is_typing_key(k: Key) -> bool {
    match k {
        Key::Char(c) => accepts_char(c),
        _ => false,
    }
}

/// The character a typing key carries. (The value for other keys is
/// immaterial; no lemma looks at it.)
pub open spec fn key_char(k: Key) -> char {
    match k {
        Key::Char(c) => c,
        _ => ' ',
    }
}

/// The characters a sequence of typing keys types out, in order.
pub open spec fn typed_chars(ks: Seq<Key>) -> Seq<char>
    decreases ks.len(),
{
    if ks.len() == 0 {
        Seq::empty()
    } else {
        seq![key_char(ks[0])] + typed_chars(ks.subrange(1, ks.len() as int))
    }
}

/// Typing keys type out one character each.
pub proof fn lemma_typed_chars_len(ks: Seq<Key>)
    ensures
        typed_chars(ks).len() == ks.len(),
    decreases ks.len(),
{
    if ks.len() > 0 {
        lemma_typed_chars_len(ks.subrange(1, ks.len() as int));
    }
}

/// Pressing Escape terminates the loop within that very step, whatever the
/// input buffer and output hold.
pub proof fn lemma_escape_terminates(s: StateView)
    ensures
        spec_step(s, Key::Esc).mode is Terminated,
{
}

/// Handling any key preserves the buffer invariant: the input buffer only
/// ever holds digits and minus signs.
pub proof fn lemma_step_preserves_buffer_wf(s: StateView, k: Key)
    requires
        buffer_wf(s),
    ensures
        buffer_wf(spec_step(s, k)),
{
    let t = spec_step(s, k);
    assert forall|i: int| 0 <= i < t.input.len() implies accepts_char(#[trigger] t.input[i]) by {
        if s.mode is Running && (k matches Key::Char(c) && accepts_char(c)) {
            if i < s.input.len() {
                assert(t.input[i] == s.input[i]);
            }
        } else if s.mode is Running && k is Backspace && s.input.len() > 0 {
            assert(t.input[i] == s.input[i]);
        }
    }
}

/// The buffer invariant holds in every state the loop can reach: whatever
/// keys arrive, the input buffer only ever holds digits and minus signs.
pub proof fn lemma_run_keys_preserves_buffer_wf(s: StateView, ks: Seq<Key>)
    requires
        buffer_wf(s),
    ensures
        buffer_wf(run_keys(s, ks)),
    decreases ks.len(),
{
    if ks.len() > 0 {
        lemma_step_preserves_buffer_wf(s, ks[0]);
        lemma_run_keys_preserves_buffer_wf(spec_step(s, ks[0]), ks.subrange(1, ks.len() as int));
    }
}

/// Running a key sequence extended by one more key is running the sequence,
/// then handling that key.
pub proof fn lemma_run_keys_snoc(s: StateView, ks: Seq<Key>, k: Key)
    ensures
        run_keys(s, ks.push(k)) == spec_step(run_keys(s, ks), k),
    decreases ks.len(),
{
    if ks.len() == 0 {
        assert(ks.push(k)[0] == k);
        assert(ks.push(k).subrange(1, 1) =~= Seq::<Key>::empty());
        assert(run_keys(spec_step(s, k), Seq::<Key>::empty()) == spec_step(s, k));
        assert(run_keys(s, ks) == s);
    } else {
        assert(ks.push(k)[0] == ks[0]);
        assert(ks.push(k).subrange(1, ks.len() as int + 1) =~= ks.subrange(
            1,
            ks.len() as int,
        ).push(k));
        lemma_run_keys_snoc(spec_step(s, ks[0]), ks.subrange(1, ks.len() as int), k);
    }
}

/// Typing accepted characters in a running state appends them to the buffer
/// and changes nothing else.
pub proof fn lemma_run_typing_keys(s: StateView, ks: Seq<Key>)
    requires
        s.mode is Running,
        forall|i: int| 0 <= i < ks.len() ==> is_typing_key(#[trigger] ks[i]),
    ensures
        run_keys(s, ks) == (StateView {
            mode: Mode::Running,
            input: s.input + typed_chars(ks),
            output: s.output,
        }),
    decreases ks.len(),
{
    lemma_typed_chars_len(ks);
    if ks.len() == 0 {
        assert(s.input + typed_chars(ks) =~= s.input);
        assert(run_keys(s, ks) =~= StateView {
            mode: Mode::Running,
            input: s.input + typed_chars(ks),
            output: s.output,
        });
    } else {
        let rest = ks.subrange(1, ks.len() as int);
        lemma_typed_chars_len(rest);
        assert(is_typing_key(ks[0]));
        let s1 = spec_step(s, ks[0]);
        assert(s1 == (StateView {
            mode: Mode::Running,
            input: s.input.push(key_char(ks[0])),
            ..s
        }));
        lemma_run_typing_keys(s1, rest);
        assert(s.input.push(key_char(ks[0])) + typed_chars(rest) =~= s.input + typed_chars(ks));
    }
}

/// Submitting the same digit sequence twice in a row shows the same output
/// message both times. Each submit clears the buffer, so starting from an
/// empty buffer the second round types into exactly the state the first
/// round typed into.
pub proof fn lemma_repeat_submit_same_output(s: StateView, ks: Seq<Key>)
    requires
        s.mode is Running,
        s.input.len() == 0,
        forall|i: int| 0 <= i < ks.len() ==> is_typing_key(#[trigger] ks[i]),
    ensures
        ({
            let once = run_keys(s, ks.push(Key::Enter));
            let twice = run_keys(once, ks.push(Key::Enter));
            &&& once.output == Some(submit_msg_seq(typed_chars(ks)))
            &&& twice.output == once.output
            &&& once.input.len() == 0
            &&& once.mode is Running
        }),
{
    let ds = typed_chars(ks);
    lemma_run_keys_snoc(s, ks, Key::Enter);
    lemma_run_typing_keys(s, ks);
    assert(s.input + ds =~= ds);
    let once = run_keys(s, ks.push(Key::Enter));
    lemma_run_keys_snoc(once, ks, Key::Enter);
    lemma_run_typing_keys(once, ks);
    assert(once.input + ds =~= ds);
}

/// The state of the interactive loop: the pending input buffer, the last
/// output line (`None` until the first submit), and whether the loop still
/// runs.
pub struct AppState {
    pub mode: Mode,
    pub input: Vec<char>,
    pub output: Option<String>,
}

impl View for AppState {
    type V = StateView;

    open spec fn view(&self) -> StateView {
        StateView {
            mode: self.mode,
            input: self.input@,
            output: match self.output {
                Some(ref m) => Some(m@),
                None => None,
            },
        }
    }
}

impl AppState {
    /// A fresh state: running, empty buffer, no output yet.
    pub fn new() -> (s: AppState)
        ensures
            s@ == init_view(),
    {
        let s = AppState { mode: Mode::Running, input: Vec::new(), output: None };
        proof {
            assert(s@ =~= init_view());
        }
        s
    }

    /// Whether the loop should keep polling.
    pub fn is_running(&self) -> (b: bool)
        ensures
            b == (self@.mode is Running),
    {
        match self.mode {
            Mode::Running => true,
            Mode::Terminated => false,
        }
    }

    /// Handle one keyboard event: exactly the dispatch of [`spec_step`].
    pub fn step(&mut self, k: Key)
        ensures
            final(self)@ == spec_step(old(self)@, k),
    {
        match self.mode {
            Mode::Terminated => {
                return;
            },
            Mode::Running => {},
        }
        match k {
            Key::Char(c) => {
                let accept = match crate::numeral::digit_of_char(c) {
                    Some(_) => true,
                    None => c == '-',
                };
                if accept {
                    self.input.push(c);
                }
                proof {
                    assert(self@ =~= spec_step(old(self)@, k));
                }
            },
            Key::Backspace => {
                if self.input.len() > 0 {
                    self.input.pop();
                }
                proof {
                    assert(self@ =~= spec_step(old(self)@, k));
                }
            },
            Key::Enter => {
                let msg = submit_message(&self.input);
                self.output = Some(msg);
                self.input.clear();
                proof {
                    assert(self@ =~= spec_step(old(self)@, k));
                }
            },
            Key::Esc => {
                self.mode = Mode::Terminated;
                proof {
                    assert(self@ =~= spec_step(old(self)@, k));
                }
            },
            Key::Other => {
                proof {
                    assert(self@ =~= spec_step(old(self)@, k));
                }
            },
        }
    }

    /// The text of the output region: the last output, or the placeholder
    /// instruction before the first submit.
    pub fn output_line(&self) -> (r: String)
        ensures
            r@ == match self@.output {
                Some(m) => m,
                None => placeholder_seq(),
            },
    {
        match &self.output {
            Some(m) => m.clone(),
            None => String::from_str("Type a number and press Enter to convert"),
        }
    }

    /// The current input buffer as text, for the input region of the screen.
    /// Exact whenever the buffer invariant holds, which it does in every
    /// state the loop can reach; characters outside the invariant are
    /// skipped rather than rendered wrongly.
    pub fn input_line(&self) -> (r: String)
        ensures
            buffer_wf(self@) ==> r@ == self@.input,
    {
        let mut out = String::new();
        let mut i: usize = 0;
        let n: usize = self.input.len();
        proof {
            assert(self@.input.subrange(0, 0) =~= Seq::<char>::empty());
        }
        while i < n
            invariant
                i <= n,
                n == self@.input.len(),
                self@.input == self.input@,
                buffer_wf(self@) ==> out@ == self@.input.subrange(0, i as int),
            decreases n - i,
        {
            let c = self.input[i];
            push_accepted_char(&mut out, c);
            proof {
                if buffer_wf(self@) {
                    assert(self@.input.subrange(0, i as int + 1) =~= self@.input.subrange(
                        0,
                        i as int,
                    ).push(self@.input[i as int]));
                }
            }
            i = i + 1;
        }
        proof {
            assert(self@.input.subrange(0, n as int) =~= self@.input);
        }
        out
    }
}

/// The last-output message for submitting buffer `input`: the formatted
/// conversion when the trimmed buffer parses as an `i32`, the fixed error
/// message otherwise.
pub fn submit_message(input: &Vec<char>) -> (r: String)
    ensures
        r@ == submit_msg_seq(input@),
{
    let trimmed = trim_chars(input);
    match parse_i32(&trimmed) {
        Some(f) => {
            let c = faren_to_celsius(f);
            let mut msg = format_i32(f);
            msg.append("\u{b0}F = ");
            msg.append(format_i32(c).as_str());
            msg.append("\u{b0}C");
            proof {
                assert(msg@ =~= submit_msg_seq(input@));
            }
            msg
        },
        None => {
            let msg = String::from_str("Invalid number! Try again.");
            proof {
                assert(msg@ == invalid_msg_seq());
            }
            msg
        },
    }
}

/// Append `c` to the string if the buffer invariant admits it; leave the
/// string unchanged otherwise.
fn push_accepted_char(out: &mut String, c: char)
    ensures
        accepts_char(c) ==> final(out)@ == old(out)@ + seq![c],
        !accepts_char(c) ==> final(out)@ == old(out)@,
{
    match c {
        '0' => {
            out.append("0");
            proof {
                reveal_strlit("0");
                assert(final(out)@ =~= old(out)@ + seq![c]);
            }
        },
        '1' => {
            out.append("1");
            proof {
                reveal_strlit("1");
                assert(final(out)@ =~= old(out)@ + seq![c]);
            }
        },
        '2' => {
            out.append("2");
            proof {
                reveal_strlit("2");
                assert(final(out)@ =~= old(out)@ + seq![c]);
            }
        },
        '3' => {
            out.append("3");
            proof {
                reveal_strlit("3");
                assert(final(out)@ =~= old(out)@ + seq![c]);
            }
        },
        '4' => {
            out.append("4");
            proof {
                reveal_strlit("4");
                assert(final(out)@ =~= old(out)@ + seq![c]);
            }
        },
        '5' => {
            out.append("5");
            proof {
                reveal_strlit("5");
                assert(final(out)@ =~= old(out)@ + seq![c]);
            }
        },
        '6' => {
            out.append("6");
            proof {
                reveal_strlit("6");
                assert(final(out)@ =~= old(out)@ + seq![c]);
            }
        },
        '7' => {
            out.append("7");
            proof {
                reveal_strlit("7");
                assert(final(out)@ =~= old(out)@ + seq![c]);
            }
        },
        '8' => {
            out.append("8");
            proof {
                reveal_strlit("8");
                assert(final(out)@ =~= old(out)@ + seq![c]);
            }
        },
        '9' => {
            out.append("9");
            proof {
                reveal_strlit("9");
                assert(final(out)@ =~= old(out)@ + seq![c]);
            }
        },
        '-' => {
            out.append("-");
            proof {
                reveal_strlit("-");
                assert(final(out)@ =~= old(out)@ + seq![c]);
            }
        },
        _ => {
            proof {
                assert(!accepts_char(c));
            }
        },
    }
}

} // verus!
