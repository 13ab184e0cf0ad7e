//! Reading and writing decimal numerals.
//!
//! The spec side gives a mathematical account of signed decimal literals over
//! character sequences: which sequences are literals, what integer a literal
//! denotes, and what the canonical decimal rendering of an integer is. The
//! exec side parses an `i32` out of a character buffer, renders an `i32` back
//! to text, and trims surrounding whitespace, each proved against that account.

use vstd::prelude::*;
use vstd::string::*;

verus! {

/// An ASCII decimal digit, `'0'` (code 48) through `'9'` (code 57).
pub open spec fn is_dec_digit(c: char) -> bool {
    48 <= c as int && c as int <= 57
}

/// The numeric value of a decimal digit character.
pub open spec fn digit_val(c: char) -> int {
    c as int - 48
}

/// ASCII whitespace: space, tab, line feed, carriage return.
pub open spec fn is_space(c: char) -> bool {
    c == ' ' || c == '\t' || c == '\n' || c == '\r'
}

/// The value of an unsigned digit string, most significant digit first.
/// The empty string is given value 0; callers that need a real numeral
/// require at least one digit.
pub open spec fn digits_val(s: Seq<char>) -> int
    decreases s.len(),
{
    if s.len() == 0 {
        0
    } else {
        digits_val(s.drop_last()) * 10 + digit_val(s.last())
    }
}

/// Every character of `s` is a decimal digit.
pub open spec fn all_digits(s: Seq<char>) -> bool {
    forall|i: int| 0 <= i < s.len() ==> is_dec_digit(#[trigger] s[i])
}

/// Whether `s` starts with an explicit sign character.
pub open spec fn has_sign(s: Seq<char>) -> bool {
    s.len() > 0 && (s[0] == '-' || s[0] == '+')
}

/// The digit part of a prospective literal: everything after the sign, if any.
pub open spec fn literal_digits(s: Seq<char>) -> Seq<char> {
    if has_sign(s) {
        s.subrange(1, s.len() as int)
    } else {
        s
    }
}

/// A signed decimal integer literal: an optional sign followed by
/// at least one digit and nothing else.
pub open spec fn is_int_literal(s: Seq<char>) -> bool {
    literal_digits(s).len() > 0 && all_digits(literal_digits(s))
}

/// The integer a literal denotes.
pub open spec fn literal_val(s: Seq<char>) -> int {
    if has_sign(s) && s[0] == '-' {
        -digits_val(literal_digits(s))
    } else {
        digits_val(literal_digits(s))
    }
}

/// `s` is a literal whose value fits in an `i32`.
pub open spec fn parses_to_i32(s: Seq<char>) -> bool {
    is_int_literal(s) && i32::MIN <= literal_val(s) <= i32::MAX
}

/// A digit string denotes a nonnegative value.
pub proof fn lemma_digits_val_nonneg(s: Seq<char>)
    requires
        all_digits(s),
    ensures
        digits_val(s) >= 0,
    decreases s.len(),
{
    if s.len() > 0 {
        assert(all_digits(s.drop_last()));
        lemma_digits_val_nonneg(s.drop_last());
    }
}

/// Reading more digits never shrinks the value: a prefix of a digit string
/// denotes at most what the whole string denotes.
pub proof fn lemma_digits_val_prefix(s: Seq<char>, k: int)
    requires
        all_digits(s),
        0 <= k <= s.len(),
    ensures
        digits_val(s.subrange(0, k)) <= digits_val(s),
    decreases s.len(),
{
    if k == s.len() {
        assert(s.subrange(0, k) =~= s);
    } else {
        let t = s.drop_last();
        assert(all_digits(t));
        assert(s.subrange(0, k) =~= t.subrange(0, k));
        lemma_digits_val_prefix(t, k);
        lemma_digits_val_nonneg(t);
    }
}

/// The numeric value of a decimal digit character, or `None` for any
/// other character.
pub fn digit_of_char(c: char) -> (r: Option<u64>)
    ensures
        r is Some <==> is_dec_digit(c),
        r is Some ==> r == Some(digit_val(c) as u64),
{
    match c {
        '0' => Some(0),
        '1' => Some(1),
        '2' => Some(2),
        '3' => Some(3),
        '4' => Some(4),
        '5' => Some(5),
        '6' => Some(6),
        '7' => Some(7),
        '8' => Some(8),
        '9' => Some(9),
        _ => None,
    }
}

/// Parse a character buffer as a signed 32-bit decimal integer.
///
/// Accepts exactly the strings `str::parse::<i32>` accepts: an optional
/// leading `+` or `-`, then one or more decimal digits, with the value in
/// the `i32` range. Returns `None` on anything else.
pub fn parse_i32(chars: &Vec<char>) -> (r: Option<i32>)
    ensures
        parses_to_i32(chars@) ==> r == Some(literal_val(chars@) as i32),
        !parses_to_i32(chars@) ==> r is None,
{
    let n: usize = chars.len();
    let mut start: usize = 0;
    let mut neg = false;
    if n > 0 && (chars[0] == '-' || chars[0] == '+') {
        neg = chars[0] == '-';
        start = 1;
    }
    if start == n {
        // No digits at all: empty input or a bare sign.
        return None;
    }
    let ghost body = literal_digits(chars@);
    proof {
        assert(body =~= chars@.subrange(start as int, n as int));
    }
    let mut acc: u64 = 0;
    let mut j: usize = start;
    while j < n
        invariant
            start <= j <= n,
            n == chars@.len(),
            start == if has_sign(chars@) { 1int } else { 0int },
            neg == (has_sign(chars@) && chars@[0] == '-'),
            body == literal_digits(chars@),
            body == chars@.subrange(start as int, n as int),
            body.len() > 0,
            all_digits(chars@.subrange(start as int, j as int)),
            acc as int == digits_val(chars@.subrange(start as int, j as int)),
            acc <= 2147483648,
        decreases n - j,
    {
        let c = chars[j];
        let d: u64 = match digit_of_char(c) {
            Some(d) => d,
            None => {
                // A non-digit after the sign: not a literal.
                proof {
                    assert(body[j - start] == chars@[j as int]);
                    assert(!all_digits(body));
                }
                return None;
            },
        };
        let ghost pre = chars@.subrange(start as int, j as int);
        acc = acc * 10 + d;
        j = j + 1;
        proof {
            let cur = chars@.subrange(start as int, j as int);
            assert(cur.drop_last() =~= pre);
            assert(cur.last() == chars@[j - 1]);
            assert(acc as int == digits_val(cur));
        }
        if acc > 2147483648 {
            // Already past 2^31 in magnitude: out of range for either sign.
            proof {
                if is_int_literal(chars@) {
                    lemma_digits_val_prefix(body, j - start);
                    assert(body.subrange(0, j - start) =~= chars@.subrange(
                        start as int,
                        j as int,
                    ));
                    assert(digits_val(body) > 2147483648);
                }
            }
            return None;
        }
    }
    proof {
        assert(chars@.subrange(start as int, j as int) =~= body);
        assert(is_int_literal(chars@));
    }
    if neg {
        if acc == 2147483648 {
            Some(i32::MIN)
        } else {
            Some(-(acc as i32))
        }
    } else {
        if acc > 2147483647 {
            // Exactly 2^31 without a minus sign: one past i32::MAX.
            return None;
        }
        Some(acc as i32)
    }
}

/// The character for a single digit value.
pub open spec fn digit_char(d: int) -> char {
    if d == 0 {
        '0'
    } else if d == 1 {
        '1'
    } else if d == 2 {
        '2'
    } else if d == 3 {
        '3'
    } else if d == 4 {
        '4'
    } else if d == 5 {
        '5'
    } else if d == 6 {
        '6'
    } else if d == 7 {
        '7'
    } else if d == 8 {
        '8'
    } else {
        '9'
    }
}

/// The decimal digits of a nonnegative integer, without sign or padding.
pub open spec fn dec_digits_of(m: nat) -> Seq<char>
    decreases m,
{
    if m < 10 {
        seq![digit_char(m as int)]
    } else {
        dec_digits_of(m / 10).push(digit_char((m % 10) as int))
    }
}

/// The canonical decimal rendering of an integer: a minus sign on
/// negative values, then the digits of the magnitude.
pub open spec fn dec_rep(n: int) -> Seq<char> {
    if n < 0 {
        seq!['-'] + dec_digits_of((-n) as nat)
    } else {
        dec_digits_of(n as nat)
    }
}

/// Append one decimal digit character to a string.
fn push_digit(out: &mut String, d: u64)
    requires
        d < 10,
    ensures
        final(out)@ == old(out)@ + seq![digit_char(d as int)],
{
    if d == 0 {
        out.append("0");
        proof {
            reveal_strlit("0");
            assert(final(out)@ =~= old(out)@ + seq![digit_char(d as int)]);
        }
    } else if d == 1 {
        out.append("1");
        proof {
            reveal_strlit("1");
            assert(final(out)@ =~= old(out)@ + seq![digit_char(d as int)]);
        }
    } else if d == 2 {
        out.append("2");
        proof {
            reveal_strlit("2");
            assert(final(out)@ =~= old(out)@ + seq![digit_char(d as int)]);
        }
    } else if d == 3 {
        out.append("3");
        proof {
            reveal_strlit("3");
            assert(final(out)@ =~= old(out)@ + seq![digit_char(d as int)]);
        }
    } else if d == 4 {
        out.append("4");
        proof {
            reveal_strlit("4");
            assert(final(out)@ =~= old(out)@ + seq![digit_char(d as int)]);
        }
    } else if d == 5 {
        out.append("5");
        proof {
            reveal_strlit("5");
            assert(final(out)@ =~= old(out)@ + seq![digit_char(d as int)]);
        }
    } else if d == 6 {
        out.append("6");
        proof {
            reveal_strlit("6");
            assert(final(out)@ =~= old(out)@ + seq![digit_char(d as int)]);
        }
    } else if d == 7 {
        out.append("7");
        proof {
            reveal_strlit("7");
            assert(final(out)@ =~= old(out)@ + seq![digit_char(d as int)]);
        }
    } else if d == 8 {
        out.append("8");
        proof {
            reveal_strlit("8");
            assert(final(out)@ =~= old(out)@ + seq![digit_char(d as int)]);
        }
    } else {
        out.append("9");
        proof {
            reveal_strlit("9");
            assert(final(out)@ =~= old(out)@ + seq![digit_char(d as int)]);
        }
    }
}

/// Append the decimal digits of `m` to a string, most significant first.
fn push_dec_digits(out: &mut String, m: u64)
    ensures
        final(out)@ == old(out)@ + dec_digits_of(m as nat),
    decreases m,
{
    if m < 10 {
        push_digit(out, m);
    } else {
        let q: u64 = m / 10;
        let r: u64 = m % 10;
        push_dec_digits(out, q);
        push_digit(out, r);
        proof {
            assert(final(out)@ =~= old(out)@ + dec_digits_of(m as nat));
        }
    }
}

/// Render an `i32` as its canonical decimal numeral.
pub fn format_i32(n: i32) -> (r: String)
    ensures
        r@ == dec_rep(n as int),
{
    let mut out = String::new();
    if n < 0 {
        out.append("-");
        let m: u64 = (-(n as i64)) as u64;
        push_dec_digits(&mut out, m);
        proof {
            reveal_strlit("-");
            assert(out@ =~= dec_rep(n as int));
        }
    } else {
        push_dec_digits(&mut out, n as u64);
    }
    out
}

/// A single-digit value renders as a digit character of that value.
pub proof fn lemma_digit_char_is_digit(d: int)
    requires
        0 <= d <= 9,
    ensures
        is_dec_digit(digit_char(d)),
        digit_val(digit_char(d)) == d,
{
}

/// The decimal digits of `m` are a nonempty digit string that denotes `m`.
pub proof fn lemma_dec_digits_of_denotes(m: nat)
    ensures
        dec_digits_of(m).len() >= 1,
        all_digits(dec_digits_of(m)),
        digits_val(dec_digits_of(m)) == m,
    decreases m,
{
    if m < 10 {
        let s = dec_digits_of(m);
        lemma_digit_char_is_digit(m as int);
        assert(s.drop_last() =~= Seq::<char>::empty());
        assert(digits_val(Seq::<char>::empty()) == 0);
        assert(digits_val(s) == digit_val(s.last()));
    } else {
        let q = m / 10;
        let r = (m % 10) as int;
        lemma_dec_digits_of_denotes(q);
        lemma_digit_char_is_digit(r);
        let s = dec_digits_of(m);
        assert(s.drop_last() =~= dec_digits_of(q));
        assert forall|i: int| 0 <= i < s.len() implies is_dec_digit(#[trigger] s[i]) by {
            if i < s.len() - 1 {
                assert(s[i] == dec_digits_of(q)[i]);
            }
        }
    }
}

/// Rendering and reading back are inverse: the canonical decimal numeral of
/// any value in the `i32` range parses, and parses to that value.
pub proof fn lemma_format_parse_round_trip(n: int)
    requires
        i32::MIN <= n <= i32::MAX,
    ensures
        parses_to_i32(dec_rep(n)),
        literal_val(dec_rep(n)) == n,
{
    if n >= 0 {
        let s = dec_rep(n);
        lemma_dec_digits_of_denotes(n as nat);
        assert(is_dec_digit(s[0]));
        assert(!has_sign(s));
        assert(literal_digits(s) == s);
    } else {
        let m = (-n) as nat;
        let s = dec_rep(n);
        lemma_dec_digits_of_denotes(m);
        assert(s[0] == '-');
        assert(literal_digits(s) =~= dec_digits_of(m));
    }
}

/// `s` with leading whitespace removed.
pub open spec fn trim_front(s: Seq<char>) -> Seq<char>
    decreases s.len(),
{
    if s.len() > 0 && is_space(s[0]) {
        trim_front(s.subrange(1, s.len() as int))
    } else {
        s
    }
}

/// `s` with trailing whitespace removed.
pub open spec fn trim_back(s: Seq<char>) -> Seq<char>
    decreases s.len(),
{
    if s.len() > 0 && is_space(s.last()) {
        trim_back(s.drop_last())
    } else {
        s
    }
}

/// `s` with surrounding whitespace removed.
pub open spec fn trim_seq(s: Seq<char>) -> Seq<char> {
    trim_back(trim_front(s))
}

/// Whether `c` counts as whitespace for trimming.
pub fn is_space_char(c: char) -> (b: bool)
    ensures
        b == is_space(c),
{
    c == ' ' || c == '\t' || c == '\n' || c == '\r'
}

/// A copy of the buffer with surrounding whitespace removed.
pub fn trim_chars(chars: &Vec<char>) -> (r: Vec<char>)
    ensures
        r@ == trim_seq(chars@),
{
    let n: usize = chars.len();
    proof {
        assert(chars@.subrange(0, n as int) =~= chars@);
    }
    let mut lo: usize = 0;
    while lo < n && is_space_char(chars[lo])
        invariant
            lo <= n,
            n == chars@.len(),
            trim_front(chars@) == trim_front(chars@.subrange(lo as int, n as int)),
        decreases n - lo,
    {
        proof {
            let cur = chars@.subrange(lo as int, n as int);
            assert(cur[0] == chars@[lo as int]);
            assert(cur.subrange(1, cur.len() as int) =~= chars@.subrange(
                lo as int + 1,
                n as int,
            ));
        }
        lo = lo + 1;
    }
    let ghost fronted = chars@.subrange(lo as int, n as int);
    proof {
        assert(trim_front(chars@) == fronted);
    }
    let mut hi: usize = n;
    while hi > lo && is_space_char(chars[hi - 1])
        invariant
            lo <= hi <= n,
            n == chars@.len(),
            fronted == chars@.subrange(lo as int, n as int),
            trim_back(fronted) == trim_back(chars@.subrange(lo as int, hi as int)),
        decreases hi,
    {
        proof {
            let cur = chars@.subrange(lo as int, hi as int);
            assert(cur.last() == chars@[hi - 1]);
            assert(cur.drop_last() =~= chars@.subrange(lo as int, hi as int - 1));
        }
        hi = hi - 1;
    }
    let ghost kept = chars@.subrange(lo as int, hi as int);
    proof {
        assert(trim_back(fronted) == kept);
        assert(kept == trim_seq(chars@));
    }
    let mut out: Vec<char> = Vec::new();
    let mut k: usize = lo;
    while k < hi
        invariant
            lo <= k <= hi <= n,
            n == chars@.len(),
            out@ == chars@.subrange(lo as int, k as int),
        decreases hi - k,
    {
        out.push(chars[k]);
        proof {
            assert(chars@.subrange(lo as int, k as int + 1) =~= chars@.subrange(
                lo as int,
                k as int,
            ).push(chars@[k as int]));
        }
        k = k + 1;
    }
    proof {
        assert(out@ =~= kept);
    }
    out
}

/// The characters of a string slice, in order, as a vector.
pub fn chars_of(s: &str) -> (r: Vec<char>)
    ensures
        r@ == s@,
{
    let n: usize = s.unicode_len();
    let mut out: Vec<char> = Vec::new();
    let mut i: usize = 0;
    while i < n
        invariant
            i <= n,
            n == s@.len(),
            out@ == s@.subrange(0, i as int),
        decreases n - i,
    {
        out.push(s.get_char(i));
        proof {
            assert(s@.subrange(0, i as int + 1) =~= s@.subrange(0, i as int).push(
                s@[i as int],
            ));
        }
        i = i + 1;
    }
    proof {
        assert(s@.subrange(0, n as int) =~= s@);
    }
    out
}

} // verus!
