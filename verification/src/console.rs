//! The console front end's one computation: turn an input line into the
//! printed result line, or report that the line is not a number.
//!
//! Reading the line from standard input, printing, and choosing the process
//! exit status stay outside the library; this module decides everything else.

use vstd::prelude::*;
use vstd::string::*;
use crate::convert::{f_to_c, faren_to_celsius};
use crate::numeral::{
    chars_of, dec_rep, format_i32, literal_val, parse_i32, parses_to_i32, trim_chars, trim_seq,
};

verus! {

/// The result line the console front end prints for input value `f`.
pub open spec fn console_result_seq(f: int) -> Seq<char> {
    "Result: "@ + dec_rep(f) + "\u{b0}F is "@ + dec_rep(f_to_c(f)) + "\u{b0}C"@
}

/// Convert one line of console input.
///
/// The line is trimmed of surrounding whitespace and parsed as a signed
/// 32-bit decimal integer. On success the formatted result line is returned;
/// on any invalid input (empty, non-numeric, out of range) the result is
/// `None`, and the caller terminates with a failure status.
pub fn convert_line(line: &str) -> (r: Option<String>)
    ensures
        parses_to_i32(trim_seq(line@)) ==> r is Some && r.unwrap()@ == console_result_seq(
            literal_val(trim_seq(line@)),
        ),
        !parses_to_i32(trim_seq(line@)) ==> r is None,
{
    let buf = chars_of(line);
    let trimmed = trim_chars(&buf);
    match parse_i32(&trimmed) {
        Some(f) => {
            let c = faren_to_celsius(f);
            let mut msg = String::new();
            msg.append("Result: ");
            msg.append(format_i32(f).as_str());
            msg.append("\u{b0}F is ");
            msg.append(format_i32(c).as_str());
            msg.append("\u{b0}C");
            proof {
                assert(msg@ =~= console_result_seq(literal_val(trim_seq(line@))));
            }
            Some(msg)
        },
        None => None,
    }
}

} // verus!
