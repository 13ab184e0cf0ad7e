//! A Fahrenheit-to-Celsius converter.
//!
//! The heart of the crate is a single arithmetic formula, [`convert::faren_to_celsius`].
//! Around it stand the pieces that the two front ends share: decimal parsing and
//! formatting of `i32` values ([`numeral`]), the one-shot line converter used by the
//! console front end ([`console`]), and the state machine of the full-screen
//! interactive front end ([`interactive`]). Terminal handling itself (raw mode,
//! alternate screen, drawing, key polling) lives outside this library; the library
//! only decides, from the current state and a key, what the next state is.

pub mod convert;
pub mod numeral;
pub mod console;
pub mod interactive;
