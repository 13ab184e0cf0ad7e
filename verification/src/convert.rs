//! The conversion formula: Celsius from Fahrenheit by `(f - 32) * 5 / 9`,
//! with the division truncating toward zero as Rust's `/` does.

use vstd::prelude::*;

verus! {

/// Integer division truncating toward zero, for a positive divisor.
/// (Verus's spec-mode `/` is Euclidean division, which rounds toward
/// negative infinity on a negative dividend.)
pub open spec fn div_trunc(a: int, b: int) -> int {
    if a >= 0 {
        a / b
    } else {
        -((-a) / b)
    }
}

/// What the converter returns: `(f - 32) * 5 / 9` with truncating division.
pub open spec fn f_to_c(f: int) -> int {
    div_trunc((f - 32) * 5, 9)
}

/// Convert a temperature in Fahrenheit to Celsius.
///
/// Total over all of `i32`: the intermediate product is computed in a wider
/// type, and the final quotient always fits in an `i32`.
pub fn faren_to_celsius(faren: i32) -> (celsius: i32)
    ensures
        celsius as int == f_to_c(faren as int),
{
    let p: i64 = (faren as i64 - 32) * 5;
    if p >= 0 {
        let q: u64 = (p as u64) / 9;
        proof {
            assert(q == div_trunc(p as int, 9));
            assert(q * 9 <= p);
        }
        q as i32
    } else {
        let m: u64 = (-p) as u64;
        let q: u64 = m / 9;
        proof {
            assert(m == -(p as int));
            assert(q == (-(p as int)) / 9);
            assert(q * 9 <= m);
        }
        -(q as i32)
    }
}

} // verus!
