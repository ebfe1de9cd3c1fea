//! Whether one integer is a multiple of another.

use crate::integer::Integer;
use crate::rounding_modes::{is_multiple, magnitude};
use vstd::prelude::*;

verus! {

/// Whether a number is a multiple of another does not depend on the sign of
/// either.
pub proof fn lemma_is_multiple_of_magnitudes(x: int, y: int)
    ensures
        is_multiple(x, y) <==> is_multiple(magnitude(x) as int, magnitude(y) as int),
{
    let ax = magnitude(x) as int;
    let ay = magnitude(y) as int;
    if is_multiple(x, y) {
        let k = choose|k: int| x == #[trigger] (k * y);
        assert(ax == k * ay || ax == (-k) * ay) by (nonlinear_arith)
            requires
                x == k * y,
                ax == x || ax == -x,
                ay == y || ay == -y,
        ;
    }
    if is_multiple(ax, ay) {
        let k = choose|k: int| ax == #[trigger] (k * ay);
        assert(x == k * y || x == (-k) * y) by (nonlinear_arith)
            requires
                ax == k * ay,
                ax == x || ax == -x,
                ay == y || ay == -y,
        ;
    }
}

impl Integer {
    /// Whether `self` is a multiple of `other`. Zero is divisible by every
    /// integer, zero included; no other integer is divisible by zero.
    pub fn divisible_by(&self, other: &Integer) -> (r: bool)
        requires
            self.wf(),
            other.wf(),
        ensures
            r == is_multiple(self@, other@),
    {
        proof {
            lemma_is_multiple_of_magnitudes(self@, other@);
        }
        self.abs.divisible_by(&other.abs)
    }
}

} // verus!
