//! All natural numbers from a given one on, in increasing order.

use crate::natural::Natural;
use vstd::prelude::*;

verus! {

/// The natural numbers from a given one on: each call of
/// [`ExhaustiveNaturalRangeToInfinity::next`] gives the next one.
pub struct ExhaustiveNaturalRangeToInfinity {
    /// The number that comes next.
    pub upcoming: Natural,
}

/// The natural numbers from `a` on, in increasing order.
pub fn exhaustive_natural_range_to_infinity(a: Natural) -> (r: ExhaustiveNaturalRangeToInfinity)
    requires
        a.wf(),
    ensures
        r.wf(),
        r.upcoming@ == a@,
{
    ExhaustiveNaturalRangeToInfinity { upcoming: a }
}

impl ExhaustiveNaturalRangeToInfinity {
    /// The number that comes next is well formed.
    pub open spec fn wf(&self) -> bool {
        self.upcoming.wf()
    }

    /// Returns the next number. The one after it comes next.
    pub fn next(&mut self) -> (r: Natural)
        requires
            old(self).wf(),
        ensures
            final(self).wf(),
            r.wf(),
            r@ == old(self).upcoming@,
            final(self).upcoming@ == old(self).upcoming@ + 1,
    {
        let mut following: Natural = self.upcoming.add_limb(1);
        std::mem::swap(&mut self.upcoming, &mut following);
        following
    }

    /// Returns the next `n` numbers, in increasing order.
    pub fn take(&mut self, n: usize) -> (r: Vec<Natural>)
        requires
            old(self).wf(),
        ensures
            final(self).wf(),
            final(self).upcoming@ == old(self).upcoming@ + n,
            r@.len() == n,
            forall|i: int|
                0 <= i < n ==> (#[trigger] r@[i]).wf() && r@[i]@ == old(self).upcoming@ + i,
    {
        let mut out: Vec<Natural> = Vec::new();
        while out.len() < n
            invariant
                self.wf(),
                out@.len() <= n,
                self.upcoming@ == old(self).upcoming@ + out@.len(),
                forall|i: int|
                    0 <= i < out@.len() ==> (#[trigger] out@[i]).wf() && out@[i]@ == old(
                        self,
                    ).upcoming@ + i,
            decreases n - out@.len(),
        {
            let x: Natural = self.next();
            out.push(x);
        }
        out
    }
}

} // verus!
