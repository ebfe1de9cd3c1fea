//! Bit logic on limbs: complement, with nothing carried between limbs and no
//! sign extension.

use crate::natural::limbs::{
    lemma_limb_weight, limb_at, limb_or_zero, limb_weight, limbs_value, Limb,
};
use crate::natural::Natural;
use vstd::prelude::*;

verus! {

/// The limbs with every bit flipped.
pub open spec fn limbs_not_spec(xs: Seq<Limb>) -> Seq<Limb> {
    Seq::new(xs.len(), |i: int| !xs[i])
}

/// Flipping every bit twice gives back the limbs.
pub proof fn lemma_limbs_not_involution(xs: Seq<Limb>)
    ensures
        limbs_not_spec(limbs_not_spec(xs)) == xs,
{
    assert forall|i: int| 0 <= i < xs.len() implies #[trigger] limbs_not_spec(limbs_not_spec(xs))[i]
        == xs[i] by {
        let x = xs[i];
        assert(!!x == x) by (bit_vector);
    }
}

/// The complement of `n` limbs stands for `2^(32 n) - 1` less the number that
/// the limbs stand for.
pub proof fn lemma_limbs_not_value(xs: Seq<Limb>)
    ensures
        limbs_value(limbs_not_spec(xs)) + limbs_value(xs) + 1 == limb_weight(xs.len()),
    decreases xs.len(),
{
    lemma_limb_weight(0);
    if xs.len() > 0 {
        let rest = xs.drop_first();
        lemma_limbs_not_value(rest);
        assert(limbs_not_spec(xs).drop_first() =~= limbs_not_spec(rest));
        lemma_limb_weight(rest.len());
        let x = xs[0];
        assert(!x == 0xffff_ffffu32 - x) by (bit_vector);
        let a = limbs_value(limbs_not_spec(rest)) as int;
        let b = limbs_value(rest) as int;
        let w = limb_weight(rest.len()) as int;
        assert(0x1_0000_0000 * a + 0x1_0000_0000 * b + 0x1_0000_0000 == 0x1_0000_0000 * w)
            by (nonlinear_arith)
            requires
                a + b + 1 == w,
        ;
    }
}

/// Returns the complement of the limbs, limb by limb.
pub fn limbs_not(xs: &[Limb]) -> (out: Vec<Limb>)
    ensures
        out@ == limbs_not_spec(xs@),
{
    let mut out: Vec<Limb> = Vec::with_capacity(xs.len());
    let mut i: usize = 0;
    while i < xs.len()
        invariant
            i <= xs.len(),
            out@.len() == i,
            forall|j: int| 0 <= j < i ==> out@[j] == !xs@[j],
        decreases xs.len() - i,
    {
        out.push(!xs[i]);
        i += 1;
    }
    out
}

/// Writes the complement of `xs` to the first `xs.len()` limbs of `out`. The
/// rest of `out` is left as it is.
pub fn limbs_not_to_out(out: &mut [Limb], xs: &[Limb])
    requires
        old(out)@.len() >= xs@.len(),
    ensures
        final(out)@ == limbs_not_spec(xs@) + old(out)@.skip(xs@.len() as int),
{
    let mut i: usize = 0;
    while i < xs.len()
        invariant
            i <= xs.len(),
            out@.len() == old(out)@.len(),
            out@.len() >= xs@.len(),
            forall|j: int| 0 <= j < i ==> out@[j] == !xs@[j],
            forall|j: int| i <= j < out@.len() ==> out@[j] == old(out)@[j],
        decreases xs.len() - i,
    {
        out[i] = !xs[i];
        i += 1;
    }
}

/// Replaces the limbs by their complement.
pub fn limbs_not_in_place(xs: &mut [Limb])
    ensures
        final(xs)@ == limbs_not_spec(old(xs)@),
{
    let n: usize = xs.len();
    let mut i: usize = 0;
    while i < n
        invariant
            i <= n,
            xs@.len() == n,
            old(xs)@.len() == n,
            forall|j: int| 0 <= j < i ==> xs@[j] == !old(xs)@[j],
            forall|j: int| i <= j < n ==> xs@[j] == old(xs)@[j],
        decreases n - i,
    {
        let x: Limb = xs[i];
        xs[i] = !x;
        i += 1;
    }
}

/// The limbs of the bitwise AND of two numbers: as many as the shorter has,
/// since what is above it meets zeros.
pub open spec fn limbs_and_spec(xs: Seq<Limb>, ys: Seq<Limb>) -> Seq<Limb> {
    Seq::new(
        if xs.len() <= ys.len() {
            xs.len()
        } else {
            ys.len()
        },
        |i: int| xs[i] & ys[i],
    )
}

/// The limbs of the bitwise OR of two numbers: as many as the longer has,
/// the shorter continued by zeros.
pub open spec fn limbs_or_spec(xs: Seq<Limb>, ys: Seq<Limb>) -> Seq<Limb> {
    Seq::new(
        if xs.len() >= ys.len() {
            xs.len()
        } else {
            ys.len()
        },
        |i: int| limb_at(xs, i) | limb_at(ys, i),
    )
}

/// The limbs of the bitwise XOR of two numbers: as many as the longer has,
/// the shorter continued by zeros.
pub open spec fn limbs_xor_spec(xs: Seq<Limb>, ys: Seq<Limb>) -> Seq<Limb> {
    Seq::new(
        if xs.len() >= ys.len() {
            xs.len()
        } else {
            ys.len()
        },
        |i: int| limb_at(xs, i) ^ limb_at(ys, i),
    )
}

/// Returns the bitwise AND of the limbs, limb by limb.
pub fn limbs_and(xs: &[Limb], ys: &[Limb]) -> (out: Vec<Limb>)
    ensures
        out@ == limbs_and_spec(xs@, ys@),
{
    let n: usize = if xs.len() <= ys.len() {
        xs.len()
    } else {
        ys.len()
    };
    let mut out: Vec<Limb> = Vec::with_capacity(n);
    let mut i: usize = 0;
    while i < n
        invariant
            i <= n,
            n <= xs@.len(),
            n <= ys@.len(),
            out@.len() == i,
            forall|j: int| 0 <= j < i ==> out@[j] == xs@[j] & ys@[j],
        decreases n - i,
    {
        out.push(xs[i] & ys[i]);
        i += 1;
    }
    out
}

/// Returns the bitwise OR of the limbs, limb by limb.
pub fn limbs_or(xs: &[Limb], ys: &[Limb]) -> (out: Vec<Limb>)
    ensures
        out@ == limbs_or_spec(xs@, ys@),
{
    let n: usize = if xs.len() >= ys.len() {
        xs.len()
    } else {
        ys.len()
    };
    let mut out: Vec<Limb> = Vec::with_capacity(n);
    let mut i: usize = 0;
    while i < n
        invariant
            i <= n,
            n == xs@.len() || n == ys@.len(),
            n >= xs@.len(),
            n >= ys@.len(),
            out@.len() == i,
            forall|j: int| 0 <= j < i ==> out@[j] == limb_at(xs@, j) | limb_at(ys@, j),
        decreases n - i,
    {
        out.push(limb_or_zero(xs, i) | limb_or_zero(ys, i));
        i += 1;
    }
    out
}

/// Returns the bitwise XOR of the limbs, limb by limb.
pub fn limbs_xor(xs: &[Limb], ys: &[Limb]) -> (out: Vec<Limb>)
    ensures
        out@ == limbs_xor_spec(xs@, ys@),
{
    let n: usize = if xs.len() >= ys.len() {
        xs.len()
    } else {
        ys.len()
    };
    let mut out: Vec<Limb> = Vec::with_capacity(n);
    let mut i: usize = 0;
    while i < n
        invariant
            i <= n,
            n == xs@.len() || n == ys@.len(),
            n >= xs@.len(),
            n >= ys@.len(),
            out@.len() == i,
            forall|j: int| 0 <= j < i ==> out@[j] == limb_at(xs@, j) ^ limb_at(ys@, j),
        decreases n - i,
    {
        out.push(limb_or_zero(xs, i) ^ limb_or_zero(ys, i));
        i += 1;
    }
    out
}

impl Natural {
    /// The bitwise AND of two numbers.
    pub fn and(&self, other: &Natural) -> (r: Natural)
        requires
            self.wf(),
            other.wf(),
        ensures
            r.wf(),
            r@ == limbs_value(limbs_and_spec(self.limbs(), other.limbs())),
    {
        let xs: Vec<Limb> = self.to_limbs_asc();
        let ys: Vec<Limb> = other.to_limbs_asc();
        Natural::from_owned_limbs_asc(limbs_and(xs.as_slice(), ys.as_slice()))
    }

    /// The bitwise OR of two numbers.
    pub fn or(&self, other: &Natural) -> (r: Natural)
        requires
            self.wf(),
            other.wf(),
        ensures
            r.wf(),
            r@ == limbs_value(limbs_or_spec(self.limbs(), other.limbs())),
    {
        let xs: Vec<Limb> = self.to_limbs_asc();
        let ys: Vec<Limb> = other.to_limbs_asc();
        Natural::from_owned_limbs_asc(limbs_or(xs.as_slice(), ys.as_slice()))
    }

    /// The bitwise XOR of two numbers.
    pub fn xor(&self, other: &Natural) -> (r: Natural)
        requires
            self.wf(),
            other.wf(),
        ensures
            r.wf(),
            r@ == limbs_value(limbs_xor_spec(self.limbs(), other.limbs())),
    {
        let xs: Vec<Limb> = self.to_limbs_asc();
        let ys: Vec<Limb> = other.to_limbs_asc();
        Natural::from_owned_limbs_asc(limbs_xor(xs.as_slice(), ys.as_slice()))
    }
}

} // verus!
