//! The number that a sequence of limbs stands for, and what is true of it.
//!
//! Limbs are 32-bit words, least significant first.

use vstd::arithmetic::power2::*;
use vstd::prelude::*;

verus! {

/// One word of a multi-word number.
pub type Limb = u32;

/// The number of bits in a limb.
pub const LIMB_BITS: u64 = 32;

/// The number of values a limb can take: `2^32`.
pub open spec fn limb_base() -> nat {
    0x1_0000_0000
}

/// The weight of the limb at index `n`: `2^(32 n)`.
pub open spec fn limb_weight(n: nat) -> nat {
    pow2(32 * n)
}

/// The number that the limbs `xs` stand for, least significant limb first.
pub open spec fn limbs_value(xs: Seq<Limb>) -> nat
    decreases xs.len(),
{
    if xs.len() == 0 {
        0
    } else {
        xs[0] as nat + limb_base() * limbs_value(xs.drop_first())
    }
}

/// The limbs have no zero in the most significant place.
pub open spec fn limbs_trimmed(xs: Seq<Limb>) -> bool {
    xs.len() > 0 ==> xs.last() != 0
}

/// The first weight is one, and each weight is `2^32` times the one before.
pub proof fn lemma_limb_weight(n: nat)
    ensures
        limb_weight(0) == 1,
        limb_weight(1) == limb_base(),
        limb_weight(n + 1) == limb_base() * limb_weight(n),
        limb_weight(n) > 0,
{
    lemma2_to64();
    lemma_pow2_adds(32, 32 * n);
    lemma_pow2_pos(32 * n);
}

/// Weights multiply as their indices add.
pub proof fn lemma_limb_weight_adds(m: nat, n: nat)
    ensures
        limb_weight(m + n) == limb_weight(m) * limb_weight(n),
{
    lemma_pow2_adds(32 * m, 32 * n);
}

/// A later weight is not smaller.
pub proof fn lemma_limb_weight_increases(m: nat, n: nat)
    requires
        m <= n,
    ensures
        limb_weight(m) <= limb_weight(n),
{
    if m < n {
        lemma_pow2_strictly_increases(32 * m, 32 * n);
    }
}

/// The value of a single limb is the limb.
pub proof fn lemma_limbs_value_one(x: Limb)
    ensures
        limbs_value(seq![x]) == x,
{
    assert(seq![x].drop_first() =~= Seq::<Limb>::empty());
    assert(limbs_value(seq![x]) == x as nat + limb_base() * limbs_value(Seq::<Limb>::empty()));
}

/// The value of two sequences one after the other: the second counts from
/// the weight that the first one ends at.
pub proof fn lemma_limbs_value_concat(a: Seq<Limb>, b: Seq<Limb>)
    ensures
        limbs_value(a + b) == limbs_value(a) + limb_weight(a.len()) * limbs_value(b),
    decreases a.len(),
{
    lemma_limb_weight(0);
    if a.len() == 0 {
    } else {
        let n = (a.len() - 1) as nat;
        assert((a + b).drop_first() =~= a.drop_first() + b);
        lemma_limbs_value_concat(a.drop_first(), b);
        lemma_limb_weight(n);
        let base = limb_base() as int;
        let va = limbs_value(a.drop_first()) as int;
        let vb = limbs_value(b) as int;
        let w = limb_weight(n) as int;
        assert(base * (va + w * vb) == base * va + (base * w) * vb) by (nonlinear_arith);
    }
}

/// Appending a limb adds it at the next weight.
pub proof fn lemma_limbs_value_push(a: Seq<Limb>, x: Limb)
    ensures
        limbs_value(a.push(x)) == limbs_value(a) + limb_weight(a.len()) * x,
{
    assert(a.push(x) =~= a + seq![x]);
    lemma_limbs_value_concat(a, seq![x]);
    lemma_limbs_value_one(x);
}

/// A sequence splits at any index into a low part and a weighted high part.
pub proof fn lemma_limbs_value_split(a: Seq<Limb>, k: int)
    requires
        0 <= k <= a.len(),
    ensures
        limbs_value(a) == limbs_value(a.take(k)) + limb_weight(k as nat) * limbs_value(a.skip(k)),
{
    assert(a =~= a.take(k) + a.skip(k));
    lemma_limbs_value_concat(a.take(k), a.skip(k));
}

/// `n` limbs hold a number below `2^(32 n)`.
pub proof fn lemma_limbs_value_bound(a: Seq<Limb>)
    ensures
        limbs_value(a) < limb_weight(a.len()),
    decreases a.len(),
{
    lemma_limb_weight(0);
    if a.len() > 0 {
        let n = (a.len() - 1) as nat;
        lemma_limbs_value_bound(a.drop_first());
        lemma_limb_weight(n);
        let base = limb_base() as int;
        let v = limbs_value(a.drop_first()) as int;
        let w = limb_weight(n) as int;
        assert(base * v <= base * (w - 1)) by (nonlinear_arith)
            requires
                v <= w - 1,
                base > 0,
        ;
        assert(base * (w - 1) == base * w - base) by (nonlinear_arith);
    }
}

/// Limbs with a nonzero top limb hold a number of at least the top weight.
pub proof fn lemma_limbs_value_lower_bound(a: Seq<Limb>)
    requires
        a.len() > 0,
        a.last() != 0,
    ensures
        limbs_value(a) >= limb_weight((a.len() - 1) as nat),
{
    let n = (a.len() - 1) as nat;
    assert(a =~= a.drop_last().push(a.last()));
    lemma_limbs_value_push(a.drop_last(), a.last());
    lemma_limb_weight(n);
    let w = limb_weight(n) as int;
    let x = a.last() as int;
    assert(w * x >= w) by (nonlinear_arith)
        requires
            x >= 1,
            w > 0,
    ;
}

/// Zeros in the most significant places do not change the value.
pub proof fn lemma_limbs_value_drop_zero(a: Seq<Limb>)
    requires
        a.len() > 0,
        a.last() == 0,
    ensures
        limbs_value(a.drop_last()) == limbs_value(a),
{
    assert(a =~= a.drop_last().push(a.last()));
    lemma_limbs_value_push(a.drop_last(), a.last());
}

/// Limbs that are all zero stand for zero.
pub proof fn lemma_limbs_value_zeros(a: Seq<Limb>)
    requires
        forall|i: int| 0 <= i < a.len() ==> a[i] == 0,
    ensures
        limbs_value(a) == 0,
    decreases a.len(),
{
    if a.len() > 0 {
        lemma_limbs_value_zeros(a.drop_first());
    }
}

/// Where two sequences of one length agree above index `i`, the limbs at `i`
/// decide which number is smaller.
pub proof fn lemma_limbs_value_decided_at(a: Seq<Limb>, b: Seq<Limb>, i: int)
    requires
        a.len() == b.len(),
        0 <= i < a.len(),
        a.skip(i + 1) =~= b.skip(i + 1),
        a[i] < b[i],
    ensures
        limbs_value(a) < limbs_value(b),
{
    lemma_limbs_value_split(a, i);
    lemma_limbs_value_split(b, i);
    lemma_limbs_value_bound(a.take(i));
    assert(a.skip(i).drop_first() =~= a.skip(i + 1));
    assert(b.skip(i).drop_first() =~= b.skip(i + 1));
    let w = limb_weight(i as nat) as int;
    let ha = limbs_value(a.skip(i)) as int;
    let hb = limbs_value(b.skip(i)) as int;
    assert(w * (ha + 1) <= w * hb) by (nonlinear_arith)
        requires
            ha + 1 <= hb,
            w >= 0,
    ;
    assert(w * (ha + 1) == w * ha + w) by (nonlinear_arith);
}

/// Two sequences of one length that stand for one number are the same.
pub proof fn lemma_limbs_value_injective(a: Seq<Limb>, b: Seq<Limb>)
    requires
        a.len() == b.len(),
        limbs_value(a) == limbs_value(b),
    ensures
        a == b,
    decreases a.len(),
{
    if a.len() > 0 {
        let base = limb_base() as int;
        let va = limbs_value(a.drop_first()) as int;
        let vb = limbs_value(b.drop_first()) as int;
        let x = a[0] as int;
        let y = b[0] as int;
        assert(x == y && va == vb) by (nonlinear_arith)
            requires
                x + base * va == y + base * vb,
                0 <= x < base,
                0 <= y < base,
        ;
        lemma_limbs_value_injective(a.drop_first(), b.drop_first());
        assert(a =~= seq![a[0]] + a.drop_first());
    }
}

/// Trimmed limbs that stand for one number are the same.
pub proof fn lemma_limbs_trimmed_unique(a: Seq<Limb>, b: Seq<Limb>)
    requires
        limbs_trimmed(a),
        limbs_trimmed(b),
        limbs_value(a) == limbs_value(b),
    ensures
        a == b,
{
    lemma_limbs_value_bound(a);
    lemma_limbs_value_bound(b);
    if a.len() < b.len() {
        lemma_limbs_value_lower_bound(b);
        lemma_limb_weight_increases(a.len(), (b.len() - 1) as nat);
    } else if b.len() < a.len() {
        lemma_limbs_value_lower_bound(a);
        lemma_limb_weight_increases(b.len(), (a.len() - 1) as nat);
    } else {
        lemma_limbs_value_injective(a, b);
    }
}

/// The limb at index `i`, or zero past the end.
pub open spec fn limb_at(xs: Seq<Limb>, i: int) -> Limb {
    if 0 <= i < xs.len() {
        xs[i]
    } else {
        0
    }
}

/// The number that the first `i` limbs stand for; all of them when `i` is
/// past the end.
pub open spec fn prefix_value(xs: Seq<Limb>, i: int) -> nat {
    if i <= 0 {
        0
    } else if i < xs.len() {
        limbs_value(xs.take(i))
    } else {
        limbs_value(xs)
    }
}

/// One more limb of a prefix adds that limb at its weight.
pub proof fn lemma_prefix_value_step(xs: Seq<Limb>, i: int)
    requires
        0 <= i,
    ensures
        prefix_value(xs, i + 1) == prefix_value(xs, i) + limb_weight(i as nat) * limb_at(xs, i),
        prefix_value(xs, 0) == 0,
        i >= xs.len() ==> prefix_value(xs, i) == limbs_value(xs),
{
    if i < xs.len() {
        assert(xs.take(i + 1) =~= xs.take(i).push(xs[i]));
        lemma_limbs_value_push(xs.take(i), xs[i]);
        assert(xs.take(xs.len() as int) =~= xs);
    }
}

/// Replacing one limb changes the value by the difference at that weight.
pub proof fn lemma_limbs_value_update(xs: Seq<Limb>, i: int, x: Limb)
    requires
        0 <= i < xs.len(),
    ensures
        limbs_value(xs.update(i, x)) + limb_weight(i as nat) * xs[i] == limbs_value(xs)
            + limb_weight(i as nat) * x,
{
    let ys = xs.update(i, x);
    lemma_limbs_value_split(xs, i);
    lemma_limbs_value_split(ys, i);
    assert(xs.take(i) =~= ys.take(i));
    assert(xs.skip(i).drop_first() =~= ys.skip(i).drop_first());
    let w = limb_weight(i as nat) as int;
    let rest = limbs_value(xs.skip(i).drop_first()) as int;
    let base = limb_base() as int;
    let a = xs[i] as int;
    let b = x as int;
    assert(w * (b + base * rest) + w * a == w * (a + base * rest) + w * b) by (nonlinear_arith);
}

/// Splits a double word into its low and its high limb.
pub fn split_wide(x: u64) -> (r: (Limb, Limb))
    ensures
        x == r.0 + limb_base() * r.1,
{
    assert(x == (x & 0xffff_ffff) + 0x1_0000_0000 * (x >> 32) && (x & 0xffff_ffff) <= 0xffff_ffff
        && (x >> 32) <= 0xffff_ffff) by (bit_vector);
    ((x & 0xffff_ffff) as Limb, (x >> 32) as Limb)
}

/// The limb at index `i`, or zero past the end.
pub fn limb_or_zero(xs: &[Limb], i: usize) -> (r: Limb)
    ensures
        r == limb_at(xs@, i as int),
{
    if i < xs.len() {
        xs[i]
    } else {
        0
    }
}

/// Drops the zeros in the most significant places.
pub fn limbs_trim(xs: &mut Vec<Limb>)
    ensures
        limbs_trimmed(final(xs)@),
        limbs_value(final(xs)@) == limbs_value(old(xs)@),
        final(xs)@.len() <= old(xs)@.len(),
{
    while xs.len() > 0 && xs[xs.len() - 1] == 0
        invariant
            limbs_value(xs@) == limbs_value(old(xs)@),
            xs@.len() <= old(xs)@.len(),
        decreases xs.len(),
    {
        proof {
            lemma_limbs_value_drop_zero(xs@);
        }
        xs.pop();
    }
}

} // verus!
