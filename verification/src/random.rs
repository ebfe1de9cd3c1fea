//! A source of random limbs that a seed starts and that gives the same
//! limbs whenever it is started by the same seed: the limbs are the words of
//! the stream that the ChaCha cipher with 20 rounds makes of the seed.

use crate::natural::limbs::Limb;
use rand::{RngCore, SeedableRng};
use rand_chacha::ChaCha20Rng;
use vstd::prelude::*;

verus! {

/// The 32 bytes that start a generator.
#[derive(Clone, Copy, Debug)]
pub struct Seed {
    /// The bytes of the seed.
    pub bytes: [u8; 32],
}

/// The bytes of the seed for examples.
pub open spec fn example_seed_bytes() -> Seq<u8> {
    seq![
        0xbfu8, 0x18u8, 0x11u8, 0xceu8, 0x15u8, 0xeeu8, 0xfdu8, 0x20u8, 0x2fu8, 0xdfu8, 0x67u8,
        0x6au8, 0x6bu8, 0xbau8, 0xafu8, 0x04u8, 0xffu8, 0x71u8, 0xe0u8, 0xf8u8, 0x0bu8, 0x2au8,
        0xcfu8, 0x27u8, 0x85u8, 0xb3u8, 0x32u8, 0xc6u8, 0x20u8, 0x80u8, 0x5eu8, 0x36u8,
    ]
}

/// A seed for examples.
pub fn example_seed() -> (r: Seed)
    ensures
        r.bytes@ == example_seed_bytes(),
{
    let r = Seed {
        bytes: [
            0xbf, 0x18, 0x11, 0xce, 0x15, 0xee, 0xfd, 0x20, 0x2f, 0xdf, 0x67, 0x6a, 0x6b, 0xba, 0xaf,
            0x04, 0xff, 0x71, 0xe0, 0xf8, 0x0b, 0x2a, 0xcf, 0x27, 0x85, 0xb3, 0x32, 0xc6, 0x20, 0x80,
            0x5e, 0x36,
        ],
    };
    r
}

/// The word at a position of the stream that the ChaCha stream cipher with
/// 20 rounds makes of a seed, as `rand_chacha` hands it out. The stream is
/// fixed by the seed: the same seed and position give the same word in every
/// process and on every machine.
pub uninterp spec fn chacha20_stream_word(seed: Seq<u8>, position: nat) -> u32;

/// Calls `next_u32` on the generator that `ChaCha20Rng::from_seed` of
/// `rand_chacha` makes of the seed and that `set_word_pos` has moved to the
/// position. The call is taken on trust. All that is claimed of the word is
/// that the seed and the position decide it.
#[verifier::external_body]
fn stream_word(bytes: [u8; 32], position: u128) -> (r: u32)
    ensures
        r == chacha20_stream_word(bytes@, position as nat),
{
    let mut rng = ChaCha20Rng::from_seed(bytes);
    rng.set_word_pos(position);
    rng.next_u32()
}

/// The number of values that a position takes before it starts again at
/// zero: `2^128`.
pub open spec fn position_count() -> nat {
    0x1_0000_0000_0000_0000_0000_0000_0000_0000nat
}

/// The position that is reached from `position` after `count` limbs.
pub open spec fn position_after(position: u128, count: nat) -> u128 {
    ((position + count) % (position_count() as int)) as u128
}

/// An endless source of random limbs: the stream that a seed fixes, and the
/// position in it of the limb that comes next.
#[derive(Clone, Copy, Debug)]
pub struct RandomLimbs {
    /// The seed that fixes the stream.
    pub seed: Seed,
    /// The position of the next limb in the stream.
    pub position: u128,
}

impl RandomLimbs {
    /// The next `count` limbs of the source, in the order in which they come.
    pub open spec fn upcoming(&self, count: nat) -> Seq<Limb> {
        Seq::new(
            count,
            |i: int|
                chacha20_stream_word(
                    self.seed.bytes@,
                    position_after(self.position, i as nat) as nat,
                ),
        )
    }

    /// The source that the seed starts: the stream of the seed, at its
    /// beginning.
    pub fn from_seed(seed: Seed) -> (r: RandomLimbs)
        ensures
            r.seed == seed,
            r.position == 0,
    {
        RandomLimbs { seed, position: 0 }
    }

    /// Draws the next limb: the word of the stream at the position of the
    /// source, which then moves on by one.
    pub fn next_limb(&mut self) -> (r: Limb)
        ensures
            r == chacha20_stream_word(old(self).seed.bytes@, old(self).position as nat),
            r == old(self).upcoming(1)[0],
            final(self).seed == old(self).seed,
            final(self).position == position_after(old(self).position, 1),
    {
        let limb: Limb = stream_word(self.seed.bytes, self.position);
        self.position = if self.position == u128::MAX {
            0
        } else {
            self.position + 1
        };
        limb
    }

    /// Draws the next `count` limbs, in the order in which they come.
    pub fn next_limbs(&mut self, count: u64) -> (r: Vec<Limb>)
        ensures
            r@ == old(self).upcoming(count as nat),
            final(self).seed == old(self).seed,
            final(self).position == position_after(old(self).position, count as nat),
    {
        let mut limbs: Vec<Limb> = Vec::new();
        let mut drawn: u64 = 0;
        while drawn < count
            invariant
                drawn <= count,
                limbs@ == old(self).upcoming(drawn as nat),
                self.seed == old(self).seed,
                self.position == position_after(old(self).position, drawn as nat),
            decreases count - drawn,
        {
            let limb: Limb = self.next_limb();
            limbs.push(limb);
            drawn += 1;
            assert(limbs@ =~= old(self).upcoming(drawn as nat));
        }
        limbs
    }
}

/// The sequence of limbs that the seed starts: the stream of the seed, from
/// its beginning.
pub fn random_limbs(seed: Seed) -> (r: RandomLimbs)
    ensures
        r.seed == seed,
        r.position == 0,
{
    RandomLimbs::from_seed(seed)
}

} // verus!
