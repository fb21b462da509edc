//! The random source threaded through a generation chain.
//!
//! Generation is reproducible: the caller supplies a seeded stream and a
//! fixed seed with a fixed stage sequence yields a bit-identical level.  A
//! `Fixed` source, whose every roll resolves to the same value, lets tests
//! drive the pipeline through a chosen branch deterministically.

use vstd::prelude::*;

verus! {

/// A deterministic random source: either a seeded xorshift stream or a
/// constant stream that resolves every roll to the same value (clamped to
/// the requested range).
#[derive(Clone, Copy, PartialEq, Eq, Structural, Debug)]
pub enum Rng {
    /// A seeded pseudo-random stream.
    Seeded { state: u64 },
    /// Every roll resolves to `value`, clamped into `1..=sides`.
    Fixed { value: i32 },
}

/// One xorshift step of the seeded stream's state.
pub open spec fn spec_next_state(s: u64) -> u64 {
    let a = s ^ (s << 13);
    let b = a ^ (a >> 7);
    b ^ (b << 17)
}

/// The state of the source after one roll.
pub open spec fn spec_roll_state(r: Rng) -> Rng {
    match r {
        Rng::Seeded { state } => Rng::Seeded { state: spec_next_state(state) },
        Rng::Fixed { value } => Rng::Fixed { value },
    }
}

/// The value a roll of a `sides`-sided die yields from source `r`.
pub open spec fn spec_roll(r: Rng, sides: i32) -> i32 {
    match r {
        Rng::Seeded { state } => (1 + spec_next_state(state) as int % sides as int) as i32,
        Rng::Fixed { value } => if value < 1 {
            1
        } else if value > sides {
            sides
        } else {
            value
        },
    }
}

/// The state of the source after `k` further rolls.
pub open spec fn spec_rolls_state(r: Rng, k: nat) -> Rng
    decreases k,
{
    if k == 0 {
        r
    } else {
        spec_roll_state(spec_rolls_state(r, (k - 1) as nat))
    }
}

impl Rng {
    /// A seeded stream.  A zero seed is replaced by a fixed non-zero
    /// constant, since the all-zero xorshift state never leaves zero.
    pub fn seeded(seed: u64) -> (r: Rng)
        ensures
            r == (Rng::Seeded { state: if seed == 0 { 0x9E3779B97F4A7C15u64 } else { seed } }),
    {
        if seed == 0 {
            Rng::Seeded { state: 0x9E3779B97F4A7C15u64 }
        } else {
            Rng::Seeded { state: seed }
        }
    }

    /// A constant stream: every roll resolves to `value`, clamped.
    pub fn fixed(value: i32) -> (r: Rng)
        ensures
            r == (Rng::Fixed { value }),
    {
        Rng::Fixed { value }
    }

    /// Rolls one die with `sides` sides, yielding a value in `1..=sides`
    /// and advancing the stream.
    pub fn roll_dice(&mut self, sides: i32) -> (roll: i32)
        requires
            sides >= 1,
        ensures
            roll == spec_roll(*old(self), sides),
            *final(self) == spec_roll_state(*old(self)),
            1 <= roll <= sides,
    {
        match *self {
            Rng::Seeded { state } => {
                let a = state ^ (state << 13);
                let b = a ^ (a >> 7);
                let next = b ^ (b << 17);
                *self = Rng::Seeded { state: next };
                let m = next % (sides as u64);
                assert(m < sides as u64) by {
                    assert(sides as u64 != 0);
                };
                1 + m as i32
            },
            Rng::Fixed { value } => {
                if value < 1 {
                    1
                } else if value > sides {
                    sides
                } else {
                    value
                }
            },
        }
    }
}

} // verus!
