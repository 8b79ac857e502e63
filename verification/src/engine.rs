//! Tonewheel selection.
//!
//! The organ has a bank of free-running tonewheels whose ids are MIDI note
//! numbers `24..=114`. A held key gates, for every drawbar, the wheel that sits
//! that drawbar's footage above (or below) the key; ids that fall outside the
//! generator are folded back into it one octave at a time.

use vstd::prelude::*;

use crate::preset::DRAWBAR_COUNT;

verus! {

/// Lowest tonewheel id (a MIDI note number).
pub const WHEEL_MIN: i32 = 24;

/// Highest tonewheel id (a MIDI note number).
pub const WHEEL_MAX: i32 = 114;

/// The wheel id that `foldback` gives `id`: ids below the generator move up by
/// whole octaves to the lowest octave of the bank, ids above it move down by
/// whole octaves to the highest octave, ids inside it stay put.
pub open spec fn spec_foldback(id: int) -> int {
    if id < WHEEL_MIN {
        WHEEL_MIN + (id - WHEEL_MIN) % 12
    } else if id > WHEEL_MAX {
        (WHEEL_MAX - 11) + (id - (WHEEL_MAX - 11)) % 12
    } else {
        id
    }
}

/// Fold a wheel id back into the valid range, one octave at a time. This is the
/// Hammond "foldback" that keeps the extreme drawbars within the generator.
pub fn foldback(id: i32) -> (folded: i32)
    ensures
        folded == spec_foldback(id as int),
        WHEEL_MIN <= folded <= WHEEL_MAX,
        (folded - id) % 12 == 0,
{
    let mut x: i32 = id;
    while x < WHEEL_MIN
        invariant
            id <= x,
            (x - id) % 12 == 0,
            id < WHEEL_MIN ==> x < WHEEL_MIN + 12,
            id >= WHEEL_MIN ==> x == id,
        decreases WHEEL_MIN + 12 - x,
    {
        x = x + 12;
    }
    let ghost up = x;
    while x > WHEEL_MAX
        invariant
            x <= up,
            (up - x) % 12 == 0,
            up > WHEEL_MAX ==> x > WHEEL_MAX - 12,
            up <= WHEEL_MAX ==> x == up,
        decreases x - (WHEEL_MAX - 12),
    {
        x = x - 12;
    }
    x
}


/// Inside the generator, foldback leaves an id unchanged.
pub proof fn lemma_foldback_fixes_bank(id: int)
    requires
        WHEEL_MIN <= id <= WHEEL_MAX,
    ensures
        spec_foldback(id) == id,
{
}

/// Folding an id that is already folded changes nothing.
pub proof fn lemma_foldback_idempotent(id: int)
    ensures
        spec_foldback(spec_foldback(id)) == spec_foldback(id),
        WHEEL_MIN <= spec_foldback(id) <= WHEEL_MAX,
        (spec_foldback(id) - id) % 12 == 0,
{
}

/// Semitone offset of drawbar `d` relative to the 8' unison, in classic order:
/// `16', 5⅓', 8', 4', 2⅔', 2', 1⅗', 1⅓', 1'`.
pub open spec fn spec_footage_offset(d: int) -> int {
    if d == 0 {
        -12
    } else if d == 1 {
        7
    } else if d == 2 {
        0
    } else if d == 3 {
        12
    } else if d == 4 {
        19
    } else if d == 5 {
        24
    } else if d == 6 {
        28
    } else if d == 7 {
        31
    } else {
        36
    }
}

/// Semitone offset of drawbar `d` relative to the 8' unison.
pub fn footage_offset(d: usize) -> (offset: i32)
    requires
        d < DRAWBAR_COUNT,
    ensures
        offset == spec_footage_offset(d as int),
{
    match d {
        0 => -12,
        1 => 7,
        2 => 0,
        3 => 12,
        4 => 19,
        5 => 24,
        6 => 28,
        7 => 31,
        _ => 36,
    }
}

/// The tonewheel that drawbar `d` gates while `note` is held.
pub fn drawbar_wheel(note: u8, d: usize) -> (id: i32)
    requires
        d < DRAWBAR_COUNT,
    ensures
        id == spec_foldback(note + spec_footage_offset(d as int)),
        WHEEL_MIN <= id <= WHEEL_MAX,
        (id - note - spec_footage_offset(d as int)) % 12 == 0,
{
    foldback(note as i32 + footage_offset(d))
}

/// Interval of the percussion harmonic above the triggering note: the 3rd
/// harmonic (a twelfth, 19 semitones) or the 2nd (an octave, 12 semitones).
pub open spec fn spec_percussion_interval(third: bool) -> int {
    if third {
        19
    } else {
        12
    }
}

/// The tonewheel that sounds the percussion "ping" for `note`.
pub fn percussion_wheel(note: u8, third: bool) -> (id: i32)
    ensures
        id == spec_foldback(note + spec_percussion_interval(third)),
        WHEEL_MIN <= id <= WHEEL_MAX,
{
    let off: i32 = if third {
        19
    } else {
        12
    };
    foldback(note as i32 + off)
}

/// One step of the xorshift32 generator (shifts 13, 17, 5).
pub open spec fn xorshift_step(x: u32) -> u32 {
    let a = x ^ (x << 13u32);
    let b = a ^ (a >> 17u32);
    b ^ (b << 5u32)
}

/// A small xorshift PRNG for the key-click noise, so the noise is identical on
/// every platform.
pub struct Rng {
    state: u32,
}

impl View for Rng {
    type V = u32;

    closed spec fn view(&self) -> u32 {
        self.state
    }
}

/// xorshift32 maps a nonzero state to a nonzero state, so a generator seeded
/// with a nonzero value never gets stuck at zero.
pub proof fn lemma_xorshift_nonzero(x: u32)
    requires
        x != 0,
    ensures
        xorshift_step(x) != 0,
{
    let a = x ^ (x << 13u32);
    let b = a ^ (a >> 17u32);
    assert(x != 0 ==> (x ^ (x << 13u32)) != 0) by (bit_vector);
    assert(a != 0 ==> (a ^ (a >> 17u32)) != 0) by (bit_vector);
    assert(b != 0 ==> (b ^ (b << 5u32)) != 0) by (bit_vector);
}

impl Rng {
    /// A generator whose state is `seed`.
    pub fn new(seed: u32) -> (rng: Self)
        ensures
            rng@ == seed,
    {
        Rng { state: seed }
    }

    /// Advance the generator and return its new state.
    pub fn next_u32(&mut self) -> (x: u32)
        ensures
            x == xorshift_step(old(self)@),
            final(self)@ == x,
            old(self)@ != 0 ==> x != 0,
    {
        let mut x = self.state;
        x = x ^ (x << 13u32);
        x = x ^ (x >> 17u32);
        x = x ^ (x << 5u32);
        self.state = x;
        proof {
            if old(self)@ != 0 {
                lemma_xorshift_nonzero(old(self)@);
            }
        }
        x
    }
}

} // verus!
