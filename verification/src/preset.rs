//! The plain settings of a patch: Leslie speed, vibrato/chorus selector,
//! percussion section and drawbar registration.

use vstd::prelude::*;

verus! {

/// Number of drawbars on a single manual.
pub const DRAWBAR_COUNT: usize = 9;

/// Highest drawbar setting: each drawbar is pulled out in steps `0..=8`.
pub const DRAWBAR_MAX: u8 = 8;

/// Leslie rotary-speaker speed.
#[derive(Debug, Clone, Copy, PartialEq, Eq, Structural)]
pub enum LeslieSpeed {
    /// Rotors stopped (with slow inertial glide to a halt).
    Brake,
    /// Chorale — slow rotation.
    Slow,
    /// Tremolo — fast rotation.
    Fast,
}

impl Default for LeslieSpeed {
    fn default() -> (speed: Self)
        ensures
            speed == LeslieSpeed::Slow,
    {
        LeslieSpeed::Slow
    }
}

/// Vibrato/Chorus scanner selector, matching the classic C-1..V-3 knob.
#[derive(Debug, Clone, Copy, PartialEq, Eq, Structural)]
pub enum VibratoMode {
    Off,
    V1,
    V2,
    V3,
    C1,
    C2,
    C3,
}

impl Default for VibratoMode {
    fn default() -> (mode: Self)
        ensures
            mode == VibratoMode::Off,
    {
        VibratoMode::Off
    }
}

impl VibratoMode {
    /// The panel label of each selector position.
    pub open spec fn spec_label(self) -> Seq<char> {
        match self {
            VibratoMode::Off => "OFF"@,
            VibratoMode::V1 => "V-1"@,
            VibratoMode::V2 => "V-2"@,
            VibratoMode::V3 => "V-3"@,
            VibratoMode::C1 => "C-1"@,
            VibratoMode::C2 => "C-2"@,
            VibratoMode::C3 => "C-3"@,
        }
    }

    /// The label printed on the panel for this selector position.
    pub fn label(self) -> (text: &'static str)
        ensures
            text@ == self.spec_label(),
    {
        match self {
            VibratoMode::Off => "OFF",
            VibratoMode::V1 => "V-1",
            VibratoMode::V2 => "V-2",
            VibratoMode::V3 => "V-3",
            VibratoMode::C1 => "C-1",
            VibratoMode::C2 => "C-2",
            VibratoMode::C3 => "C-3",
        }
    }

    /// Every selector position, in panel order.
    pub fn all() -> (modes: [VibratoMode; 7])
        ensures
            modes@ == seq![
                VibratoMode::Off,
                VibratoMode::V1,
                VibratoMode::V2,
                VibratoMode::V3,
                VibratoMode::C1,
                VibratoMode::C2,
                VibratoMode::C3,
            ],
    {
        [
            VibratoMode::Off,
            VibratoMode::V1,
            VibratoMode::V2,
            VibratoMode::V3,
            VibratoMode::C1,
            VibratoMode::C2,
            VibratoMode::C3,
        ]
    }
}

/// Percussion section (the single-triggered harmonic "ping").
#[derive(Debug, Clone, Copy, PartialEq, Eq, Structural)]
pub struct Percussion {
    pub on: bool,
    /// `false` = Normal level, `true` = Soft.
    pub soft: bool,
    /// `false` = Slow decay, `true` = Fast decay.
    pub fast: bool,
    /// `false` = 2nd harmonic, `true` = 3rd harmonic.
    pub third: bool,
}

impl Default for Percussion {
    fn default() -> (p: Self)
        ensures
            p == (Percussion { on: true, soft: false, fast: true, third: true }),
    {
        Percussion { on: true, soft: false, fast: true, third: true }
    }
}

/// The step drawbar `i` is pulled out to, clamped to the drawbar's travel.
pub open spec fn spec_drawbar_level(drawbars: [u8; 9], i: int) -> u8 {
    if drawbars[i] < DRAWBAR_MAX {
        drawbars[i]
    } else {
        DRAWBAR_MAX
    }
}

/// The step (`0..=8`) drawbar `i` is pulled out to; out-of-travel settings
/// count as fully out. Its normalized gain is this step divided by 8.
pub fn drawbar_level(drawbars: &[u8; 9], i: usize) -> (level: u8)
    requires
        i < DRAWBAR_COUNT,
    ensures
        level == spec_drawbar_level(*drawbars, i as int),
        level <= DRAWBAR_MAX,
{
    let d = drawbars[i];
    if d < DRAWBAR_MAX {
        d
    } else {
        DRAWBAR_MAX
    }
}

/// Colour of a drawbar's handle.
#[derive(Debug, Clone, Copy, PartialEq, Eq, Structural)]
pub enum DrawbarColour {
    /// The sub-octave drawbars (16' and 5⅓').
    Brown,
    /// The octave drawbars (8', 4' and 2').
    White,
    /// The remaining mutation drawbars.
    Black,
}

/// Classic drawbar colours: brown for 16' and 5⅓', white for 8', 4' and 2',
/// black for the rest.
pub open spec fn spec_drawbar_colour(i: int) -> DrawbarColour {
    if i == 0 || i == 1 {
        DrawbarColour::Brown
    } else if i == 2 || i == 3 || i == 5 {
        DrawbarColour::White
    } else {
        DrawbarColour::Black
    }
}

/// The colour of drawbar `i`'s handle.
pub fn drawbar_colour(i: usize) -> (colour: DrawbarColour)
    ensures
        colour == spec_drawbar_colour(i as int),
{
    match i {
        0 | 1 => DrawbarColour::Brown,
        2 | 3 | 5 => DrawbarColour::White,
        _ => DrawbarColour::Black,
    }
}

} // verus!
