//! A tonewheel organ's control logic: the tonewheel foldback and the wheels that
//! each drawbar and the percussion gate, the voice bank that tracks held keys,
//! the bounded note-event queue between the input threads and the audio thread,
//! MIDI message decoding, the key-click noise generator and the on-screen /
//! computer keyboard state.

pub mod engine;
pub mod preset;
pub mod params;
pub mod midi;
pub mod voices;
pub mod keyboard;
pub mod picture;
