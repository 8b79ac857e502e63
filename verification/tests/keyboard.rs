use hammond_b3::keyboard::{key_label, manual_black_keys, manual_white_keys, KeyboardState};
use hammond_b3::params::MidiMsg;

fn on(n: u8) -> MidiMsg {
    MidiMsg::NoteOn {
        note: n,
        velocity: 100,
    }
}

fn off(n: u8) -> MidiMsg {
    MidiMsg::NoteOff { note: n }
}

#[test]
fn press_and_release_midi_notes() {
    let mut kb = KeyboardState::new();
    assert_eq!(kb.press(60), Some(on(60)));
    assert!(kb.is_active(60));
    assert_eq!(kb.release(60), Some(off(60)));
    assert!(!kb.is_active(60));
}

#[test]
fn notes_outside_midi_range_sound_nothing() {
    let mut kb = KeyboardState::new();
    assert_eq!(kb.press(128), None);
    assert_eq!(kb.press(-1), None);
    assert!(!kb.is_active(128));
    assert_eq!(kb.release(128), None);
}

#[test]
fn octave_shift_is_clamped() {
    let mut kb = KeyboardState::new();
    for _ in 0..10 {
        kb.octave_down();
    }
    assert_eq!(kb.octave(), -3);
    assert_eq!(kb.computer_base_note(), 24);
    assert_eq!(kb.manual_base_note(), 12);
    for _ in 0..10 {
        kb.octave_up();
    }
    assert_eq!(kb.octave(), 3);
    assert_eq!(kb.computer_base_note(), 96);
}

#[test]
fn computer_keys_start_and_stop_notes() {
    let mut kb = KeyboardState::new();
    let msgs = kb.sync_computer_keys(&[0, 4, 7]);
    assert_eq!(msgs.len(), 3);
    assert!(msgs.contains(&on(60)) && msgs.contains(&on(64)) && msgs.contains(&on(67)));
    // Holding the same keys sends nothing.
    assert!(kb.sync_computer_keys(&[0, 4, 7]).is_empty());
    // Moving to another chord: new notes first, then releases.
    let msgs = kb.sync_computer_keys(&[0, 3, 7]);
    assert_eq!(msgs, vec![on(63), off(64)]);
    let msgs = kb.sync_computer_keys(&[]);
    assert_eq!(msgs.len(), 3);
    assert!(msgs.iter().all(|m| matches!(m, MidiMsg::NoteOff { .. })));
    assert!(!kb.is_active(60));
}

#[test]
fn repeated_semitones_sound_once() {
    let mut kb = KeyboardState::new();
    let msgs = kb.sync_computer_keys(&[2, 2, 2]);
    assert_eq!(msgs, vec![on(62)]);
}

#[test]
fn computer_keys_leave_the_mouse_note_alone() {
    let mut kb = KeyboardState::new();
    assert_eq!(kb.pointer_at(Some(60)), vec![on(60)]);
    assert_eq!(kb.mouse_note(), Some(60));
    // Pressing the same note on the computer keyboard sends nothing.
    assert!(kb.sync_computer_keys(&[0]).is_empty());
    // Releasing it on the computer keyboard does not stop the mouse note.
    assert!(kb.sync_computer_keys(&[]).is_empty());
    assert!(kb.is_active(60));
    assert_eq!(kb.pointer_released(), Some(off(60)));
    assert!(!kb.is_active(60));
    assert_eq!(kb.pointer_released(), None);
}

#[test]
fn dragging_across_keys_moves_the_mouse_note() {
    let mut kb = KeyboardState::new();
    assert_eq!(kb.pointer_at(Some(60)), vec![on(60)]);
    assert!(kb.pointer_at(Some(60)).is_empty());
    assert_eq!(kb.pointer_at(Some(62)), vec![off(60), on(62)]);
    assert_eq!(kb.pointer_at(None), vec![off(62)]);
    assert_eq!(kb.mouse_note(), None);
    assert!(kb.pointer_at(None).is_empty());
}

#[test]
fn octave_shift_moves_the_computer_keys() {
    let mut kb = KeyboardState::new();
    kb.octave_up();
    assert_eq!(kb.sync_computer_keys(&[0]), vec![on(72)]);
    kb.octave_down();
    kb.octave_down();
    // The held 72 is no longer asked for; 48 starts.
    assert_eq!(kb.sync_computer_keys(&[0]), vec![on(48), off(72)]);
}

#[test]
fn manual_layout_notes() {
    let whites = manual_white_keys(48);
    assert_eq!(whites.len(), 22);
    assert_eq!(&whites[..8], &[48, 50, 52, 53, 55, 57, 59, 60]);
    assert_eq!(whites[21], 84);
    let blacks = manual_black_keys(48);
    assert_eq!(blacks.len(), 15);
    assert_eq!(&blacks[..6], &[(1, 49), (2, 51), (4, 54), (5, 56), (6, 58), (8, 61)]);
    assert_eq!(blacks[14], (20, 82));
}

#[test]
fn key_labels() {
    assert_eq!(key_label(60), "C4");
    assert_eq!(key_label(0), "C-1");
    assert_eq!(key_label(12), "C0");
    assert_eq!(key_label(120), "C9");
    assert_eq!(key_label(62), "D");
    assert_eq!(key_label(71), "B");
    assert_eq!(key_label(61), "");
    assert_eq!(key_label(65), "F");
}
