use hammond_b3::params::MidiMsg;
use hammond_b3::voices::{Key, Press, VoiceBank};

fn keys(bank: &VoiceBank) -> Vec<Key> {
    (0..bank.len()).map(|i| bank.key(i)).collect()
}

#[test]
fn first_press_adds_a_voice_and_fires_percussion() {
    let mut bank = VoiceBank::new(60);
    let p = bank.note_on(69, 100);
    assert_eq!(
        p,
        Press {
            index: 0,
            is_new: true,
            percussion: true
        }
    );
    assert_eq!(bank.held(), 1);
    assert_eq!(bank.perc_note(), 69);
    assert_eq!(
        keys(&bank),
        vec![Key {
            note: 69,
            gate: true,
            velocity: 100
        }]
    );
}

#[test]
fn percussion_is_single_triggered() {
    let mut bank = VoiceBank::new(60);
    bank.note_on(60, 100);
    let p = bank.note_on(64, 90);
    assert!(!p.percussion);
    assert_eq!(bank.perc_note(), 60);
    bank.note_off(60);
    bank.note_off(64);
    assert_eq!(bank.held(), 0);
    let p = bank.note_on(67, 80);
    assert!(p.percussion);
    assert_eq!(bank.perc_note(), 67);
}

#[test]
fn repressing_a_ringing_key_reuses_its_voice() {
    let mut bank = VoiceBank::new(60);
    bank.note_on(60, 100);
    bank.note_on(64, 100);
    bank.note_off(60);
    let p = bank.note_on(60, 50);
    assert_eq!(
        p,
        Press {
            index: 0,
            is_new: false,
            percussion: false
        }
    );
    assert_eq!(bank.len(), 2);
    assert_eq!(
        bank.key(0),
        Key {
            note: 60,
            gate: true,
            velocity: 50
        }
    );
    assert_eq!(bank.held(), 2);
}

#[test]
fn note_off_releases_only_a_held_key() {
    let mut bank = VoiceBank::new(60);
    bank.note_on(60, 100);
    bank.note_off(61);
    assert_eq!(bank.held(), 1);
    bank.note_off(60);
    assert_eq!(bank.held(), 0);
    assert!(!bank.key(0).gate);
    bank.note_off(60);
    assert_eq!(bank.held(), 0);
}

#[test]
fn repeated_press_counts_the_key_once() {
    let mut bank = VoiceBank::new(60);
    bank.note_on(60, 100);
    let p = bank.note_on(60, 100);
    assert!(!p.percussion);
    assert_eq!(bank.held(), 1);
    assert_eq!(bank.len(), 1);
    bank.note_off(60);
    assert_eq!(bank.held(), 0);
    assert!(!bank.key(0).gate);
}

#[test]
fn percussion_refires_after_a_doubly_pressed_key_is_released() {
    // A key pressed twice (say over MIDI and on screen) and released once
    // leaves the organ silent, so the next press re-fires the percussion.
    let mut bank = VoiceBank::new(60);
    bank.note_on(60, 100);
    bank.note_on(60, 100);
    bank.note_off(60);
    let p = bank.note_on(64, 100);
    assert!(p.percussion);
    assert_eq!(bank.perc_note(), 64);
    assert_eq!(bank.held(), 1);
    // A second release of a key already up changes nothing.
    bank.note_off(60);
    assert_eq!(bank.held(), 1);
}

#[test]
fn all_notes_off_releases_everything() {
    let mut bank = VoiceBank::new(60);
    for n in 60..72 {
        bank.note_on(n, 127);
    }
    bank.all_notes_off();
    assert_eq!(bank.held(), 0);
    assert_eq!(bank.len(), 12);
    assert!(keys(&bank).iter().all(|k| !k.gate));
    assert_eq!(bank.perc_note(), 60);
}

#[test]
fn retire_moves_the_last_voice_into_place() {
    let mut bank = VoiceBank::new(60);
    bank.note_on(60, 1);
    bank.note_on(62, 2);
    bank.note_on(64, 3);
    bank.note_off(60);
    bank.retire(0);
    let notes: Vec<u8> = keys(&bank).iter().map(|k| k.note).collect();
    assert_eq!(notes, vec![64, 62]);
    assert_eq!(bank.held(), 2);
}

#[test]
fn apply_dispatches_events() {
    let mut bank = VoiceBank::new(60);
    let p = bank.apply(MidiMsg::NoteOn {
        note: 48,
        velocity: 10,
    });
    assert_eq!(
        p,
        Some(Press {
            index: 0,
            is_new: true,
            percussion: true
        })
    );
    assert_eq!(bank.apply(MidiMsg::NoteOff { note: 48 }), None);
    assert_eq!(bank.held(), 0);
    bank.apply(MidiMsg::NoteOn {
        note: 50,
        velocity: 10,
    });
    assert_eq!(bank.apply(MidiMsg::AllNotesOff), None);
    assert_eq!(bank.held(), 0);
    assert!(keys(&bank).iter().all(|k| !k.gate));
}
