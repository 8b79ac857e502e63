use hammond_b3::midi::{handle_message, parse_message};
use hammond_b3::params::{EventQueue, MidiMsg, EVENT_CAPACITY};

#[test]
fn event_queue_round_trip() {
    let mut q = EventQueue::new();
    q.push_event(MidiMsg::NoteOn {
        note: 60,
        velocity: 100,
    });
    q.push_event(MidiMsg::NoteOff { note: 60 });
    let mut out = Vec::new();
    q.drain_events(&mut out);
    assert_eq!(out.len(), 2);
    assert_eq!(
        out,
        vec![
            MidiMsg::NoteOn {
                note: 60,
                velocity: 100
            },
            MidiMsg::NoteOff { note: 60 }
        ]
    );
    assert_eq!(q.len(), 0);
}

#[test]
fn drain_appends_after_existing_events() {
    let mut q = EventQueue::new();
    q.push_event(MidiMsg::AllNotesOff);
    let mut out = vec![MidiMsg::NoteOff { note: 1 }];
    q.drain_events(&mut out);
    assert_eq!(out, vec![MidiMsg::NoteOff { note: 1 }, MidiMsg::AllNotesOff]);
    let mut again = Vec::new();
    q.drain_events(&mut again);
    assert!(again.is_empty());
}

#[test]
fn full_queue_drops_new_events() {
    let mut q = EventQueue::new();
    for i in 0..EVENT_CAPACITY {
        q.push_event(MidiMsg::NoteOff { note: (i % 128) as u8 });
    }
    assert_eq!(q.len(), EVENT_CAPACITY);
    q.push_event(MidiMsg::AllNotesOff);
    assert_eq!(q.len(), EVENT_CAPACITY);
    let mut out = Vec::new();
    q.drain_events(&mut out);
    assert_eq!(out.len(), EVENT_CAPACITY);
    assert_eq!(out[0], MidiMsg::NoteOff { note: 0 });
    assert_eq!(out[EVENT_CAPACITY - 1], MidiMsg::NoteOff { note: 127 });
    assert!(!out.contains(&MidiMsg::AllNotesOff));
}

#[test]
fn parses_note_on_and_off() {
    assert_eq!(
        parse_message(&[0x90, 60, 100]),
        Some(MidiMsg::NoteOn {
            note: 60,
            velocity: 100
        })
    );
    assert_eq!(parse_message(&[0x80, 60, 64]), Some(MidiMsg::NoteOff { note: 60 }));
    // Note on with velocity zero is a note off.
    assert_eq!(parse_message(&[0x90, 61, 0]), Some(MidiMsg::NoteOff { note: 61 }));
}

#[test]
fn every_channel_is_heard() {
    for ch in 0..16u8 {
        assert_eq!(
            parse_message(&[0x90 | ch, 64, 1]),
            Some(MidiMsg::NoteOn {
                note: 64,
                velocity: 1
            })
        );
        assert_eq!(parse_message(&[0x80 | ch, 64]), Some(MidiMsg::NoteOff { note: 64 }));
        assert_eq!(parse_message(&[0xB0 | ch, 123, 0]), Some(MidiMsg::AllNotesOff));
    }
}

#[test]
fn short_messages_read_missing_bytes_as_zero() {
    assert_eq!(parse_message(&[0x90, 60]), Some(MidiMsg::NoteOff { note: 60 }));
    assert_eq!(parse_message(&[0x90]), Some(MidiMsg::NoteOff { note: 0 }));
    assert_eq!(parse_message(&[0x80]), Some(MidiMsg::NoteOff { note: 0 }));
}

#[test]
fn other_messages_are_ignored() {
    assert_eq!(parse_message(&[]), None);
    assert_eq!(parse_message(&[0xB0, 64, 127]), None);
    assert_eq!(parse_message(&[0xB0]), None);
    assert_eq!(parse_message(&[0xE0, 0, 64]), None);
    assert_eq!(parse_message(&[0xF8]), None);
    assert_eq!(parse_message(&[0x3C, 0x40]), None);
}

#[test]
fn handle_message_queues_decoded_events() {
    let mut q = EventQueue::new();
    handle_message(&mut q, &[0x91, 60, 100]);
    handle_message(&mut q, &[0xFE]);
    handle_message(&mut q, &[0x81, 60, 0]);
    let mut out = Vec::new();
    q.drain_events(&mut out);
    assert_eq!(
        out,
        vec![
            MidiMsg::NoteOn {
                note: 60,
                velocity: 100
            },
            MidiMsg::NoteOff { note: 60 }
        ]
    );
}
