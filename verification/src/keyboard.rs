//! The playing keyboard: the on-screen manual played with the mouse, the
//! computer keys mapped to semitones, and the octave shift.
//!
//! Every key press or release turns into a note event for the audio thread;
//! notes outside the MIDI range `0..=127` sound nothing. The note held with the
//! mouse and the notes held on the computer keyboard are tracked apart, so
//! neither input releases a note the other one is holding.

use vstd::prelude::*;

use crate::params::MidiMsg;

verus! {

/// Lowest octave shift of the playing keyboard.
pub const OCTAVE_MIN: i32 = -3;

/// Highest octave shift of the playing keyboard.
pub const OCTAVE_MAX: i32 = 3;

/// Velocity of notes played on the keyboard.
pub const KEY_VELOCITY: u8 = 100;

/// Note of the computer keyboard's lowest key at octave shift 0 (middle C).
pub const COMPUTER_BASE_NOTE: i32 = 60;

/// Note of the on-screen manual's lowest key at octave shift 0.
pub const MANUAL_BASE_NOTE: i32 = 48;

/// A MIDI note number.
pub open spec fn in_midi_range(n: i32) -> bool {
    0 <= n <= 127
}

/// The note event that starts note `n`.
pub open spec fn on_msg(n: i32) -> MidiMsg {
    MidiMsg::NoteOn { note: n as u8, velocity: KEY_VELOCITY }
}

/// The note event that ends note `n`.
pub open spec fn off_msg(n: i32) -> MidiMsg {
    MidiMsg::NoteOff { note: n as u8 }
}

/// What the keyboard holds: its octave shift, the notes sounding, and the note
/// held with the mouse.
pub struct Keys {
    pub octave: i32,
    pub active: Set<i32>,
    pub mouse_note: Option<i32>,
}

/// The keyboard after note `n` is pressed.
pub open spec fn spec_press(k: Keys, n: i32) -> Keys {
    Keys {
        active: if in_midi_range(n) {
            k.active.insert(n)
        } else {
            k.active
        },
        ..k
    }
}

/// The keyboard after note `n` is released.
pub open spec fn spec_release(k: Keys, n: i32) -> Keys {
    Keys { active: k.active.remove(n), ..k }
}

/// The event a press of `n` sends.
pub open spec fn spec_press_msg(n: i32) -> Option<MidiMsg> {
    if in_midi_range(n) {
        Some(on_msg(n))
    } else {
        None
    }
}

/// The event a release of `n` sends.
pub open spec fn spec_release_msg(n: i32) -> Option<MidiMsg> {
    if in_midi_range(n) {
        Some(off_msg(n))
    } else {
        None
    }
}

/// Lowest note of the computer keyboard at octave shift `octave`.
pub open spec fn computer_base(octave: i32) -> int {
    COMPUTER_BASE_NOTE + 12 * octave
}

/// The notes the computer keys pressed at `semitones` ask for.
pub open spec fn desired_notes(octave: i32, semitones: Seq<u8>) -> Set<i32> {
    Set::new(
        |n: i32|
            exists|j: int|
                0 <= j < semitones.len() && n == computer_base(octave) + #[trigger] semitones[j],
    )
}

/// Note `n` starts sounding when the computer keys move to `semitones`.
pub open spec fn sync_turns_on(k: Keys, semitones: Seq<u8>, n: i32) -> bool {
    &&& in_midi_range(n)
    &&& desired_notes(k.octave, semitones).contains(n)
    &&& !k.active.contains(n)
    &&& k.mouse_note != Some(n)
}

/// Note `n` stops sounding when the computer keys move to `semitones`.
pub open spec fn sync_turns_off(k: Keys, semitones: Seq<u8>, n: i32) -> bool {
    &&& k.active.contains(n)
    &&& k.mouse_note != Some(n)
    &&& !desired_notes(k.octave, semitones).contains(n)
}

/// The keyboard once the computer keys held are exactly those at `semitones`:
/// the mouse note stays as it was, every other sounding note is one the
/// computer keys ask for.
pub open spec fn spec_sync(k: Keys, semitones: Seq<u8>) -> Keys {
    Keys {
        active: Set::new(
            |n: i32|
                (k.active.contains(n) && k.mouse_note == Some(n)) || (in_midi_range(n)
                    && desired_notes(k.octave, semitones).contains(n) && k.mouse_note != Some(n)),
        ),
        ..k
    }
}

/// The events a move of the computer keys to `semitones` sends.
pub open spec fn spec_sync_msg(k: Keys, semitones: Seq<u8>, msg: MidiMsg) -> bool {
    match msg {
        MidiMsg::NoteOn { note, velocity } => velocity == KEY_VELOCITY && sync_turns_on(
            k,
            semitones,
            note as i32,
        ),
        MidiMsg::NoteOff { note } => sync_turns_off(k, semitones, note as i32),
        MidiMsg::AllNotesOff => false,
    }
}

/// A press or release event as a sequence of zero or one events.
pub open spec fn opt_seq(msg: Option<MidiMsg>) -> Seq<MidiMsg> {
    match msg {
        Some(m) => seq![m],
        None => Seq::empty(),
    }
}

/// The keyboard after the mouse moves onto the key of `note` (or off every
/// key) with its button down: a changed key releases the old one and presses
/// the new one.
pub open spec fn spec_pointer_at(k: Keys, note: Option<i32>) -> Keys {
    if note == k.mouse_note {
        k
    } else {
        let k1 = match k.mouse_note {
            Some(o) => spec_release(k, o),
            None => k,
        };
        let k2 = match note {
            Some(n) => spec_press(k1, n),
            None => k1,
        };
        Keys { mouse_note: note, ..k2 }
    }
}

/// The events the mouse moving onto the key of `note` sends.
pub open spec fn spec_pointer_msgs(k: Keys, note: Option<i32>) -> Seq<MidiMsg> {
    if note == k.mouse_note {
        Seq::empty()
    } else {
        (match k.mouse_note {
            Some(o) => opt_seq(spec_release_msg(o)),
            None => Seq::empty(),
        }) + (match note {
            Some(n) => opt_seq(spec_press_msg(n)),
            None => Seq::empty(),
        })
    }
}

/// The keyboard after the mouse button is let go: the mouse note is released.
pub open spec fn spec_pointer_released(k: Keys) -> Keys {
    match k.mouse_note {
        Some(o) => Keys { mouse_note: None, ..spec_release(k, o) },
        None => k,
    }
}

/// Octaves on the on-screen manual (plus a top C).
pub const MANUAL_OCTAVES: usize = 3;

/// Semitone above the octave's C of white key `w` (`0..7`).
pub open spec fn white_semitone(w: int) -> int {
    if w == 0 {
        0
    } else if w == 1 {
        2
    } else if w == 2 {
        4
    } else if w == 3 {
        5
    } else if w == 4 {
        7
    } else if w == 5 {
        9
    } else {
        11
    }
}

/// For black key `b` (`0..5`) of an octave: the white key it sits after.
pub open spec fn black_after_white(b: int) -> int {
    if b == 0 {
        0
    } else if b == 1 {
        1
    } else if b == 2 {
        3
    } else if b == 3 {
        4
    } else {
        5
    }
}

/// Semitone above the octave's C of black key `b` (`0..5`).
pub open spec fn black_semitone(b: int) -> int {
    if b == 0 {
        1
    } else if b == 1 {
        3
    } else if b == 2 {
        6
    } else if b == 3 {
        8
    } else {
        10
    }
}

fn white_semitone_of(w: usize) -> (s: i32)
    requires
        w < 7,
    ensures
        s == white_semitone(w as int),
{
    match w {
        0 => 0,
        1 => 2,
        2 => 4,
        3 => 5,
        4 => 7,
        5 => 9,
        _ => 11,
    }
}

fn black_key_of(b: usize) -> (key: (usize, i32))
    requires
        b < 5,
    ensures
        key.0 == black_after_white(b as int),
        key.1 == black_semitone(b as int),
{
    match b {
        0 => (0, 1),
        1 => (1, 3),
        2 => (3, 6),
        3 => (4, 8),
        _ => (5, 10),
    }
}

/// Notes of the on-screen manual's white keys, left to right, when its lowest
/// key is `base`: three octaves of C major and a top C.
pub fn manual_white_keys(base: i32) -> (notes: Vec<i32>)
    requires
        base + 12 * MANUAL_OCTAVES <= i32::MAX,
    ensures
        notes@.len() == 7 * MANUAL_OCTAVES + 1,
        forall|w: int|
            0 <= w < 7 * MANUAL_OCTAVES ==> #[trigger] notes@[w] == base + 12 * (w / 7)
                + white_semitone(w % 7),
        notes@[7 * MANUAL_OCTAVES as int] == base + 12 * MANUAL_OCTAVES,
{
    let mut notes: Vec<i32> = Vec::new();
    let mut o: usize = 0;
    while o < MANUAL_OCTAVES
        invariant
            o <= MANUAL_OCTAVES,
            base + 12 * MANUAL_OCTAVES <= i32::MAX,
            notes@.len() == 7 * o,
            forall|w: int|
                0 <= w < 7 * o ==> #[trigger] notes@[w] == base + 12 * (w / 7) + white_semitone(
                    w % 7,
                ),
        decreases MANUAL_OCTAVES - o,
    {
        let mut w: usize = 0;
        while w < 7
            invariant
                o < MANUAL_OCTAVES,
                w <= 7,
                base + 12 * MANUAL_OCTAVES <= i32::MAX,
                notes@.len() == 7 * o + w,
                forall|x: int|
                    0 <= x < 7 * o + w ==> #[trigger] notes@[x] == base + 12 * (x / 7)
                        + white_semitone(x % 7),
            decreases 7 - w,
        {
            let note = base + 12 * (o as i32) + white_semitone_of(w);
            notes.push(note);
            assert((7 * o + w) / 7 == o && (7 * o + w) % 7 == w) by (nonlinear_arith)
                requires
                    w < 7,
            ;
            w = w + 1;
        }
        o = o + 1;
    }
    notes.push(base + 12 * (MANUAL_OCTAVES as i32));
    notes
}

/// The on-screen manual's black keys, left to right, when its lowest key is
/// `base`: each as the white-key slot whose right edge it straddles and its
/// note.
pub fn manual_black_keys(base: i32) -> (keys: Vec<(usize, i32)>)
    requires
        base + 12 * MANUAL_OCTAVES <= i32::MAX,
    ensures
        keys@.len() == 5 * MANUAL_OCTAVES,
        forall|k: int|
            0 <= k < 5 * MANUAL_OCTAVES ==> (#[trigger] keys@[k]).0 == 7 * (k / 5)
                + black_after_white(k % 5) + 1 && keys@[k].1 == base + 12 * (k / 5)
                + black_semitone(k % 5),
{
    let mut keys: Vec<(usize, i32)> = Vec::new();
    let mut o: usize = 0;
    while o < MANUAL_OCTAVES
        invariant
            o <= MANUAL_OCTAVES,
            base + 12 * MANUAL_OCTAVES <= i32::MAX,
            keys@.len() == 5 * o,
            forall|k: int|
                0 <= k < 5 * o ==> (#[trigger] keys@[k]).0 == 7 * (k / 5) + black_after_white(
                    k % 5,
                ) + 1 && keys@[k].1 == base + 12 * (k / 5) + black_semitone(k % 5),
        decreases MANUAL_OCTAVES - o,
    {
        let mut b: usize = 0;
        while b < 5
            invariant
                o < MANUAL_OCTAVES,
                b <= 5,
                base + 12 * MANUAL_OCTAVES <= i32::MAX,
                keys@.len() == 5 * o + b,
                forall|k: int|
                    0 <= k < 5 * o + b ==> (#[trigger] keys@[k]).0 == 7 * (k / 5)
                        + black_after_white(k % 5) + 1 && keys@[k].1 == base + 12 * (k / 5)
                        + black_semitone(k % 5),
            decreases 5 - b,
        {
            let (after, semi) = black_key_of(b);
            keys.push((o * 7 + after + 1, base + 12 * (o as i32) + semi));
            assert((5 * o + b) / 5 == o && (5 * o + b) % 5 == b) by (nonlinear_arith)
                requires
                    b < 5,
            ;
            b = b + 1;
        }
        o = o + 1;
    }
    keys
}

/// Decimal digit `d` (`0..10`).
pub open spec fn digit_char(d: int) -> char {
    if d == 0 {
        '0'
    } else if d == 1 {
        '1'
    } else if d == 2 {
        '2'
    } else if d == 3 {
        '3'
    } else if d == 4 {
        '4'
    } else if d == 5 {
        '5'
    } else if d == 6 {
        '6'
    } else if d == 7 {
        '7'
    } else if d == 8 {
        '8'
    } else {
        '9'
    }
}

/// Decimal digits of `n`.
pub open spec fn decimal(n: nat) -> Seq<char>
    decreases n,
{
    if n < 10 {
        seq![digit_char(n as int)]
    } else {
        decimal(n / 10) + seq![digit_char((n % 10) as int)]
    }
}

/// Decimal text of `n`, with a minus sign when negative.
pub open spec fn signed_decimal(n: int) -> Seq<char> {
    if n < 0 {
        seq!['-'] + decimal((-n) as nat)
    } else {
        decimal(n as nat)
    }
}

/// Name printed on a key a given number of semitones above C: white keys other
/// than C carry their letter, black keys nothing.
pub open spec fn semitone_name(semi: int) -> Seq<char> {
    if semi == 2 {
        seq!['D']
    } else if semi == 4 {
        seq!['E']
    } else if semi == 5 {
        seq!['F']
    } else if semi == 7 {
        seq!['G']
    } else if semi == 9 {
        seq!['A']
    } else if semi == 11 {
        seq!['B']
    } else {
        Seq::empty()
    }
}

/// Label printed on the key of `note`: a C carries its octave number (middle C,
/// note 60, is "C4"), other white keys their letter.
pub open spec fn spec_key_label(note: u8) -> Seq<char> {
    if note % 12 == 0 {
        seq!['C'] + signed_decimal(note / 12 - 1)
    } else {
        semitone_name((note % 12) as int)
    }
}

fn digit_text(d: u8) -> (text: &'static str)
    requires
        d < 10,
    ensures
        text@ == seq![digit_char(d as int)],
{
    proof {
        reveal_strlit("0");
        reveal_strlit("1");
        reveal_strlit("2");
        reveal_strlit("3");
        reveal_strlit("4");
        reveal_strlit("5");
        reveal_strlit("6");
        reveal_strlit("7");
        reveal_strlit("8");
        reveal_strlit("9");
    }
    match d {
        0 => "0",
        1 => "1",
        2 => "2",
        3 => "3",
        4 => "4",
        5 => "5",
        6 => "6",
        7 => "7",
        8 => "8",
        _ => "9",
    }
}

/// The label printed on the key of `note`.
pub fn key_label(note: u8) -> (label: String)
    ensures
        label@ == spec_key_label(note),
{
    proof {
        reveal_strlit("C");
        reveal_strlit("-1");
        reveal_strlit("D");
        reveal_strlit("E");
        reveal_strlit("F");
        reveal_strlit("G");
        reveal_strlit("A");
        reveal_strlit("B");
        reveal_strlit("");
    }
    let semi = note % 12;
    if semi == 0 {
        let mut label = String::from_str("C");
        if note < 12 {
            label.append("-1");
            assert(decimal(1) == seq![digit_char(1)]);
            assert(label@ =~= spec_key_label(note));
        } else {
            let octave = note / 12 - 1;
            if octave >= 10 {
                label.append(digit_text(octave / 10));
                label.append(digit_text(octave % 10));
                assert(decimal((octave / 10) as nat) == seq![digit_char((octave / 10) as int)]);
                assert(label@ =~= spec_key_label(note));
            } else {
                label.append(digit_text(octave));
                assert(label@ =~= spec_key_label(note));
            }
        }
        label
    } else {
        let name = match semi {
            2 => "D",
            4 => "E",
            5 => "F",
            7 => "G",
            9 => "A",
            11 => "B",
            _ => "",
        };
        let label = String::from_str(name);
        assert(label@ =~= spec_key_label(note));
        label
    }
}

/// The keyboard's invariant: the octave shift within its range, and only MIDI
/// notes sounding.
pub open spec fn keys_wf(k: Keys) -> bool {
    &&& OCTAVE_MIN <= k.octave <= OCTAVE_MAX
    &&& forall|n: i32| k.active.contains(n) ==> in_midi_range(n)
}

/// Each computer key held at offset `s` (semitones above the lowest computer
/// key, which is middle C, note 60, shifted by 12 per octave) sounds exactly
/// note `60 + 12 * octave + s`, unless that is not a MIDI note or is the mouse
/// note; every note left sounding is either such a note or the mouse note.
/// A held key that was not sounding is started with a note-on, a sounding note
/// whose key is let go is stopped with a note-off.
pub proof fn lemma_sync_plays_held_keys(k: Keys, semitones: Seq<u8>)
    requires
        keys_wf(k),
    ensures
        forall|j: int|
            #![trigger semitones[j]]
            0 <= j < semitones.len() && 0 <= 60 + 12 * k.octave + semitones[j] <= 127
                && k.mouse_note != Some((60 + 12 * k.octave + semitones[j]) as i32)
                ==> spec_sync(k, semitones).active.contains(
                (60 + 12 * k.octave + semitones[j]) as i32,
            ),
        forall|n: i32|
            #[trigger] spec_sync(k, semitones).active.contains(n) ==> k.mouse_note == Some(n)
                || exists|j: int|
                0 <= j < semitones.len() && n == 60 + 12 * k.octave + #[trigger] semitones[j],
        forall|j: int|
            #![trigger semitones[j]]
            0 <= j < semitones.len() && 0 <= 60 + 12 * k.octave + semitones[j] <= 127
                && k.mouse_note != Some((60 + 12 * k.octave + semitones[j]) as i32)
                && !k.active.contains((60 + 12 * k.octave + semitones[j]) as i32)
                ==> spec_sync_msg(
                k,
                semitones,
                MidiMsg::NoteOn {
                    note: (60 + 12 * k.octave + semitones[j]) as u8,
                    velocity: 100,
                },
            ),
        forall|n: i32|
            #[trigger] k.active.contains(n) && k.mouse_note != Some(n) && (forall|j: int|
                0 <= j < semitones.len() ==> n != 60 + 12 * k.octave + #[trigger] semitones[j])
                ==> spec_sync_msg(k, semitones, MidiMsg::NoteOff { note: n as u8 }),
{
    assert forall|j: int|
        #![trigger semitones[j]]
        0 <= j < semitones.len() && 0 <= 60 + 12 * k.octave + semitones[j] <= 127
            && k.mouse_note != Some((60 + 12 * k.octave + semitones[j]) as i32) implies spec_sync(
        k,
        semitones,
    ).active.contains((60 + 12 * k.octave + semitones[j]) as i32) by {
        let n = (60 + 12 * k.octave + semitones[j]) as i32;
        assert(desired_notes(k.octave, semitones).contains(n));
    }
    assert forall|j: int|
        #![trigger semitones[j]]
        0 <= j < semitones.len() && 0 <= 60 + 12 * k.octave + semitones[j] <= 127
            && k.mouse_note != Some((60 + 12 * k.octave + semitones[j]) as i32)
            && !k.active.contains((60 + 12 * k.octave + semitones[j]) as i32) implies spec_sync_msg(
        k,
        semitones,
        MidiMsg::NoteOn { note: (60 + 12 * k.octave + semitones[j]) as u8, velocity: 100 },
    ) by {
        let n = (60 + 12 * k.octave + semitones[j]) as i32;
        assert(desired_notes(k.octave, semitones).contains(n));
        assert(((n as u8) as i32) == n);
    }
    assert forall|n: i32|
        #[trigger] k.active.contains(n) && k.mouse_note != Some(n) && (forall|j: int|
            0 <= j < semitones.len() ==> n != 60 + 12 * k.octave + #[trigger] semitones[j])
            implies spec_sync_msg(k, semitones, MidiMsg::NoteOff { note: n as u8 }) by {
        assert(in_midi_range(n));
        assert(((n as u8) as i32) == n);
        if desired_notes(k.octave, semitones).contains(n) {
            let t = choose|t: int|
                0 <= t < semitones.len() && n == computer_base(k.octave) + #[trigger] semitones[t];
            assert(n == 60 + 12 * k.octave + semitones[t]);
        }
    }
}

/// Every white key other than C carries its letter of the C-major scale, in
/// order D E F G A B for 2, 4, 5, 7, 9, 11 semitones above C; black keys carry
/// no label; a C carries "C" followed by its octave number.
pub proof fn lemma_key_letters(note: u8)
    ensures
        note % 12 == 2 ==> spec_key_label(note) == seq!['D'],
        note % 12 == 4 ==> spec_key_label(note) == seq!['E'],
        note % 12 == 5 ==> spec_key_label(note) == seq!['F'],
        note % 12 == 7 ==> spec_key_label(note) == seq!['G'],
        note % 12 == 9 ==> spec_key_label(note) == seq!['A'],
        note % 12 == 11 ==> spec_key_label(note) == seq!['B'],
        (note % 12 == 1 || note % 12 == 3 || note % 12 == 6 || note % 12 == 8 || note % 12 == 10)
            ==> spec_key_label(note).len() == 0,
        note % 12 == 0 ==> spec_key_label(note).len() >= 2 && spec_key_label(note)[0] == 'C',
        note % 12 == 0 && 12 <= note < 132 ==> spec_key_label(note) == seq![
            'C',
            (48 + note / 12 - 1) as char,
        ],
{
    if note % 12 == 0 && 12 <= note < 132 {
        let o = note / 12 - 1;
        assert(0 <= o < 10);
        assert(digit_char(o as int) == (48 + o) as char);
    }
}

/// Holding the computer keys still sends nothing: syncing twice to the same
/// keys changes nothing the second time.
pub proof fn lemma_sync_idempotent(k: Keys, semitones: Seq<u8>, n: i32)
    requires
        keys_wf(k),
    ensures
        spec_sync(spec_sync(k, semitones), semitones).active == spec_sync(k, semitones).active,
        !sync_turns_on(spec_sync(k, semitones), semitones, n),
        !sync_turns_off(spec_sync(k, semitones), semitones, n),
{
    assert(spec_sync(spec_sync(k, semitones), semitones).active =~= spec_sync(
        k,
        semitones,
    ).active);
}

/// The computer keys never start or stop the note held with the mouse.
pub proof fn lemma_sync_spares_mouse_note(k: Keys, semitones: Seq<u8>, n: i32)
    requires
        k.mouse_note == Some(n),
    ensures
        spec_sync(k, semitones).active.contains(n) == k.active.contains(n),
        !sync_turns_on(k, semitones, n),
        !sync_turns_off(k, semitones, n),
{
}

/// Pressing and then releasing a note that was not sounding leaves the notes
/// sounding as they were.
pub proof fn lemma_press_release(k: Keys, n: i32)
    requires
        !k.active.contains(n),
    ensures
        spec_release(spec_press(k, n), n) == k,
{
    assert(spec_release(spec_press(k, n), n).active =~= k.active);
}

/// The playing keyboard's state.
pub struct KeyboardState {
    octave: i32,
    active: Vec<i32>,
    mouse_note: Option<i32>,
}

impl View for KeyboardState {
    type V = Keys;

    closed spec fn view(&self) -> Keys {
        Keys { octave: self.octave, active: self.active@.to_set(), mouse_note: self.mouse_note }
    }
}

fn vec_contains(v: &Vec<i32>, n: i32) -> (found: bool)
    ensures
        found == v@.contains(n),
{
    let mut i: usize = 0;
    while i < v.len()
        invariant
            i <= v@.len(),
            forall|j: int| 0 <= j < i ==> v@[j] != n,
        decreases v@.len() - i,
    {
        if v[i] == n {
            assert(v@[i as int] == n);
            return true;
        }
        i = i + 1;
    }
    false
}

impl KeyboardState {
    #[verifier::type_invariant]
    closed spec fn inv(self) -> bool {
        &&& OCTAVE_MIN <= self.octave <= OCTAVE_MAX
        &&& self.active@.no_duplicates()
        &&& forall|i: int| 0 <= i < self.active@.len() ==> in_midi_range(#[trigger] self.active@[i])
    }

    /// A keyboard at octave shift 0 with nothing held.
    pub fn new() -> (kb: Self)
        ensures
            kb@.octave == 0,
            kb@.active == Set::<i32>::empty(),
            kb@.mouse_note == None::<i32>,
            keys_wf(kb@),
    {
        let kb = KeyboardState { octave: 0, active: Vec::new(), mouse_note: None };
        assert(kb@.active =~= Set::<i32>::empty());
        kb
    }

    /// The current octave shift.
    pub fn octave(&self) -> (octave: i32)
        ensures
            octave == self@.octave,
            OCTAVE_MIN <= octave <= OCTAVE_MAX,
    {
        proof {
            use_type_invariant(self);
        }
        self.octave
    }

    /// The note held with the mouse, if any.
    pub fn mouse_note(&self) -> (note: Option<i32>)
        ensures
            note == self@.mouse_note,
    {
        self.mouse_note
    }

    /// Whether note `n` is sounding.
    pub fn is_active(&self, n: i32) -> (on: bool)
        ensures
            on == self@.active.contains(n),
    {
        vec_contains(&self.active, n)
    }

    /// Lowest note of the computer keyboard.
    pub fn computer_base_note(&self) -> (n: i32)
        ensures
            n == computer_base(self@.octave),
    {
        proof {
            use_type_invariant(self);
        }
        COMPUTER_BASE_NOTE + 12 * self.octave
    }

    /// Lowest note of the on-screen manual.
    pub fn manual_base_note(&self) -> (n: i32)
        ensures
            n == MANUAL_BASE_NOTE + 12 * self@.octave,
    {
        proof {
            use_type_invariant(self);
        }
        MANUAL_BASE_NOTE + 12 * self.octave
    }

    /// Shift the keyboard down an octave, stopping at the lowest shift.
    pub fn octave_down(&mut self)
        ensures
            final(self)@ == (Keys {
                octave: if old(self)@.octave > OCTAVE_MIN {
                    (old(self)@.octave - 1) as i32
                } else {
                    OCTAVE_MIN
                },
                ..old(self)@
            }),
            keys_wf(final(self)@),
    {
        proof {
            use_type_invariant(&*self);
        }
        let octave = if self.octave > OCTAVE_MIN {
            self.octave - 1
        } else {
            OCTAVE_MIN
        };
        self.octave = octave;
        proof {
            use_type_invariant(&*self);
        }
    }

    /// Shift the keyboard up an octave, stopping at the highest shift.
    pub fn octave_up(&mut self)
        ensures
            final(self)@ == (Keys {
                octave: if old(self)@.octave < OCTAVE_MAX {
                    (old(self)@.octave + 1) as i32
                } else {
                    OCTAVE_MAX
                },
                ..old(self)@
            }),
            keys_wf(final(self)@),
    {
        proof {
            use_type_invariant(&*self);
        }
        let octave = if self.octave < OCTAVE_MAX {
            self.octave + 1
        } else {
            OCTAVE_MAX
        };
        self.octave = octave;
        proof {
            use_type_invariant(&*self);
        }
    }

    /// Press note `n`: a MIDI note starts sounding and its note-on event is
    /// returned; any other number sounds nothing.
    pub fn press(&mut self, n: i32) -> (msg: Option<MidiMsg>)
        ensures
            final(self)@ == spec_press(old(self)@, n),
            msg == spec_press_msg(n),
            keys_wf(final(self)@),
    {
        proof {
            use_type_invariant(&*self);
        }
        if 0 <= n && n <= 127 {
            let mut active: Vec<i32> = Vec::new();
            std::mem::swap(&mut active, &mut self.active);
            let ghost old_active = active@;
            if !vec_contains(&active, n) {
                active.push(n);
                assert(active@.drop_last() == old_active);
            }
            assert(active@.to_set() =~= old_active.to_set().insert(n)) by {
                assert forall|x: i32| active@.contains(x) == (old_active.contains(x) || x == n) by {
                    if old_active.contains(x) {
                        let j = choose|j: int| 0 <= j < old_active.len() && old_active[j] == x;
                        assert(active@[j] == x);
                    }
                    if x == n && !old_active.contains(n) {
                        assert(active@[active@.len() - 1] == n);
                    }
                }
            }
            *self = KeyboardState { octave: self.octave, active, mouse_note: self.mouse_note };
            proof {
                use_type_invariant(&*self);
            }
            Some(MidiMsg::NoteOn { note: n as u8, velocity: KEY_VELOCITY })
        } else {
            None
        }
    }

    /// Release note `n`: it stops sounding, and a MIDI note's note-off event is
    /// returned.
    pub fn release(&mut self, n: i32) -> (msg: Option<MidiMsg>)
        ensures
            final(self)@ == spec_release(old(self)@, n),
            msg == spec_release_msg(n),
            keys_wf(final(self)@),
    {
        proof {
            use_type_invariant(&*self);
        }
        let mut active: Vec<i32> = Vec::new();
        std::mem::swap(&mut active, &mut self.active);
        let ghost old_active = active@;
        let mut i: usize = 0;
        while i < active.len()
            invariant
                active@ == old_active,
                i <= active@.len(),
                forall|j: int| 0 <= j < i ==> active@[j] != n,
            ensures
                active@ == old_active,
                i <= active@.len(),
                forall|j: int| 0 <= j < i ==> active@[j] != n,
                i < active@.len() ==> active@[i as int] == n,
            decreases active@.len() - i,
        {
            if active[i] == n {
                break ;
            }
            i = i + 1;
        }
        if i < active.len() {
            active.remove(i);
            assert(active@.to_set() =~= old_active.to_set().remove(n)) by {
                assert forall|x: i32| active@.contains(x) == (old_active.contains(x) && x != n) by {
                    if old_active.contains(x) && x != n {
                        let j = choose|j: int| 0 <= j < old_active.len() && old_active[j] == x;
                        if j < i {
                            assert(active@[j] == x);
                        } else {
                            assert(j != i);
                            assert(active@[j - 1] == x);
                        }
                    }
                    if active@.contains(x) {
                        let j = choose|j: int| 0 <= j < active@.len() && active@[j] == x;
                        if j < i {
                            assert(old_active[j] == x);
                        } else {
                            assert(old_active[j + 1] == x);
                            assert(old_active[i as int] == n);
                        }
                    }
                }
            }
        } else {
            assert(active@.to_set() =~= old_active.to_set().remove(n));
        }
        *self = KeyboardState { octave: self.octave, active, mouse_note: self.mouse_note };
        proof {
            use_type_invariant(&*self);
        }
        if 0 <= n && n <= 127 {
            Some(MidiMsg::NoteOff { note: n as u8 })
        } else {
            None
        }
    }

    /// The mouse, button down, is over the key of `note` (or over no key): a
    /// change of key releases the old mouse note and presses the new one.
    pub fn pointer_at(&mut self, note: Option<i32>) -> (msgs: Vec<MidiMsg>)
        ensures
            final(self)@ == spec_pointer_at(old(self)@, note),
            msgs@ == spec_pointer_msgs(old(self)@, note),
            keys_wf(final(self)@),
    {
        let mut msgs: Vec<MidiMsg> = Vec::new();
        let same = match (note, self.mouse_note) {
            (Some(a), Some(b)) => a == b,
            (None, None) => true,
            _ => false,
        };
        if !same {
            if let Some(o) = self.mouse_note {
                if let Some(m) = self.release(o) {
                    msgs.push(m);
                }
            }
            if let Some(n) = note {
                if let Some(m) = self.press(n) {
                    msgs.push(m);
                }
            }
            proof {
                use_type_invariant(&*self);
            }
            self.mouse_note = note;
        }
        proof {
            use_type_invariant(&*self);
        }
        assert(msgs@ =~= spec_pointer_msgs(old(self)@, note));
        msgs
    }

    /// The mouse button is let go: the mouse note, if any, is released.
    pub fn pointer_released(&mut self) -> (msg: Option<MidiMsg>)
        ensures
            final(self)@ == spec_pointer_released(old(self)@),
            msg == match old(self)@.mouse_note {
                Some(o) => spec_release_msg(o),
                None => None,
            },
            keys_wf(final(self)@),
    {
        let result = match self.mouse_note {
            Some(o) => {
                let m = self.release(o);
                proof {
                    use_type_invariant(&*self);
                }
                self.mouse_note = None;
                m
            },
            None => None,
        };
        proof {
            use_type_invariant(&*self);
        }
        result
    }

    /// The computer keys held are exactly those at `semitones` (offsets above
    /// the computer keyboard's lowest note): notes newly asked for start, notes
    /// no longer asked for stop, the mouse note is left alone. The note-on
    /// events come first, then the note-off events.
    pub fn sync_computer_keys(&mut self, semitones: &[u8]) -> (msgs: Vec<MidiMsg>)
        ensures
            final(self)@ == spec_sync(old(self)@, semitones@),
            keys_wf(final(self)@),
            msgs@.no_duplicates(),
            forall|msg: MidiMsg| #[trigger]
                msgs@.contains(msg) <==> spec_sync_msg(old(self)@, semitones@, msg),
            forall|a: int, b: int|
                0 <= a < b < msgs@.len() && (msgs@[a] is NoteOff) ==> (msgs@[b] is NoteOff),
    {
        proof {
            use_type_invariant(&*self);
        }
        let ghost k = self@;
        let ghost desired = desired_notes(self.octave, semitones@);
        let base: i32 = COMPUTER_BASE_NOTE + 12 * self.octave;
        let mouse = self.mouse_note;

        // The notes asked for, each once.
        let mut d: Vec<i32> = Vec::new();
        let mut j: usize = 0;
        while j < semitones.len()
            invariant
                j <= semitones@.len(),
                base == computer_base(k.octave),
                24 <= base <= 96,
                d@.no_duplicates(),
                forall|n: i32|
                    d@.contains(n) <==> exists|t: int|
                        0 <= t < j && n == base + #[trigger] semitones@[t],
            decreases semitones@.len() - j,
        {
            let n: i32 = base + semitones[j] as i32;
            let ghost d0 = d@;
            let seen = vec_contains(&d, n);
            if !seen {
                d.push(n);
                assert forall|x: i32| d@.contains(x) <==> (d0.contains(x) || x == n) by {
                    if d0.contains(x) {
                        let t = choose|t: int| 0 <= t < d0.len() && d0[t] == x;
                        assert(d@[t] == x);
                    }
                    if d@.contains(x) {
                        let t = choose|t: int| 0 <= t < d@.len() && d@[t] == x;
                        if t < d0.len() {
                            assert(d0[t] == x);
                        }
                    }
                    if x == n {
                        assert(d@[d@.len() - 1] == n);
                    }
                }
            }
            assert(forall|x: i32| d@.contains(x) <==> (d0.contains(x) || x == n));
            assert forall|x: i32|
                d@.contains(x) <==> exists|t: int|
                    0 <= t < j + 1 && x == base + #[trigger] semitones@[t] by {
                if d@.contains(x) {
                    if x == n {
                        assert(0 <= j < j + 1 && x == base + semitones@[j as int]);
                    } else {
                        assert(d0.contains(x));
                        let t = choose|t: int| 0 <= t < j && x == base + #[trigger] semitones@[t];
                        assert(0 <= t < j + 1 && x == base + semitones@[t]);
                    }
                }
                if exists|t: int| 0 <= t < j + 1 && x == base + #[trigger] semitones@[t] {
                    let t = choose|t: int| 0 <= t < j + 1 && x == base + #[trigger] semitones@[t];
                    if t < j {
                        assert(0 <= t < j && x == base + semitones@[t]);
                        assert(d0.contains(x));
                    } else {
                        assert(x == n);
                    }
                }
            }
            j = j + 1;
        }
        assert forall|n: i32| d@.contains(n) <==> desired.contains(n) by {
            if d@.contains(n) {
                let t = choose|t: int| 0 <= t < semitones@.len() && n == base + #[trigger] semitones@[t];
                assert(n == computer_base(k.octave) + semitones@[t]);
            }
            if desired.contains(n) {
                let t = choose|t: int|
                    0 <= t < semitones@.len() && n == computer_base(k.octave) + #[trigger] semitones@[t];
                assert(n == base + semitones@[t]);
            }
        }

        // Notes asked for that start (or keep) sounding, and their note-ons.
        let mut new_active: Vec<i32> = Vec::new();
        let mut msgs: Vec<MidiMsg> = Vec::new();
        let mut i: usize = 0;
        while i < d.len()
            invariant
                i <= d@.len(),
                d@.no_duplicates(),
                mouse == k.mouse_note,
                forall|n: i32| d@.contains(n) <==> desired.contains(n),
                desired == desired_notes(k.octave, semitones@),
                k == (Keys { octave: self.octave, active: self.active@.to_set(), mouse_note: self.mouse_note }),
                new_active@.no_duplicates(),
                forall|t: int| 0 <= t < new_active@.len() ==> in_midi_range(#[trigger] new_active@[t]),
                forall|n: i32|
                    new_active@.contains(n) <==> (d@.subrange(0, i as int).contains(n)
                        && in_midi_range(n) && mouse != Some(n)),
                msgs@.no_duplicates(),
                forall|t: int| 0 <= t < msgs@.len() ==> (#[trigger] msgs@[t] is NoteOn),
                forall|msg: MidiMsg| #[trigger]
                    msgs@.contains(msg) <==> exists|n: i32|
                        msg == on_msg(n) && d@.subrange(0, i as int).contains(n)
                            && sync_turns_on(k, semitones@, n),
            decreases d@.len() - i,
        {
            let n = d[i];
            let ghost pre = d@.subrange(0, i as int);
            let ghost pre1 = d@.subrange(0, i + 1);
            assert(d@[i as int] == n);
            assert(d@.contains(n));
            assert(desired.contains(n));
            assert(pre1[i as int] == n);
            assert(pre1.contains(n));
            assert forall|x: i32| pre1.contains(x) <==> (pre.contains(x) || x == n) by {
                if pre1.contains(x) {
                    let t = choose|t: int| 0 <= t < pre1.len() && pre1[t] == x;
                    if t < i {
                        assert(pre[t] == x);
                    }
                }
                if pre.contains(x) {
                    let t = choose|t: int| 0 <= t < pre.len() && pre[t] == x;
                    assert(pre1[t] == x);
                }
            }
            let ghost na0 = new_active@;
            let ghost m0 = msgs@;
            assert(pre1 =~= pre.push(n));
            assert(!pre.contains(n)) by {
                if pre.contains(n) {
                    let t = choose|t: int| 0 <= t < i && pre[t] == n;
                    assert(d@[t] == d@[i as int]);
                }
            }
            let wanted = match mouse {
                Some(m) => m != n,
                None => true,
            };
            assert(wanted == (mouse != Some(n)));
            if 0 <= n && n <= 127 && wanted {
                new_active.push(n);
                let was_on = vec_contains(&self.active, n);
                assert(was_on == k.active.contains(n));
                if !was_on {
                    let msg = MidiMsg::NoteOn { note: n as u8, velocity: KEY_VELOCITY };
                    assert(msg == on_msg(n));
                    assert(sync_turns_on(k, semitones@, n));
                    msgs.push(msg);
                    assert(!m0.contains(msg)) by {
                        if m0.contains(msg) {
                            let n2 = choose|n2: i32|
                                msg == on_msg(n2) && pre.contains(n2)
                                    && sync_turns_on(k, semitones@, n2);
                            assert(n2 == n);
                        }
                    }
                    assert forall|msg2: MidiMsg| #[trigger]
                        msgs@.contains(msg2) <==> exists|n2: i32|
                            msg2 == on_msg(n2) && pre1.contains(n2)
                                && sync_turns_on(k, semitones@, n2) by {
                        if msgs@.contains(msg2) {
                            let t = choose|t: int| 0 <= t < msgs@.len() && msgs@[t] == msg2;
                            if t < m0.len() {
                                assert(m0.contains(msg2));
                                let n2 = choose|n2: i32|
                                    msg2 == on_msg(n2) && pre.contains(n2)
                                        && sync_turns_on(k, semitones@, n2);
                                assert(pre1.contains(n2));
                            } else {
                                assert(pre1.contains(n));
                            }
                        }
                        if exists|n2: i32|
                            msg2 == on_msg(n2) && pre1.contains(n2)
                                && sync_turns_on(k, semitones@, n2) {
                            let n2 = choose|n2: i32|
                                msg2 == on_msg(n2) && pre1.contains(n2)
                                    && sync_turns_on(k, semitones@, n2);
                            if n2 == n {
                                assert(msgs@[msgs@.len() - 1] == msg2);
                            } else {
                                assert(pre.contains(n2));
                                assert(m0.contains(msg2));
                                let t = choose|t: int| 0 <= t < m0.len() && m0[t] == msg2;
                                assert(msgs@[t] == msg2);
                            }
                        }
                    }
                } else {
                    assert forall|msg2: MidiMsg| #[trigger]
                        msgs@.contains(msg2) <==> exists|n2: i32|
                            msg2 == on_msg(n2) && pre1.contains(n2)
                                && sync_turns_on(k, semitones@, n2) by {
                        if msgs@.contains(msg2) {
                            let n2 = choose|n2: i32|
                                msg2 == on_msg(n2) && pre.contains(n2)
                                    && sync_turns_on(k, semitones@, n2);
                            assert(pre1.contains(n2));
                        }
                        if exists|n2: i32|
                            msg2 == on_msg(n2) && pre1.contains(n2)
                                && sync_turns_on(k, semitones@, n2) {
                            let n2 = choose|n2: i32|
                                msg2 == on_msg(n2) && pre1.contains(n2)
                                    && sync_turns_on(k, semitones@, n2);
                            assert(n2 != n);
                            assert(pre.contains(n2));
                        }
                    }
                }
                assert forall|x: i32|
                    new_active@.contains(x) <==> (pre1.contains(x)
                        && in_midi_range(x) && mouse != Some(x)) by {
                    if new_active@.contains(x) {
                        let t = choose|t: int| 0 <= t < new_active@.len() && new_active@[t] == x;
                        if t < na0.len() {
                            assert(na0.contains(x));
                        }
                    }
                    if pre1.contains(x) && in_midi_range(x) && mouse != Some(x) {
                        if x == n {
                            assert(new_active@[new_active@.len() - 1] == x);
                        } else {
                            let t = choose|t: int| 0 <= t < i + 1 && pre1[t] == x;
                            assert(pre[t] == x);
                            assert(na0.contains(x));
                            let t2 = choose|t2: int| 0 <= t2 < na0.len() && na0[t2] == x;
                            assert(new_active@[t2] == x);
                        }
                    }
                }
            } else {
                assert forall|x: i32|
                    new_active@.contains(x) <==> (pre1.contains(x)
                        && in_midi_range(x) && mouse != Some(x)) by {
                    if pre1.contains(x) && in_midi_range(x) && mouse != Some(x) {
                        let t = choose|t: int| 0 <= t < i + 1 && pre1[t] == x;
                        assert(x != n);
                        assert(pre[t] == x);
                    }
                }
                assert forall|msg2: MidiMsg| #[trigger]
                    msgs@.contains(msg2) <==> exists|n2: i32|
                        msg2 == on_msg(n2) && pre1.contains(n2)
                            && sync_turns_on(k, semitones@, n2) by {
                    if msgs@.contains(msg2) {
                        let n2 = choose|n2: i32|
                            msg2 == on_msg(n2) && pre.contains(n2)
                                && sync_turns_on(k, semitones@, n2);
                        assert(pre1.contains(n2));
                    }
                    if exists|n2: i32|
                        msg2 == on_msg(n2) && pre1.contains(n2)
                            && sync_turns_on(k, semitones@, n2) {
                        let n2 = choose|n2: i32|
                            msg2 == on_msg(n2) && pre1.contains(n2)
                                && sync_turns_on(k, semitones@, n2);
                        assert(n2 != n);
                        assert(pre.contains(n2));
                    }
                }
            }
            i = i + 1;
        }
        assert(d@.subrange(0, d@.len() as int) =~= d@);
        let ghost ons = msgs@;

        // Notes sounding that are no longer asked for, and their note-offs.
        let mut a: usize = 0;
        while a < self.active.len()
            invariant
                a <= self.active@.len(),
                mouse == k.mouse_note,
                forall|n: i32| d@.contains(n) <==> desired.contains(n),
                desired == desired_notes(k.octave, semitones@),
                k == (Keys { octave: self.octave, active: self.active@.to_set(), mouse_note: self.mouse_note }),
                self.active@.no_duplicates(),
                forall|t: int| 0 <= t < self.active@.len() ==> in_midi_range(#[trigger] self.active@[t]),
                msgs@.no_duplicates(),
                forall|t: int| 0 <= t < ons.len() ==> (#[trigger] ons[t] is NoteOn),
                msgs@.len() >= ons.len(),
                msgs@.subrange(0, ons.len() as int) == ons,
                forall|t: int| ons.len() <= t < msgs@.len() ==> (#[trigger] msgs@[t] is NoteOff),
                forall|msg: MidiMsg| #[trigger]
                    msgs@.contains(msg) <==> (ons.contains(msg) || exists|n: i32|
                        msg == off_msg(n) && self.active@.subrange(0, a as int).contains(n)
                            && sync_turns_off(k, semitones@, n)),
            decreases self.active@.len() - a,
        {
            let n = self.active[a];
            let ghost apre = self.active@.subrange(0, a as int);
            let ghost apre1 = self.active@.subrange(0, a + 1);
            assert(self.active@[a as int] == n);
            assert(self.active@.contains(n));
            assert(k.active.contains(n));
            assert(apre1[a as int] == n);
            assert(apre1.contains(n));
            assert forall|x: i32| apre1.contains(x) <==> (apre.contains(x) || x == n) by {
                if apre1.contains(x) {
                    let t = choose|t: int| 0 <= t < apre1.len() && apre1[t] == x;
                    if t < a {
                        assert(apre[t] == x);
                    }
                }
                if apre.contains(x) {
                    let t = choose|t: int| 0 <= t < apre.len() && apre[t] == x;
                    assert(apre1[t] == x);
                }
            }
            let ghost m0 = msgs@;
            assert(apre1 =~= apre.push(n));
            let spared = match mouse {
                Some(m) => m == n,
                None => false,
            };
            assert(spared == (mouse == Some(n)));
            let wanted = vec_contains(&d, n);
            assert(wanted == desired.contains(n));
            if !spared && !wanted {
                let msg = MidiMsg::NoteOff { note: n as u8 };
                assert(msg == off_msg(n));
                assert(self.active@.contains(n));
                assert(sync_turns_off(k, semitones@, n));
                assert(!m0.contains(msg)) by {
                    if m0.contains(msg) {
                        if ons.contains(msg) {
                            let t = choose|t: int| 0 <= t < ons.len() && ons[t] == msg;
                            assert(ons[t] is NoteOn);
                        } else {
                            let n2 = choose|n2: i32|
                                msg == off_msg(n2) && apre.contains(n2)
                                    && sync_turns_off(k, semitones@, n2);
                            let t = choose|t: int|
                                0 <= t < a && apre[t] == n2;
                            assert(self.active@[t] == n2);
                            assert(n2 == n);
                        }
                    }
                }
                msgs.push(msg);
                assert(msgs@.subrange(0, ons.len() as int) =~= m0.subrange(0, ons.len() as int));
                assert forall|msg2: MidiMsg| #[trigger]
                    msgs@.contains(msg2) <==> (ons.contains(msg2) || exists|n2: i32|
                        msg2 == off_msg(n2) && apre1.contains(n2)
                            && sync_turns_off(k, semitones@, n2)) by {
                    if msgs@.contains(msg2) {
                        let t = choose|t: int| 0 <= t < msgs@.len() && msgs@[t] == msg2;
                        if t < m0.len() {
                            assert(m0.contains(msg2));
                            if !ons.contains(msg2) {
                                let n2 = choose|n2: i32|
                                    msg2 == off_msg(n2) && apre.contains(n2)
                                        && sync_turns_off(k, semitones@, n2);
                                assert(apre1.contains(n2));
                            }
                        } else {
                            assert(apre1.contains(n));
                        }
                    }
                    if ons.contains(msg2) {
                        assert(m0.contains(msg2));
                        let t = choose|t: int| 0 <= t < m0.len() && m0[t] == msg2;
                        assert(msgs@[t] == msg2);
                    } else if exists|n2: i32|
                        msg2 == off_msg(n2) && apre1.contains(n2)
                            && sync_turns_off(k, semitones@, n2) {
                        let n2 = choose|n2: i32|
                            msg2 == off_msg(n2) && apre1.contains(n2)
                                && sync_turns_off(k, semitones@, n2);
                        if n2 == n {
                            assert(msgs@[msgs@.len() - 1] == msg2);
                        } else {
                            let t = choose|t: int|
                                0 <= t < a + 1 && apre1[t] == n2;
                            assert(apre[t] == n2);
                            assert(m0.contains(msg2));
                            let t2 = choose|t2: int| 0 <= t2 < m0.len() && m0[t2] == msg2;
                            assert(msgs@[t2] == msg2);
                        }
                    }
                }
            } else {
                assert forall|msg2: MidiMsg| #[trigger]
                    msgs@.contains(msg2) <==> (ons.contains(msg2) || exists|n2: i32|
                        msg2 == off_msg(n2) && apre1.contains(n2)
                            && sync_turns_off(k, semitones@, n2)) by {
                    if msgs@.contains(msg2) && !ons.contains(msg2) {
                        let n2 = choose|n2: i32|
                            msg2 == off_msg(n2) && apre.contains(n2)
                                && sync_turns_off(k, semitones@, n2);
                        assert(apre1.contains(n2));
                    }
                    if !ons.contains(msg2) && exists|n2: i32|
                        msg2 == off_msg(n2) && apre1.contains(n2)
                            && sync_turns_off(k, semitones@, n2) {
                        let n2 = choose|n2: i32|
                            msg2 == off_msg(n2) && apre1.contains(n2)
                                && sync_turns_off(k, semitones@, n2);
                        assert(n2 != n);
                        let t = choose|t: int|
                            0 <= t < a + 1 && apre1[t] == n2;
                        assert(apre[t] == n2);
                    }
                }
            }
            a = a + 1;
        }
        assert(self.active@.subrange(0, self.active@.len() as int) =~= self.active@);

        // The mouse note keeps sounding if it was.
        let ghost na0 = new_active@;
        assert(forall|x: i32| na0.contains(x) <==> (d@.contains(x) && in_midi_range(x) && mouse != Some(x)));
        if let Some(m) = mouse {
            if vec_contains(&self.active, m) {
                new_active.push(m);
                assert(!na0.contains(m));
                assert forall|x: i32| new_active@.contains(x) <==> (na0.contains(x) || x == m) by {
                    if new_active@.contains(x) {
                        let t = choose|t: int| 0 <= t < new_active@.len() && new_active@[t] == x;
                        if t < na0.len() {
                            assert(na0[t] == x);
                        }
                    }
                    if na0.contains(x) {
                        let t = choose|t: int| 0 <= t < na0.len() && na0[t] == x;
                        assert(new_active@[t] == x);
                    }
                    if x == m {
                        assert(new_active@[new_active@.len() - 1] == x);
                    }
                }
            }
        }
        assert(forall|x: i32|
            new_active@.contains(x) <==> (na0.contains(x) || (mouse == Some(x)
                && k.active.contains(x))));
        assert(new_active@.to_set() =~= spec_sync(k, semitones@).active);
        assert forall|x: int, y: int|
            0 <= x < y < msgs@.len() && (msgs@[x] is NoteOff) implies (msgs@[y] is NoteOff) by {
            if x < ons.len() {
                assert(msgs@.subrange(0, ons.len() as int)[x] == ons[x]);
            }
        }
        assert forall|msg: MidiMsg| #[trigger]
            msgs@.contains(msg) <==> spec_sync_msg(k, semitones@, msg) by {
            if msgs@.contains(msg) {
                if ons.contains(msg) {
                    let n = choose|n: i32| msg == on_msg(n) && d@.contains(n) && sync_turns_on(k, semitones@, n);
                    assert((n as u8) as i32 == n);
                } else {
                    let n = choose|n: i32|
                        msg == off_msg(n) && self.active@.contains(n) && sync_turns_off(k, semitones@, n);
                    assert((n as u8) as i32 == n);
                }
            }
            if spec_sync_msg(k, semitones@, msg) {
                match msg {
                    MidiMsg::NoteOn { note, velocity } => {
                        let n = note as i32;
                        assert(msg == on_msg(n));
                        assert(d@.contains(n));
                        assert(ons.contains(msg));
                    },
                    MidiMsg::NoteOff { note } => {
                        let n = note as i32;
                        assert(msg == off_msg(n));
                    },
                    MidiMsg::AllNotesOff => {},
                }
            }
        }
        *self = KeyboardState { octave: self.octave, active: new_active, mouse_note: mouse };
        proof {
            use_type_invariant(&*self);
        }
        msgs
    }
}

} // verus!
