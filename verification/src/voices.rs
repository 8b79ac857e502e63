//! The bank of held keys behind the organ's voices.
//!
//! Every key that sounds has one entry, found by its note number: pressing a
//! key that is still ringing re-gates its entry instead of adding a second one.
//! The bank also counts the keys down, which decides when the
//! single-triggered percussion may fire again (only from silence, when no key
//! is down), and which note it was last triggered by.
//!
//! The per-voice amplitude envelopes live beside the bank, index for index; a
//! released key whose envelope has died away is retired from both.

use vstd::prelude::*;

use crate::params::MidiMsg;

verus! {

/// One key tracked by the voice bank.
#[derive(Debug, Clone, Copy, PartialEq, Eq, Structural)]
pub struct Key {
    /// MIDI note number.
    pub note: u8,
    /// `true` while the key is down.
    pub gate: bool,
    /// MIDI velocity of the last press.
    pub velocity: u8,
}

/// What the bank holds: its keys in voice order, the number of keys down, and
/// the note that last triggered the percussion.
pub struct Voices {
    pub keys: Seq<Key>,
    pub held: nat,
    pub perc_note: u8,
}

/// No two keys share a note.
pub open spec fn distinct_notes(keys: Seq<Key>) -> bool {
    forall|i: int, j: int|
        0 <= i < keys.len() && 0 <= j < keys.len() && i != j ==> #[trigger] keys[i].note
            != #[trigger] keys[j].note
}

/// How many keys are down.
pub open spec fn gated_count(keys: Seq<Key>) -> nat
    decreases keys.len(),
{
    if keys.len() == 0 {
        0
    } else {
        gated_count(keys.drop_last()) + if keys.last().gate {
            1nat
        } else {
            0nat
        }
    }
}

/// The bank's invariant: one key per note, and the count of keys down is
/// exact.
pub open spec fn voices_wf(v: Voices) -> bool {
    &&& distinct_notes(v.keys)
    &&& gated_count(v.keys) == v.held
}

/// No key of the bank is down.
pub open spec fn silent(keys: Seq<Key>) -> bool {
    forall|j: int| 0 <= j < keys.len() ==> !(#[trigger] keys[j]).gate
}

/// Index of the key for `note`, or -1 when the bank has none.
pub open spec fn key_index(keys: Seq<Key>, note: u8) -> int {
    if exists|i: int| 0 <= i < keys.len() && #[trigger] keys[i].note == note {
        choose|i: int| 0 <= i < keys.len() && #[trigger] keys[i].note == note
    } else {
        -1
    }
}

/// The bank after `note` is pressed with `velocity`.
pub open spec fn spec_note_on(v: Voices, note: u8, velocity: u8) -> Voices {
    let key = Key { note, gate: true, velocity };
    let i = key_index(v.keys, note);
    Voices {
        keys: if i >= 0 {
            v.keys.update(i, key)
        } else {
            v.keys.push(key)
        },
        held: if i >= 0 && v.keys[i].gate {
            v.held
        } else {
            v.held + 1
        },
        perc_note: if v.held == 0 {
            note
        } else {
            v.perc_note
        },
    }
}

/// The bank after `note` is released.
pub open spec fn spec_note_off(v: Voices, note: u8) -> Voices {
    let i = key_index(v.keys, note);
    if i >= 0 && v.keys[i].gate {
        Voices {
            keys: v.keys.update(i, Key { note, gate: false, velocity: v.keys[i].velocity }),
            held: if v.held > 0 {
                (v.held - 1) as nat
            } else {
                0
            },
            perc_note: v.perc_note,
        }
    } else {
        v
    }
}

/// `k` with its key released.
pub open spec fn released(k: Key) -> Key {
    Key { note: k.note, gate: false, velocity: k.velocity }
}

/// The bank after every key is released.
pub open spec fn spec_all_notes_off(v: Voices) -> Voices {
    Voices { keys: v.keys.map_values(|k: Key| released(k)), held: 0, perc_note: v.perc_note }
}

/// The bank after the key at index `i` is retired: the last key takes its
/// place.
pub open spec fn spec_retire(v: Voices, i: int) -> Voices {
    Voices {
        keys: v.keys.update(i, v.keys.last()).drop_last(),
        held: v.held,
        perc_note: v.perc_note,
    }
}

/// The bank after a note event.
pub open spec fn spec_apply(v: Voices, msg: MidiMsg) -> Voices {
    match msg {
        MidiMsg::NoteOn { note, velocity } => spec_note_on(v, note, velocity),
        MidiMsg::NoteOff { note } => spec_note_off(v, note),
        MidiMsg::AllNotesOff => spec_all_notes_off(v),
    }
}

/// With one key per note, the key found for a note is the one holding it.
pub proof fn lemma_key_index(keys: Seq<Key>, note: u8, i: int)
    requires
        distinct_notes(keys),
        0 <= i < keys.len(),
        keys[i].note == note,
    ensures
        key_index(keys, note) == i,
{
}

proof fn lemma_key_index_absent(keys: Seq<Key>, note: u8)
    requires
        forall|j: int| 0 <= j < keys.len() ==> #[trigger] keys[j].note != note,
    ensures
        key_index(keys, note) == -1,
{
}

proof fn lemma_key_index_found(keys: Seq<Key>, note: u8)
    requires
        key_index(keys, note) >= 0,
    ensures
        0 <= key_index(keys, note) < keys.len(),
        keys[key_index(keys, note)].note == note,
{
}

proof fn lemma_count_push(keys: Seq<Key>, k: Key)
    ensures
        gated_count(keys.push(k)) == gated_count(keys) + if k.gate {
            1nat
        } else {
            0nat
        },
{
    assert(keys.push(k).drop_last() =~= keys);
}

proof fn lemma_count_update(keys: Seq<Key>, i: int, k: Key)
    requires
        0 <= i < keys.len(),
    ensures
        gated_count(keys.update(i, k)) + (if keys[i].gate {
            1nat
        } else {
            0nat
        }) == gated_count(keys) + if k.gate {
            1nat
        } else {
            0nat
        },
    decreases keys.len(),
{
    if i == keys.len() - 1 {
        assert(keys.update(i, k).drop_last() =~= keys.drop_last());
    } else {
        lemma_count_update(keys.drop_last(), i, k);
        assert(keys.update(i, k).drop_last() =~= keys.drop_last().update(i, k));
    }
}

proof fn lemma_count_all_released(keys: Seq<Key>)
    ensures
        gated_count(keys.map_values(|k: Key| released(k))) == 0,
    decreases keys.len(),
{
    if keys.len() > 0 {
        lemma_count_all_released(keys.drop_last());
        assert(keys.map_values(|k: Key| released(k)).drop_last() =~= keys.drop_last().map_values(
            |k: Key| released(k),
        ));
    }
}

proof fn lemma_count_retire(keys: Seq<Key>, i: int)
    requires
        0 <= i < keys.len(),
        !keys[i].gate,
    ensures
        gated_count(keys.update(i, keys.last()).drop_last()) == gated_count(keys),
{
    if i == keys.len() - 1 {
        assert(keys.update(i, keys.last()).drop_last() =~= keys.drop_last());
    } else {
        lemma_count_update(keys.drop_last(), i, keys.last());
        assert(keys.update(i, keys.last()).drop_last() =~= keys.drop_last().update(
            i,
            keys.last(),
        ));
    }
}

proof fn lemma_count_bounds(keys: Seq<Key>)
    ensures
        gated_count(keys) <= keys.len(),
        gated_count(keys) == 0 <==> silent(keys),
    decreases keys.len(),
{
    if keys.len() > 0 {
        lemma_count_bounds(keys.drop_last());
        if silent(keys) {
            assert(silent(keys.drop_last())) by {
                assert forall|j: int| 0 <= j < keys.drop_last().len() implies !(
                #[trigger] keys.drop_last()[j]).gate by {
                    assert(keys.drop_last()[j] == keys[j]);
                }
            }
        }
        if gated_count(keys) == 0 {
            assert forall|j: int| 0 <= j < keys.len() implies !(#[trigger] keys[j]).gate by {
                if j < keys.len() - 1 {
                    assert(keys.drop_last()[j] == keys[j]);
                }
            }
        }
    }
}

/// One key per note means at most one key per MIDI note number.
proof fn lemma_bank_size(keys: Seq<Key>)
    requires
        distinct_notes(keys),
    ensures
        keys.len() <= 256,
{
    let notes = keys.map_values(|k: Key| k.note as int);
    assert(notes.no_duplicates()) by {
        assert forall|a: int, b: int|
            0 <= a < notes.len() && 0 <= b < notes.len() && a != b implies notes[a]
            != notes[b] by {
            assert(keys[a].note != keys[b].note);
        }
    }
    notes.unique_seq_to_set();
    vstd::set_lib::lemma_int_range(0, 256);
    assert(notes.to_set().subset_of(vstd::set_lib::set_int_range(0, 256))) by {
        assert forall|x: int| notes.to_set().contains(x) implies vstd::set_lib::set_int_range(
            0,
            256,
        ).contains(x) by {
            let t = choose|t: int| 0 <= t < notes.len() && notes[t] == x;
            assert(notes[t] == keys[t].note as int);
        }
    }
    vstd::set_lib::lemma_len_subset(notes.to_set(), vstd::set_lib::set_int_range(0, 256));
}

/// A bank holds no press when, and only when, no key is down; and it holds at
/// most one key per MIDI note, so never more than 256 keys.
pub proof fn lemma_held_counts_keys_down(v: Voices)
    requires
        voices_wf(v),
    ensures
        v.held == 0 <==> silent(v.keys),
        v.held <= v.keys.len() <= 256,
{
    lemma_count_bounds(v.keys);
    lemma_bank_size(v.keys);
}

/// Pressing a key keeps the bank's invariant, leaves exactly one key for that
/// note and gates it.
pub proof fn lemma_note_on_wf(v: Voices, note: u8, velocity: u8)
    requires
        voices_wf(v),
    ensures
        voices_wf(spec_note_on(v, note, velocity)),
        key_index(spec_note_on(v, note, velocity).keys, note) >= 0,
        spec_note_on(v, note, velocity).keys[key_index(
            spec_note_on(v, note, velocity).keys,
            note,
        )] == (Key { note, gate: true, velocity }),
{
    let key = Key { note, gate: true, velocity };
    let i = key_index(v.keys, note);
    let w = spec_note_on(v, note, velocity);
    if i >= 0 {
        lemma_key_index_found(v.keys, note);
        lemma_count_update(v.keys, i, key);
        assert(distinct_notes(w.keys));
        lemma_key_index(w.keys, note, i);
    } else {
        lemma_count_push(v.keys, key);
        assert forall|a: int| 0 <= a < v.keys.len() implies #[trigger] v.keys[a].note != note by {
            if v.keys[a].note == note {
                assert(exists|j: int| 0 <= j < v.keys.len() && #[trigger] v.keys[j].note == note);
            }
        }
        assert(distinct_notes(w.keys));
        lemma_key_index(w.keys, note, v.keys.len() as int);
    }
}

/// Releasing a key keeps the bank's invariant, and afterwards no key for that
/// note is down.
pub proof fn lemma_note_off_wf(v: Voices, note: u8)
    requires
        voices_wf(v),
    ensures
        voices_wf(spec_note_off(v, note)),
        forall|j: int|
            0 <= j < spec_note_off(v, note).keys.len() && #[trigger] spec_note_off(
                v,
                note,
            ).keys[j].note == note ==> !spec_note_off(v, note).keys[j].gate,
{
    let i = key_index(v.keys, note);
    let w = spec_note_off(v, note);
    if i >= 0 {
        lemma_key_index_found(v.keys, note);
        if v.keys[i].gate {
            lemma_count_update(v.keys, i, released(v.keys[i]));
            assert(distinct_notes(w.keys));
        }
        assert forall|j: int| 0 <= j < w.keys.len() && #[trigger] w.keys[j].note == note implies !w.keys[j].gate by {
            if j != i {
                assert(v.keys[j].note != v.keys[i].note);
            }
        }
    } else {
        assert forall|j: int| 0 <= j < w.keys.len() && #[trigger] w.keys[j].note == note implies !w.keys[j].gate by {
            assert(exists|a: int| 0 <= a < v.keys.len() && #[trigger] v.keys[a].note == note);
        }
    }
}

/// Releasing every key keeps the bank's invariant; afterwards no key is down
/// and the count of keys down is zero.
pub proof fn lemma_all_notes_off_wf(v: Voices)
    requires
        voices_wf(v),
    ensures
        voices_wf(spec_all_notes_off(v)),
        spec_all_notes_off(v).held == 0,
        forall|j: int|
            0 <= j < spec_all_notes_off(v).keys.len() ==> !(#[trigger] spec_all_notes_off(
                v,
            ).keys[j]).gate,
{
    lemma_count_all_released(v.keys);
    let w = spec_all_notes_off(v);
    assert forall|a: int, b: int|
        0 <= a < w.keys.len() && 0 <= b < w.keys.len() && a != b implies #[trigger] w.keys[a].note
        != #[trigger] w.keys[b].note by {
        assert(v.keys[a].note != v.keys[b].note);
    }
}

/// Retiring a released key keeps the bank's invariant.
pub proof fn lemma_retire_wf(v: Voices, i: int)
    requires
        voices_wf(v),
        0 <= i < v.keys.len(),
        !v.keys[i].gate,
    ensures
        voices_wf(spec_retire(v, i)),
{
    lemma_count_retire(v.keys, i);
    let w = spec_retire(v, i);
    let n = v.keys.len() - 1;
    assert forall|a: int, b: int|
        0 <= a < w.keys.len() && 0 <= b < w.keys.len() && a != b implies #[trigger] w.keys[a].note
        != #[trigger] w.keys[b].note by {
        let a0 = if a == i {
            n
        } else {
            a
        };
        let b0 = if b == i {
            n
        } else {
            b
        };
        assert(w.keys[a] == v.keys[a0]);
        assert(w.keys[b] == v.keys[b0]);
        assert(v.keys[a0].note != v.keys[b0].note);
    }
}

/// Retiring voice `i` removes exactly that voice: one voice fewer, every other
/// voice of the bank still there, nothing new, and no voice left for the
/// retired key's note; the count of keys down is unchanged.
pub proof fn lemma_retire_removes_one(v: Voices, i: int)
    requires
        voices_wf(v),
        0 <= i < v.keys.len(),
        !v.keys[i].gate,
    ensures
        spec_retire(v, i).keys.len() == v.keys.len() - 1,
        forall|j: int| 0 <= j < v.keys.len() && j != i ==> spec_retire(v, i).keys.contains(
            #[trigger] v.keys[j],
        ),
        forall|k: Key| spec_retire(v, i).keys.contains(k) ==> v.keys.contains(k),
        forall|j: int|
            0 <= j < spec_retire(v, i).keys.len() ==> (#[trigger] spec_retire(v, i).keys[j]).note
                != v.keys[i].note,
        spec_retire(v, i).held == v.held,
        spec_retire(v, i).perc_note == v.perc_note,
{
    let w = spec_retire(v, i);
    let n = v.keys.len() - 1;
    assert forall|j: int| 0 <= j < v.keys.len() && j != i implies w.keys.contains(
        #[trigger] v.keys[j],
    ) by {
        if j == n {
            assert(w.keys[i] == v.keys[j]);
        } else {
            assert(w.keys[j] == v.keys[j]);
        }
    }
    assert forall|k: Key| w.keys.contains(k) implies v.keys.contains(k) by {
        let t = choose|t: int| 0 <= t < w.keys.len() && w.keys[t] == k;
        if t == i {
            assert(v.keys[n] == k);
        } else {
            assert(v.keys[t] == k);
        }
    }
    assert forall|j: int| 0 <= j < w.keys.len() implies (#[trigger] w.keys[j]).note
        != v.keys[i].note by {
        if j == i {
            assert(w.keys[j] == v.keys[n]);
        } else {
            assert(w.keys[j] == v.keys[j]);
        }
    }
}

/// Percussion is single-triggered: a press re-fires it (on the pressed note)
/// exactly when no key is down, whatever was pressed and released before.
pub proof fn lemma_percussion_from_silence(v: Voices, note: u8, velocity: u8)
    requires
        voices_wf(v),
    ensures
        v.held == 0 <==> silent(v.keys),
        silent(v.keys) ==> spec_note_on(v, note, velocity).perc_note == note,
        !silent(v.keys) ==> spec_note_on(v, note, velocity).perc_note == v.perc_note,
{
    lemma_held_counts_keys_down(v);
}

/// Releasing a key just pressed gives back the count of keys down from before
/// the press when the key was up, or one fewer when it was already down (a
/// repeated press counts once); either way the key ends up released with the
/// new velocity.
pub proof fn lemma_press_release(v: Voices, note: u8, velocity: u8)
    requires
        voices_wf(v),
    ensures
        spec_note_off(spec_note_on(v, note, velocity), note).held == if key_index(v.keys, note)
            >= 0 && v.keys[key_index(v.keys, note)].gate {
            v.held - 1
        } else {
            v.held as int
        },
        spec_note_off(spec_note_on(v, note, velocity), note).perc_note == spec_note_on(
            v,
            note,
            velocity,
        ).perc_note,
        spec_note_off(spec_note_on(v, note, velocity), note).keys == spec_note_on(
            v,
            note,
            velocity,
        ).keys.update(
            key_index(spec_note_on(v, note, velocity).keys, note),
            Key { note, gate: false, velocity },
        ),
{
    lemma_note_on_wf(v, note, velocity);
    let i = key_index(v.keys, note);
    if i >= 0 && v.keys[i].gate {
        lemma_key_index_found(v.keys, note);
        lemma_count_update(v.keys, i, released(v.keys[i]));
        lemma_count_bounds(v.keys.update(i, released(v.keys[i])));
    }
}

/// Outcome of a key press: where its voice sits, whether the voice is new, and
/// whether the percussion re-fires.
#[derive(Debug, Clone, Copy, PartialEq, Eq, Structural)]
pub struct Press {
    /// Index of the pressed key's voice.
    pub index: usize,
    /// `true` when the press added a voice at the end of the bank.
    pub is_new: bool,
    /// `true` when no key was down, so the press re-triggers the percussion.
    pub percussion: bool,
}

/// The keys of a sounding organ, one voice per note.
pub struct VoiceBank {
    keys: Vec<Key>,
    held: usize,
    perc_note: u8,
}

impl View for VoiceBank {
    type V = Voices;

    closed spec fn view(&self) -> Voices {
        Voices { keys: self.keys@, held: self.held as nat, perc_note: self.perc_note }
    }
}

impl VoiceBank {
    #[verifier::type_invariant]
    closed spec fn inv(self) -> bool {
        voices_wf(self@)
    }

    /// A bank with no keys, whose percussion last fired on `perc_note`.
    pub fn new(perc_note: u8) -> (bank: Self)
        ensures
            bank@.keys == Seq::<Key>::empty(),
            bank@.held == 0,
            bank@.perc_note == perc_note,
            voices_wf(bank@),
    {
        VoiceBank { keys: Vec::with_capacity(32), held: 0, perc_note }
    }

    /// Number of voices.
    pub fn len(&self) -> (n: usize)
        ensures
            n == self@.keys.len(),
    {
        self.keys.len()
    }

    /// The key of voice `i`.
    pub fn key(&self, i: usize) -> (k: Key)
        requires
            i < self@.keys.len(),
        ensures
            k == self@.keys[i as int],
    {
        self.keys[i]
    }

    /// Number of keys down.
    pub fn held(&self) -> (n: usize)
        ensures
            n == self@.held,
    {
        self.held
    }

    /// The note that last triggered the percussion.
    pub fn perc_note(&self) -> (note: u8)
        ensures
            note == self@.perc_note,
    {
        self.perc_note
    }

    fn find(keys: &Vec<Key>, note: u8) -> (found: Option<usize>)
        ensures
            match found {
                Some(i) => i < keys@.len() && keys@[i as int].note == note,
                None => forall|j: int| 0 <= j < keys@.len() ==> #[trigger] keys@[j].note != note,
            },
    {
        let mut i: usize = 0;
        while i < keys.len()
            invariant
                i <= keys@.len(),
                forall|j: int| 0 <= j < i ==> #[trigger] keys@[j].note != note,
            decreases keys@.len() - i,
        {
            if keys[i].note == note {
                return Some(i);
            }
            i = i + 1;
        }
        None
    }

    /// Press `note` with `velocity`.
    pub fn note_on(&mut self, note: u8, velocity: u8) -> (press: Press)
        ensures
            final(self)@ == spec_note_on(old(self)@, note, velocity),
            voices_wf(final(self)@),
            press.index == key_index(final(self)@.keys, note),
            final(self)@.keys[press.index as int] == (Key { note, gate: true, velocity }),
            press.is_new == (key_index(old(self)@.keys, note) < 0),
            press.is_new ==> press.index == old(self)@.keys.len(),
            !press.is_new ==> final(self)@.keys.len() == old(self)@.keys.len(),
            press.percussion == (old(self)@.held == 0),
            press.percussion == silent(old(self)@.keys),
    {
        proof {
            use_type_invariant(&*self);
            lemma_note_on_wf(self@, note, velocity);
            lemma_held_counts_keys_down(self@);
        }
        let key = Key { note, gate: true, velocity };
        let mut bank = VoiceBank { keys: Vec::new(), held: 0, perc_note: self.perc_note };
        std::mem::swap(&mut bank, self);
        let VoiceBank { keys, held: old_held, perc_note: old_perc } = bank;
        let mut keys = keys;
        let ghost old_keys = keys@;
        let was_silent = old_held == 0;
        let found = Self::find(&keys, note);
        let mut was_down = false;
        let index = match found {
            Some(i) => {
                proof {
                    lemma_key_index(old_keys, note, i as int);
                }
                was_down = keys[i].gate;
                keys.set(i, key);
                i
            },
            None => {
                proof {
                    lemma_key_index_absent(old_keys, note);
                }
                keys.push(key);
                keys.len() - 1
            },
        };
        let perc_note = if was_silent {
            note
        } else {
            old_perc
        };
        let held = if was_down {
            old_held
        } else {
            old_held + 1
        };
        *self = VoiceBank { keys, held, perc_note };
        Press { index, is_new: found.is_none(), percussion: was_silent }
    }

    /// Release `note`; nothing happens when its key is not down.
    pub fn note_off(&mut self, note: u8)
        ensures
            final(self)@ == spec_note_off(old(self)@, note),
            voices_wf(final(self)@),
    {
        proof {
            use_type_invariant(&*self);
            lemma_note_off_wf(self@, note);
        }
        let mut bank = VoiceBank { keys: Vec::new(), held: 0, perc_note: self.perc_note };
        std::mem::swap(&mut bank, self);
        let VoiceBank { keys, held: old_held, perc_note: old_perc } = bank;
        let mut keys = keys;
        let ghost old_keys = keys@;
        let found = Self::find(&keys, note);
        match found {
            Some(i) => {
                proof {
                    lemma_key_index(old_keys, note, i as int);
                }
                let k = keys[i];
                if k.gate {
                    keys.set(i, Key { note, gate: false, velocity: k.velocity });
                    let held = if old_held > 0 {
                        old_held - 1
                    } else {
                        0
                    };
                    *self = VoiceBank { keys, held, perc_note: old_perc };
                } else {
                    *self = VoiceBank { keys, held: old_held, perc_note: old_perc };
                }
            },
            None => {
                proof {
                    lemma_key_index_absent(old_keys, note);
                }
                *self = VoiceBank { keys, held: old_held, perc_note: old_perc };
            },
        }
    }

    /// Release every key.
    pub fn all_notes_off(&mut self)
        ensures
            final(self)@ == spec_all_notes_off(old(self)@),
            voices_wf(final(self)@),
    {
        proof {
            use_type_invariant(&*self);
            lemma_all_notes_off_wf(self@);
        }
        let mut bank = VoiceBank { keys: Vec::new(), held: 0, perc_note: self.perc_note };
        std::mem::swap(&mut bank, self);
        let VoiceBank { keys, held: old_held, perc_note: old_perc } = bank;
        let mut keys = keys;
        let ghost old_keys = keys@;
        let n = keys.len();
        let mut i: usize = 0;
        while i < n
            invariant
                n == old_keys.len(),
                keys@.len() == n,
                i <= n,
                forall|j: int| 0 <= j < i ==> #[trigger] keys@[j] == released(old_keys[j]),
                forall|j: int| i <= j < n ==> #[trigger] keys@[j] == old_keys[j],
            decreases n - i,
        {
            let k = keys[i];
            keys.set(i, Key { note: k.note, gate: false, velocity: k.velocity });
            i = i + 1;
        }
        assert(keys@ =~= old_keys.map_values(|k: Key| released(k)));
        *self = VoiceBank { keys, held: 0, perc_note: old_perc };
    }

    /// Retire the released voice `i`; the last voice takes its place.
    pub fn retire(&mut self, i: usize)
        requires
            i < old(self)@.keys.len(),
            !old(self)@.keys[i as int].gate,
        ensures
            final(self)@ == spec_retire(old(self)@, i as int),
            voices_wf(final(self)@),
    {
        proof {
            use_type_invariant(&*self);
            lemma_retire_wf(self@, i as int);
        }
        let mut bank = VoiceBank { keys: Vec::new(), held: 0, perc_note: self.perc_note };
        std::mem::swap(&mut bank, self);
        let VoiceBank { keys, held: old_held, perc_note: old_perc } = bank;
        let mut keys = keys;
        keys.swap_remove(i);
        *self = VoiceBank { keys, held: old_held, perc_note: old_perc };
    }

    /// Apply a note event; a press reports its outcome.
    pub fn apply(&mut self, msg: MidiMsg) -> (press: Option<Press>)
        ensures
            final(self)@ == spec_apply(old(self)@, msg),
            voices_wf(final(self)@),
            press is Some <==> msg is NoteOn,
            press matches Some(p) ==> {
                &&& p.percussion == (old(self)@.held == 0)
                &&& p.percussion == silent(old(self)@.keys)
                &&& p.is_new ==> p.index == old(self)@.keys.len()
                &&& p.index < final(self)@.keys.len()
            },
    {
        match msg {
            MidiMsg::NoteOn { note, velocity } => Some(self.note_on(note, velocity)),
            MidiMsg::NoteOff { note } => {
                self.note_off(note);
                None
            },
            MidiMsg::AllNotesOff => {
                self.all_notes_off();
                None
            },
        }
    }
}

} // verus!
