//! Note events travelling from the UI / MIDI producers to the audio thread.
//!
//! Events go through a small bounded FIFO queue that the audio callback drains
//! at the top of each block. When the queue is full, new events are dropped so
//! a stalled audio thread can never make the producers grow memory without
//! bound.

use std::collections::VecDeque;
use vstd::prelude::*;

verus! {

/// A MIDI-ish control message handed to the engine.
#[derive(Debug, Clone, Copy, PartialEq, Eq, Structural)]
pub enum MidiMsg {
    NoteOn { note: u8, velocity: u8 },
    NoteOff { note: u8 },
    AllNotesOff,
}

/// Most events the queue holds at once.
pub const EVENT_CAPACITY: usize = 1024;

/// The queue after `msg` is offered to a queue holding `q`: appended at the
/// back when there is room, dropped when the queue is full.
pub open spec fn spec_push(q: Seq<MidiMsg>, msg: MidiMsg) -> Seq<MidiMsg> {
    if q.len() < EVENT_CAPACITY {
        q.push(msg)
    } else {
        q
    }
}

/// The queue after each of `msgs` is offered in turn.
pub open spec fn spec_push_all(q: Seq<MidiMsg>, msgs: Seq<MidiMsg>) -> Seq<MidiMsg>
    decreases msgs.len(),
{
    if msgs.len() == 0 {
        q
    } else {
        spec_push(spec_push_all(q, msgs.drop_last()), msgs.last())
    }
}

/// Events offered while the queue has room come out in the order they went in:
/// offering `msgs` to a queue holding `q` leaves `q` followed by `msgs`.
pub proof fn lemma_fifo(q: Seq<MidiMsg>, msgs: Seq<MidiMsg>)
    requires
        q.len() + msgs.len() <= EVENT_CAPACITY,
    ensures
        spec_push_all(q, msgs) == q + msgs,
    decreases msgs.len(),
{
    if msgs.len() > 0 {
        lemma_fifo(q, msgs.drop_last());
        assert(q + msgs.drop_last() + seq![msgs.last()] =~= q + msgs);
    }
}

/// A queue within its capacity stays within it whatever is offered, and a full
/// queue is left unchanged.
pub proof fn lemma_push_bounded(q: Seq<MidiMsg>, msgs: Seq<MidiMsg>)
    requires
        q.len() <= EVENT_CAPACITY,
    ensures
        spec_push_all(q, msgs).len() <= EVENT_CAPACITY,
        q.len() == EVENT_CAPACITY ==> spec_push_all(q, msgs) == q,
    decreases msgs.len(),
{
    if msgs.len() > 0 {
        lemma_push_bounded(q, msgs.drop_last());
    }
}

/// A bounded FIFO of note events.
pub struct EventQueue {
    queue: VecDeque<MidiMsg>,
}

impl View for EventQueue {
    type V = Seq<MidiMsg>;

    closed spec fn view(&self) -> Seq<MidiMsg> {
        self.queue@
    }
}

impl EventQueue {
    /// The queue never holds more than `EVENT_CAPACITY` events.
    #[verifier::type_invariant]
    closed spec fn bounded(self) -> bool {
        self.queue@.len() <= EVENT_CAPACITY
    }

    /// An empty queue.
    pub fn new() -> (q: Self)
        ensures
            q@ == Seq::<MidiMsg>::empty(),
    {
        EventQueue { queue: VecDeque::with_capacity(128) }
    }

    /// Number of queued events.
    pub fn len(&self) -> (n: usize)
        ensures
            n == self@.len(),
            n <= EVENT_CAPACITY,
    {
        proof {
            use_type_invariant(self);
        }
        self.queue.len()
    }

    /// Queue a note event; it is dropped when the queue is already full.
    pub fn push_event(&mut self, msg: MidiMsg)
        ensures
            final(self)@ == spec_push(old(self)@, msg),
            final(self)@.len() <= EVENT_CAPACITY,
    {
        proof {
            use_type_invariant(&*self);
        }
        if self.queue.len() < EVENT_CAPACITY {
            let mut q = VecDeque::new();
            std::mem::swap(&mut q, &mut self.queue);
            q.push_back(msg);
            self.queue = q;
        }
    }

    /// Move every queued event, oldest first, to the end of `out`, leaving the
    /// queue empty.
    pub fn drain_events(&mut self, out: &mut Vec<MidiMsg>)
        ensures
            final(out)@ == old(out)@ + old(self)@,
            final(self)@ == Seq::<MidiMsg>::empty(),
    {
        proof {
            use_type_invariant(&*self);
        }
        let ghost start_out = out@;
        let ghost start_q = self.queue@;
        let mut queue = VecDeque::new();
        std::mem::swap(&mut queue, &mut self.queue);
        loop
            invariant
                start_out + start_q == out@ + queue@,
                queue@.len() <= EVENT_CAPACITY,
            ensures
                out@ == start_out + start_q,
                queue@.len() == 0,
            decreases queue@.len(),
        {
            let ghost q0 = queue@;
            let ghost out0 = out@;
            match queue.pop_front() {
                Some(msg) => {
                    out.push(msg);
                    assert(out@ + queue@ =~= out0 + q0);
                },
                None => {
                    break ;
                },
            }
        }
        assert(queue@ =~= Seq::<MidiMsg>::empty());
        self.queue = queue;
    }
}

} // verus!
