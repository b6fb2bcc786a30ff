//! One-shot reply slots.
//!
//! Every request handed to an actor carries a single-use reply slot: the actor
//! writes it at most once, the caller reads it at most once, and a slot that
//! is still empty when its actor has gone away is how the caller observes an
//! abandoned request.

use vstd::prelude::*;

verus! {

/// The abstract state of a one-shot reply slot.
pub enum SlotState<T> {
    /// Nothing has been written yet.
    Empty,
    /// A value was written and has not been read.
    Written(T),
    /// The written value has been read out.
    Taken,
}

/// A single-producer, single-consumer handoff cell that can be written at
/// most once and read at most once.
pub struct ReplySlot<T> {
    state: SlotState<T>,
}

impl<T> View for ReplySlot<T> {
    type V = SlotState<T>;

    closed spec fn view(&self) -> SlotState<T> {
        self.state
    }
}

/// What a write attempt does to a slot: it fills an empty slot and reports
/// success; on a slot in any other state it changes nothing and reports
/// failure.
pub open spec fn send_transition<T>(s: SlotState<T>, v: T) -> (SlotState<T>, bool) {
    match s {
        SlotState::Empty => (SlotState::Written(v), true),
        _ => (s, false),
    }
}

/// What a read attempt does to a slot: it empties a written slot and returns
/// the value; on a slot in any other state it changes nothing and returns
/// nothing.
pub open spec fn take_transition<T>(s: SlotState<T>) -> (SlotState<T>, Option<T>) {
    match s {
        SlotState::Written(v) => (SlotState::Taken, Some(v)),
        _ => (s, None),
    }
}

/// The slot state after a sequence of write attempts, paired with how many of
/// those attempts succeeded.
pub open spec fn run_sends<T>(s: SlotState<T>, vs: Seq<T>) -> (SlotState<T>, int)
    decreases vs.len(),
{
    if vs.len() == 0 {
        (s, 0)
    } else {
        let (s1, ok) = send_transition(s, vs[0]);
        let (s2, n) = run_sends(s1, vs.drop_first());
        (s2, n + if ok { 1int } else { 0int })
    }
}

/// At-most-one reply: however many write attempts a slot sees, at most one of
/// them succeeds, and none succeeds on a slot that is no longer empty.
pub proof fn lemma_at_most_one_reply<T>(s: SlotState<T>, vs: Seq<T>)
    ensures
        run_sends(s, vs).1 <= 1,
        !(s is Empty) ==> run_sends(s, vs).1 == 0,
    decreases vs.len(),
{
    if vs.len() > 0 {
        let (s1, ok) = send_transition(s, vs[0]);
        lemma_at_most_one_reply(s1, vs.drop_first());
        if ok {
            assert(s1 is Written);
        }
    }
}

impl<T> ReplySlot<T> {
    /// A fresh, empty slot.
    pub fn new() -> (r: ReplySlot<T>)
        ensures
            r@ == SlotState::<T>::Empty,
    {
        ReplySlot { state: SlotState::Empty }
    }

    /// Whether a value has been written and not yet read.
    pub fn is_written(&self) -> (r: bool)
        ensures
            r == (self@ is Written),
    {
        matches!(self.state, SlotState::Written(_))
    }

    /// Write a value into the slot. Succeeds exactly when the slot was still
    /// empty; otherwise the slot is left as it was.
    pub fn send(&mut self, v: T) -> (ok: bool)
        ensures
            (final(self)@, ok) == send_transition(old(self)@, v),
    {
        match self.state {
            SlotState::Empty => {
                self.state = SlotState::Written(v);
                true
            },
            _ => false,
        }
    }

    /// Read the value out of the slot. Returns the written value exactly when
    /// one is present; a slot that is still empty yields nothing, which is how
    /// a caller observes an abandoned request.
    pub fn take(&mut self) -> (r: Option<T>)
        ensures
            (final(self)@, r) == take_transition(old(self)@),
    {
        if matches!(&self.state, SlotState::Written(_)) {
            let mut tmp = SlotState::Taken;
            core::mem::swap(&mut self.state, &mut tmp);
            match tmp {
                SlotState::Written(v) => Some(v),
                _ => None,
            }
        } else {
            None
        }
    }
}

} // verus!
