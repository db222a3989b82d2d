//! Key state machines: one per activation mode of a key.
//!
//! A machine watches one key. It sees every event, may answer each with an
//! action set, reaches a finished state after which it does nothing, and then
//! hands the keyboard the action sets that undo what it left behind.
pub mod double_tap;
pub mod double_tap_hold;
pub mod eager_hold;
pub mod hold;
pub mod tap;

use vstd::prelude::*;
use crate::keyboard::Event;
use crate::keys::{net_set, opt_net, KeyActionSet, KeyId};
use double_tap::DoubleTapKSM;
use double_tap_hold::DoubleTapHoldKSM;
use eager_hold::EagerHoldKSM;
use hold::HoldKSM;
use tap::TapKSM;

verus! {

/// Time passed from `start` to `now`, in microseconds; none if `now` is earlier.
pub open spec fn elapsed(start: u64, now: u64) -> u64 {
    if now >= start {
        (now - start) as u64
    } else {
        0
    }
}

pub fn elapsed_since(start: u64, now: u64) -> (r: u64)
    ensures
        r == elapsed(start, now),
{
    if now >= start {
        now - start
    } else {
        0
    }
}

/// The event is a press of `key`.
pub open spec fn is_press_of(event: Event<KeyId>, key: KeyId) -> bool {
    event == Event::KeyPress(key)
}

/// The event is a release of `key`.
pub open spec fn is_release_of(event: Event<KeyId>, key: KeyId) -> bool {
    event == Event::KeyRelease(key)
}

/// The event is a press of a key other than `key`.
pub open spec fn is_press_of_other(event: Event<KeyId>, key: KeyId) -> bool {
    event is KeyPress && event->KeyPress_0 != key
}

pub fn press_of(event: &Event<KeyId>, key: KeyId) -> (r: bool)
    ensures
        r == is_press_of(*event, key),
{
    match event {
        Event::KeyPress(k) => *k == key,
        _ => false,
    }
}

pub fn release_of(event: &Event<KeyId>, key: KeyId) -> (r: bool)
    ensures
        r == is_release_of(*event, key),
{
    match event {
        Event::KeyRelease(k) => *k == key,
        _ => false,
    }
}

pub fn press_of_other(event: &Event<KeyId>, key: KeyId) -> (r: bool)
    ensures
        r == is_press_of_other(*event, key),
{
    match event {
        Event::KeyPress(k) => *k != key,
        _ => false,
    }
}

/// A state machine for the activation of one key, the watched key.
pub trait KeyStateMachine<T>: Sized {
    /// The key the machine is responsible for.
    spec fn watched(&self) -> KeyId;

    /// Whether the machine has reached its final state.
    spec fn finished(&self) -> bool;

    /// The action sets that the keyboard applies when it drops the machine.
    spec fn cleanup(&self) -> Seq<KeyActionSet<T>>;

    /// The next state, and what is emitted, on `event` at time `now`.
    spec fn next(&self, event: Event<KeyId>, now: u64) -> (Self, Option<KeyActionSet<T>>);

    /// Steps the machine on an event; it may emit an action set.
    fn transition(&mut self, event: &Event<KeyId>, now: u64) -> (r: Option<KeyActionSet<T>>)
        ensures
            (*final(self), r) == old(self).next(*event, now),
    ;

    fn get_watched_key(&self) -> (r: &KeyId)
        ensures
            *r == self.watched(),
    ;

    fn is_finished(&self) -> (r: bool)
        ensures
            r == self.finished(),
    ;

    fn get_cleanup_actions(&self) -> (r: Vec<KeyActionSet<T>>)
        ensures
            r@ == self.cleanup(),
    ;

    /// A machine keeps its watched key, and once finished it stays as it is
    /// and emits nothing.
    proof fn lemma_next_keeps(&self, event: Event<KeyId>, now: u64)
        ensures
            self.next(event, now).0.watched() == self.watched(),
            self.finished() ==> self.next(event, now) == (*self, None::<KeyActionSet<T>>),
    ;
}

/// Whether the event is a press of the machine's watched key.
pub fn is_watched_key_pressed<KSM: KeyStateMachine<T>, T>(ksm: &KSM, event: &Event<KeyId>) -> (r:
    bool)
    ensures
        r == is_press_of(*event, ksm.watched()),
{
    press_of(event, *ksm.get_watched_key())
}

/// A live machine of any activation mode.
#[derive(Debug)]
pub enum Machine<T> {
    Tap(TapKSM<T>),
    Hold(HoldKSM<T>),
    EagerHold(EagerHoldKSM<T>),
    DoubleTap(DoubleTapKSM<T>),
    DoubleTapHold(DoubleTapHoldKSM<T>),
}

impl<T: Copy> KeyStateMachine<T> for Machine<T> {
    open spec fn watched(&self) -> KeyId {
        match self {
            Machine::Tap(m) => m.watched(),
            Machine::Hold(m) => m.watched(),
            Machine::EagerHold(m) => m.watched(),
            Machine::DoubleTap(m) => m.watched(),
            Machine::DoubleTapHold(m) => m.watched(),
        }
    }

    open spec fn finished(&self) -> bool {
        match self {
            Machine::Tap(m) => m.finished(),
            Machine::Hold(m) => m.finished(),
            Machine::EagerHold(m) => m.finished(),
            Machine::DoubleTap(m) => m.finished(),
            Machine::DoubleTapHold(m) => m.finished(),
        }
    }

    open spec fn cleanup(&self) -> Seq<KeyActionSet<T>> {
        match self {
            Machine::Tap(m) => m.cleanup(),
            Machine::Hold(m) => m.cleanup(),
            Machine::EagerHold(m) => m.cleanup(),
            Machine::DoubleTap(m) => m.cleanup(),
            Machine::DoubleTapHold(m) => m.cleanup(),
        }
    }

    open spec fn next(&self, event: Event<KeyId>, now: u64) -> (Self, Option<KeyActionSet<T>>) {
        match self {
            Machine::Tap(m) => {
                let (p, o) = m.next(event, now);
                (Machine::Tap(p), o)
            },
            Machine::Hold(m) => {
                let (p, o) = m.next(event, now);
                (Machine::Hold(p), o)
            },
            Machine::EagerHold(m) => {
                let (p, o) = m.next(event, now);
                (Machine::EagerHold(p), o)
            },
            Machine::DoubleTap(m) => {
                let (p, o) = m.next(event, now);
                (Machine::DoubleTap(p), o)
            },
            Machine::DoubleTapHold(m) => {
                let (p, o) = m.next(event, now);
                (Machine::DoubleTapHold(p), o)
            },
        }
    }

    fn transition(&mut self, event: &Event<KeyId>, now: u64) -> (r: Option<KeyActionSet<T>>) {
        match self {
            Machine::Tap(m) => m.transition(event, now),
            Machine::Hold(m) => m.transition(event, now),
            Machine::EagerHold(m) => m.transition(event, now),
            Machine::DoubleTap(m) => m.transition(event, now),
            Machine::DoubleTapHold(m) => m.transition(event, now),
        }
    }

    fn get_watched_key(&self) -> (r: &KeyId) {
        match self {
            Machine::Tap(m) => m.get_watched_key(),
            Machine::Hold(m) => m.get_watched_key(),
            Machine::EagerHold(m) => m.get_watched_key(),
            Machine::DoubleTap(m) => m.get_watched_key(),
            Machine::DoubleTapHold(m) => m.get_watched_key(),
        }
    }

    fn is_finished(&self) -> (r: bool) {
        match self {
            Machine::Tap(m) => m.is_finished(),
            Machine::Hold(m) => m.is_finished(),
            Machine::EagerHold(m) => m.is_finished(),
            Machine::DoubleTap(m) => m.is_finished(),
            Machine::DoubleTapHold(m) => m.is_finished(),
        }
    }

    fn get_cleanup_actions(&self) -> (r: Vec<KeyActionSet<T>>) {
        match self {
            Machine::Tap(m) => m.get_cleanup_actions(),
            Machine::Hold(m) => m.get_cleanup_actions(),
            Machine::EagerHold(m) => m.get_cleanup_actions(),
            Machine::DoubleTap(m) => m.get_cleanup_actions(),
            Machine::DoubleTapHold(m) => m.get_cleanup_actions(),
        }
    }

    proof fn lemma_next_keeps(&self, event: Event<KeyId>, now: u64) {
        match self {
            Machine::Tap(m) => m.lemma_next_keeps(event, now),
            Machine::Hold(m) => m.lemma_next_keeps(event, now),
            Machine::EagerHold(m) => m.lemma_next_keeps(event, now),
            Machine::DoubleTap(m) => m.lemma_next_keeps(event, now),
            Machine::DoubleTapHold(m) => m.lemma_next_keeps(event, now),
        }
    }
}

impl<T: Copy> Machine<T> {
    /// Starts minus stops of code `t` that the machine has emitted and its
    /// cleanup has not yet undone.
    pub open spec fn owed(&self, t: T) -> int {
        match self {
            Machine::Tap(m) => m.owed(t),
            Machine::Hold(m) => m.owed(t),
            Machine::EagerHold(m) => m.owed(t),
            Machine::DoubleTap(m) => m.owed(t),
            Machine::DoubleTapHold(m) => m.owed(t),
        }
    }

    /// What every state that the machine reaches from its first press keeps.
    pub open spec fn inv(&self) -> bool {
        match self {
            Machine::EagerHold(m) => m.inv(),
            _ => true,
        }
    }

    /// A step changes what a live machine owes by what it emits; a tap
    /// machine must not see its key pressed again for this.
    pub proof fn lemma_owed_step(&self, event: Event<KeyId>, now: u64, t: T)
        requires
            !self.finished(),
            self.inv(),
            self is Tap ==> event != Event::KeyPress(self.watched()),
        ensures
            self.next(event, now).0.owed(t) == self.owed(t) + opt_net(self.next(event, now).1, t),
            self.next(event, now).0.inv(),
            self is Tap && event == Event::<KeyId>::KeyRelease(self.watched()) ==> self.next(
                event,
                now,
            ).0.finished(),
    {
        match self {
            Machine::Tap(m) => m.lemma_owed_step(event, now, t),
            Machine::Hold(m) => m.lemma_owed_step(event, now, t),
            Machine::EagerHold(m) => m.lemma_owed_step(event, now, t),
            Machine::DoubleTap(m) => m.lemma_owed_step(event, now, t),
            Machine::DoubleTapHold(m) => m.lemma_owed_step(event, now, t),
        }
    }

    /// The cleanup of a finished machine cancels what it owes.
    pub proof fn lemma_owed_cleanup(&self, t: T)
        requires
            self.finished(),
        ensures
            self.cleanup().len() == 1,
            self.owed(t) + net_set(self.cleanup()[0], t) == 0,
    {
        match self {
            Machine::Tap(m) => m.lemma_owed_cleanup(t),
            Machine::Hold(m) => m.lemma_owed_cleanup(t),
            Machine::EagerHold(m) => m.lemma_owed_cleanup(t),
            Machine::DoubleTap(m) => m.lemma_owed_cleanup(t),
            Machine::DoubleTapHold(m) => m.lemma_owed_cleanup(t),
        }
    }
}

} // verus!
