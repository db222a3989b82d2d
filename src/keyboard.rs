//! Events a keyboard receives, actions it produces, and the keyboard interface.
use vstd::prelude::*;
use crate::keys::KeyId;

verus! {

/// An input of the keyboard.
#[derive(PartialEq, Eq, Clone, Copy, Debug)]
pub enum Event<Id> {
    KeyPress(Id),
    KeyRelease(Id),
    /// A time tick that carries no key.
    Poll,
}

impl<Id> Event<Id> {
    pub fn is_key_press(&self) -> (r: bool)
        ensures
            r == (self is KeyPress),
    {
        match self {
            Event::KeyPress(_) => true,
            _ => false,
        }
    }

    pub fn is_key_release(&self) -> (r: bool)
        ensures
            r == (self is KeyRelease),
    {
        match self {
            Event::KeyRelease(_) => true,
            _ => false,
        }
    }

    /// The key of a press or a release; `None` for a poll.
    pub fn get_key_id(&self) -> (r: Option<&Id>)
        ensures
            match *self {
                Event::KeyPress(k) => r == Some(&k),
                Event::KeyRelease(k) => r == Some(&k),
                Event::Poll => r is None,
            },
    {
        match self {
            Event::KeyPress(key_id) => Some(key_id),
            Event::KeyRelease(key_id) => Some(key_id),
            Event::Poll => None,
        }
    }
}

/// An output of the keyboard.
#[derive(PartialEq, Eq, Clone, Copy, Debug)]
pub enum Action<T> {
    /// Begin transmitting a code (key down on the virtual device).
    SendCode(T),
    /// End transmitting a code (key up on the virtual device).
    Stop(T),
}

/// A keyboard: each event moves it to a new state and yields the actions to
/// perform, in order. `now` is the time of the event in microseconds on a
/// monotonic clock.
pub trait Keyboard<T>: Sized {
    /// The condition that every state reached by `transition` keeps.
    spec fn well_formed(&self) -> bool;

    /// Whether `post` and `out` are the state and output of a transition on
    /// `event` at time `now`.
    spec fn steps_to(&self, event: Event<KeyId>, now: u64, post: Self, out: Seq<Action<T>>) -> bool;

    fn transition(&mut self, event: Event<KeyId>, now: u64) -> (r: Vec<Action<T>>)
        requires
            old(self).well_formed(),
        ensures
            final(self).well_formed(),
            old(self).steps_to(event, now, *final(self), r@),
    ;
}

/// A keyboard that echoes each key as its own code.
pub struct EchoerKb {}

/// What the echoing keyboard yields for an event.
pub open spec fn echo(event: Event<KeyId>) -> Seq<Action<KeyId>> {
    match event {
        Event::KeyPress(code) => seq![Action::SendCode(code)],
        Event::KeyRelease(code) => seq![Action::Stop(code)],
        Event::Poll => seq![],
    }
}

impl Keyboard<KeyId> for EchoerKb {
    open spec fn well_formed(&self) -> bool {
        true
    }

    open spec fn steps_to(
        &self,
        event: Event<KeyId>,
        now: u64,
        post: Self,
        out: Seq<Action<KeyId>>,
    ) -> bool {
        out == echo(event)
    }

    fn transition(&mut self, event: Event<KeyId>, now: u64) -> (r: Vec<Action<KeyId>>) {
        let mut out: Vec<Action<KeyId>> = Vec::new();
        match event {
            Event::KeyPress(code) => out.push(Action::SendCode(code)),
            Event::KeyRelease(code) => out.push(Action::Stop(code)),
            Event::Poll => {},
        }
        proof {
            assert(out@ =~= echo(event));
        }
        out
    }
}

} // verus!
