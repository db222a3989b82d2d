//! The machine of a double tap key: a press, a release and a new press of the
//! watched key within the retap threshold performs `double_tap`; anything else
//! (a hold past the hold threshold, another key pressed, no retap in time)
//! performs `tap`. Either way the machine then finishes, and its cleanup
//! undoes what it performed.
use vstd::prelude::*;
use crate::keyboard::Event;
use crate::keys::{lemma_net_set_inverse, net_set, opt_net, DoubleTapKeyConf, KeyActionSet, KeyId};
use super::{
    elapsed,
    elapsed_since,
    is_press_of,
    is_press_of_other,
    is_release_of,
    press_of,
    press_of_other,
    release_of,
    KeyStateMachine,
};

verus! {

#[derive(PartialEq, Eq, Structural, Clone, Copy, Debug)]
pub enum DoubleTapState {
    Created,
    FirstTap,
    FirstRelease,
    Finished,
}

#[derive(Debug)]
pub struct DoubleTapKSM<T> {
    pub(crate) state: DoubleTapState,
    pub(crate) retap_threshold: u64,
    pub(crate) hold_threshold: u64,
    pub(crate) watched_key: KeyId,
    pub(crate) key_conf: DoubleTapKeyConf<T>,
    pub(crate) creation: u64,
    pub(crate) release_timestamp: u64,
    pub(crate) cleanup_action: KeyActionSet<T>,
}

impl<T: Copy> DoubleTapKSM<T> {
    pub open(crate) spec fn state(&self) -> DoubleTapState {
        self.state
    }

    pub open(crate) spec fn conf(&self) -> DoubleTapKeyConf<T> {
        self.key_conf
    }

    /// The machine finished with `emit` as its last action set.
    pub(crate) open spec fn done_with(&self, emit: KeyActionSet<T>) -> (Self, Option<KeyActionSet<T>>) {
        (
            DoubleTapKSM { state: DoubleTapState::Finished, cleanup_action: emit.inverse(), ..*self },
            Some(emit),
        )
    }

    /// The machine that `new` builds.
    pub open(crate) spec fn initial(
        retap_threshold: u64,
        hold_threshold: u64,
        watched_key: KeyId,
        conf: DoubleTapKeyConf<T>,
    ) -> Self {
        DoubleTapKSM {
            retap_threshold,
            hold_threshold,
            state: DoubleTapState::Created,
            watched_key,
            key_conf: conf,
            creation: 0,
            release_timestamp: 0,
            cleanup_action: KeyActionSet::noop(),
        }
    }

    /// A machine that waits for the press of `watched_key`. Both thresholds
    /// are in microseconds.
    pub fn new(
        retap_threshold: u64,
        hold_threshold: u64,
        watched_key: KeyId,
        conf: DoubleTapKeyConf<T>,
    ) -> (r: Self)
        ensures
            r == Self::initial(retap_threshold, hold_threshold, watched_key, conf),
            r.watched() == watched_key,
            r.state() == DoubleTapState::Created,
            r.conf() == conf,
            !r.finished(),
    {
        DoubleTapKSM {
            retap_threshold,
            hold_threshold,
            state: DoubleTapState::Created,
            watched_key,
            key_conf: conf,
            creation: 0,
            release_timestamp: 0,
            cleanup_action: KeyActionSet::default(),
        }
    }

    fn finish_with(&mut self, emit: KeyActionSet<T>) -> (r: Option<KeyActionSet<T>>)
        ensures
            (*final(self), r) == old(self).done_with(emit),
    {
        self.state = DoubleTapState::Finished;
        self.cleanup_action = emit.invert();
        Some(emit)
    }
}

impl<T: Copy> KeyStateMachine<T> for DoubleTapKSM<T> {
    open(crate) spec fn watched(&self) -> KeyId {
        self.watched_key
    }

    open(crate) spec fn finished(&self) -> bool {
        self.state == DoubleTapState::Finished
    }

    open(crate) spec fn cleanup(&self) -> Seq<KeyActionSet<T>> {
        seq![self.cleanup_action]
    }

    open(crate) spec fn next(&self, event: Event<KeyId>, now: u64) -> (Self, Option<KeyActionSet<T>>) {
        let w = self.watched_key;
        match self.state {
            DoubleTapState::Created => {
                if is_press_of(event, w) {
                    (DoubleTapKSM { creation: now, state: DoubleTapState::FirstTap, ..*self }, None)
                } else {
                    (*self, None)
                }
            },
            DoubleTapState::FirstTap => {
                if is_release_of(event, w) {
                    (
                        DoubleTapKSM {
                            release_timestamp: now,
                            state: DoubleTapState::FirstRelease,
                            ..*self
                        },
                        None,
                    )
                } else if elapsed(self.creation, now) > self.hold_threshold || event is KeyPress {
                    self.done_with(self.key_conf.tap)
                } else {
                    (*self, None)
                }
            },
            DoubleTapState::FirstRelease => {
                if elapsed(self.release_timestamp, now) > self.retap_threshold {
                    self.done_with(self.key_conf.tap)
                } else if is_press_of(event, w) {
                    self.done_with(self.key_conf.double_tap)
                } else if is_press_of_other(event, w) {
                    self.done_with(self.key_conf.tap)
                } else {
                    (*self, None)
                }
            },
            DoubleTapState::Finished => (*self, None),
        }
    }

    fn transition(&mut self, event: &Event<KeyId>, now: u64) -> (r: Option<KeyActionSet<T>>) {
        let w = self.watched_key;
        match self.state {
            DoubleTapState::Created => {
                if press_of(event, w) {
                    self.creation = now;
                    self.state = DoubleTapState::FirstTap;
                }
                None
            },
            DoubleTapState::FirstTap => {
                if release_of(event, w) {
                    self.release_timestamp = now;
                    self.state = DoubleTapState::FirstRelease;
                    None
                } else if elapsed_since(self.creation, now) > self.hold_threshold
                    || event.is_key_press() {
                    let tap = self.key_conf.tap;
                    self.finish_with(tap)
                } else {
                    None
                }
            },
            DoubleTapState::FirstRelease => {
                if elapsed_since(self.release_timestamp, now) > self.retap_threshold {
                    let tap = self.key_conf.tap;
                    self.finish_with(tap)
                } else if press_of(event, w) {
                    let double_tap = self.key_conf.double_tap;
                    self.finish_with(double_tap)
                } else if press_of_other(event, w) {
                    let tap = self.key_conf.tap;
                    self.finish_with(tap)
                } else {
                    None
                }
            },
            DoubleTapState::Finished => None,
        }
    }

    fn get_watched_key(&self) -> (r: &KeyId) {
        &self.watched_key
    }

    fn is_finished(&self) -> (r: bool) {
        self.state == DoubleTapState::Finished
    }

    fn get_cleanup_actions(&self) -> (r: Vec<KeyActionSet<T>>) {
        let mut v: Vec<KeyActionSet<T>> = Vec::new();
        v.push(self.cleanup_action);
        proof {
            assert(v@ =~= seq![self.cleanup_action]);
        }
        v
    }

    proof fn lemma_next_keeps(&self, event: Event<KeyId>, now: u64) {
    }
}

impl<T: Copy> DoubleTapKSM<T> {
    /// Starts minus stops of code `t` that the machine has emitted and its
    /// cleanup has not yet undone.
    pub open(crate) spec fn owed(&self, t: T) -> int {
        match self.state {
            DoubleTapState::Created | DoubleTapState::FirstTap | DoubleTapState::FirstRelease => 0,
            _ => -net_set(self.cleanup_action, t),
        }
    }

    /// A step changes what the machine owes by what it emits.
    pub proof fn lemma_owed_step(&self, event: Event<KeyId>, now: u64, t: T)
        requires
            !self.finished(),
        ensures
            self.next(event, now).0.owed(t) == self.owed(t) + opt_net(self.next(event, now).1, t),
    {
        lemma_net_set_inverse(self.key_conf.tap, t);
        lemma_net_set_inverse(self.key_conf.double_tap, t);
    }

    /// The press that starts a new machine leaves it owing what it emitted.
    pub proof fn lemma_owed_first_press(retap_threshold: u64, hold_threshold: u64, watched_key: KeyId, conf: DoubleTapKeyConf<T>, now: u64, t: T)
        ensures
            ({
                let (m, o) = Self::initial(retap_threshold, hold_threshold, watched_key, conf).next(Event::KeyPress(watched_key), now);
                m.owed(t) == opt_net(o, t) && !m.finished() && m.watched() == watched_key
            }),
    {
        Self::initial(retap_threshold, hold_threshold, watched_key, conf).lemma_owed_step(Event::KeyPress(watched_key), now, t);
    }

    /// The cleanup of a finished machine cancels what it owes.
    pub proof fn lemma_owed_cleanup(&self, t: T)
        requires
            self.finished(),
        ensures
            self.cleanup().len() == 1,
            self.owed(t) + net_set(self.cleanup()[0], t) == 0,
    {
    }
}

} // verus!
