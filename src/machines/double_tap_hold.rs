//! The machine of a double tap hold key, which merges hold and double tap:
//! held past the hold threshold (or while another key is pressed) it performs
//! `hold` until released; released before that, it performs `double_tap` if the
//! key is pressed again within the retap threshold and `tap` otherwise.
use vstd::prelude::*;
use crate::keyboard::Event;
use crate::keys::{lemma_net_set_inverse, net_set, opt_net, DoubleTapHoldKeyConf, KeyActionSet, KeyId};
use super::{
    elapsed,
    elapsed_since,
    is_press_of,
    is_press_of_other,
    is_release_of,
    press_of,
    press_of_other,
    release_of,
    KeyStateMachine,
};

verus! {

#[derive(PartialEq, Eq, Structural, Clone, Copy, Debug)]
pub enum DoubleTapHoldState {
    Created,
    Waiting,
    Hold,
    Released,
    Finished,
}

#[derive(Debug)]
pub struct DoubleTapHoldKSM<T> {
    pub(crate) state: DoubleTapHoldState,
    pub(crate) key_conf: DoubleTapHoldKeyConf<T>,
    pub(crate) watched_key: KeyId,
    pub(crate) hold_threshold: u64,
    pub(crate) retap_threshold: u64,
    pub(crate) timer_start: u64,
    pub(crate) release_timestamp: u64,
    pub(crate) cleanup_action: KeyActionSet<T>,
}

impl<T: Copy> DoubleTapHoldKSM<T> {
    pub open(crate) spec fn state(&self) -> DoubleTapHoldState {
        self.state
    }

    pub open(crate) spec fn conf(&self) -> DoubleTapHoldKeyConf<T> {
        self.key_conf
    }

    /// The machine finished with `emit` as its last action set.
    pub(crate) open spec fn done_with(&self, emit: KeyActionSet<T>) -> (Self, Option<KeyActionSet<T>>) {
        (
            DoubleTapHoldKSM {
                state: DoubleTapHoldState::Finished,
                cleanup_action: emit.inverse(),
                ..*self
            },
            Some(emit),
        )
    }

    /// The machine that `new` builds.
    pub open(crate) spec fn initial(
        hold_threshold: u64,
        retap_threshold: u64,
        watched_key: KeyId,
        conf: DoubleTapHoldKeyConf<T>,
    ) -> Self {
        DoubleTapHoldKSM {
            hold_threshold,
            retap_threshold,
            state: DoubleTapHoldState::Created,
            key_conf: conf,
            watched_key,
            timer_start: 0,
            release_timestamp: 0,
            cleanup_action: KeyActionSet::noop(),
        }
    }

    /// A machine that waits for the press of `watched_key`. Both thresholds
    /// are in microseconds.
    pub fn new(
        hold_threshold: u64,
        retap_threshold: u64,
        watched_key: KeyId,
        conf: DoubleTapHoldKeyConf<T>,
    ) -> (r: Self)
        ensures
            r == Self::initial(hold_threshold, retap_threshold, watched_key, conf),
            r.watched() == watched_key,
            r.state() == DoubleTapHoldState::Created,
            r.conf() == conf,
            !r.finished(),
    {
        DoubleTapHoldKSM {
            hold_threshold,
            retap_threshold,
            state: DoubleTapHoldState::Created,
            key_conf: conf,
            watched_key,
            timer_start: 0,
            release_timestamp: 0,
            cleanup_action: KeyActionSet::default(),
        }
    }

    fn finish_with(&mut self, emit: KeyActionSet<T>) -> (r: Option<KeyActionSet<T>>)
        ensures
            (*final(self), r) == old(self).done_with(emit),
    {
        self.state = DoubleTapHoldState::Finished;
        self.cleanup_action = emit.invert();
        Some(emit)
    }
}

impl<T: Copy> KeyStateMachine<T> for DoubleTapHoldKSM<T> {
    open(crate) spec fn watched(&self) -> KeyId {
        self.watched_key
    }

    open(crate) spec fn finished(&self) -> bool {
        self.state == DoubleTapHoldState::Finished
    }

    open(crate) spec fn cleanup(&self) -> Seq<KeyActionSet<T>> {
        seq![self.cleanup_action]
    }

    open(crate) spec fn next(&self, event: Event<KeyId>, now: u64) -> (Self, Option<KeyActionSet<T>>) {
        let w = self.watched_key;
        match self.state {
            DoubleTapHoldState::Created => {
                if is_press_of(event, w) {
                    (
                        DoubleTapHoldKSM {
                            timer_start: now,
                            state: DoubleTapHoldState::Waiting,
                            ..*self
                        },
                        None,
                    )
                } else {
                    (*self, None)
                }
            },
            DoubleTapHoldState::Waiting => {
                if elapsed(self.timer_start, now) >= self.hold_threshold || is_press_of_other(
                    event,
                    w,
                ) {
                    (
                        DoubleTapHoldKSM {
                            state: DoubleTapHoldState::Hold,
                            cleanup_action: self.key_conf.hold.inverse(),
                            ..*self
                        },
                        Some(self.key_conf.hold),
                    )
                } else if is_release_of(event, w) {
                    (
                        DoubleTapHoldKSM {
                            state: DoubleTapHoldState::Released,
                            release_timestamp: now,
                            ..*self
                        },
                        None,
                    )
                } else {
                    (*self, None)
                }
            },
            DoubleTapHoldState::Hold => {
                if is_release_of(event, w) {
                    (DoubleTapHoldKSM { state: DoubleTapHoldState::Finished, ..*self }, None)
                } else {
                    (*self, None)
                }
            },
            DoubleTapHoldState::Released => {
                if elapsed(self.release_timestamp, now) > self.retap_threshold
                    || is_press_of_other(event, w) {
                    self.done_with(self.key_conf.tap)
                } else if is_press_of(event, w) {
                    self.done_with(self.key_conf.double_tap)
                } else {
                    (*self, None)
                }
            },
            DoubleTapHoldState::Finished => (*self, None),
        }
    }

    fn transition(&mut self, event: &Event<KeyId>, now: u64) -> (r: Option<KeyActionSet<T>>) {
        let w = self.watched_key;
        match self.state {
            DoubleTapHoldState::Created => {
                if press_of(event, w) {
                    self.timer_start = now;
                    self.state = DoubleTapHoldState::Waiting;
                }
                None
            },
            DoubleTapHoldState::Waiting => {
                if elapsed_since(self.timer_start, now) >= self.hold_threshold || press_of_other(
                    event,
                    w,
                ) {
                    self.state = DoubleTapHoldState::Hold;
                    self.cleanup_action = self.key_conf.hold.invert();
                    Some(self.key_conf.hold)
                } else if release_of(event, w) {
                    self.state = DoubleTapHoldState::Released;
                    self.release_timestamp = now;
                    None
                } else {
                    None
                }
            },
            DoubleTapHoldState::Hold => {
                if release_of(event, w) {
                    self.state = DoubleTapHoldState::Finished;
                }
                None
            },
            DoubleTapHoldState::Released => {
                if elapsed_since(self.release_timestamp, now) > self.retap_threshold
                    || press_of_other(event, w) {
                    let tap = self.key_conf.tap;
                    self.finish_with(tap)
                } else if press_of(event, w) {
                    let double_tap = self.key_conf.double_tap;
                    self.finish_with(double_tap)
                } else {
                    None
                }
            },
            DoubleTapHoldState::Finished => None,
        }
    }

    fn get_watched_key(&self) -> (r: &KeyId) {
        &self.watched_key
    }

    fn is_finished(&self) -> (r: bool) {
        self.state == DoubleTapHoldState::Finished
    }

    fn get_cleanup_actions(&self) -> (r: Vec<KeyActionSet<T>>) {
        let mut v: Vec<KeyActionSet<T>> = Vec::new();
        v.push(self.cleanup_action);
        proof {
            assert(v@ =~= seq![self.cleanup_action]);
        }
        v
    }

    proof fn lemma_next_keeps(&self, event: Event<KeyId>, now: u64) {
    }
}

impl<T: Copy> DoubleTapHoldKSM<T> {
    /// Starts minus stops of code `t` that the machine has emitted and its
    /// cleanup has not yet undone.
    pub open(crate) spec fn owed(&self, t: T) -> int {
        match self.state {
            DoubleTapHoldState::Created | DoubleTapHoldState::Waiting | DoubleTapHoldState::Released => 0,
            _ => -net_set(self.cleanup_action, t),
        }
    }

    /// A step changes what the machine owes by what it emits.
    pub proof fn lemma_owed_step(&self, event: Event<KeyId>, now: u64, t: T)
        requires
            !self.finished(),
        ensures
            self.next(event, now).0.owed(t) == self.owed(t) + opt_net(self.next(event, now).1, t),
    {
        lemma_net_set_inverse(self.key_conf.tap, t);
        lemma_net_set_inverse(self.key_conf.hold, t);
        lemma_net_set_inverse(self.key_conf.double_tap, t);
    }

    /// The press that starts a new machine leaves it owing what it emitted.
    pub proof fn lemma_owed_first_press(hold_threshold: u64, retap_threshold: u64, watched_key: KeyId, conf: DoubleTapHoldKeyConf<T>, now: u64, t: T)
        ensures
            ({
                let (m, o) = Self::initial(hold_threshold, retap_threshold, watched_key, conf).next(Event::KeyPress(watched_key), now);
                m.owed(t) == opt_net(o, t) && !m.finished() && m.watched() == watched_key
            }),
    {
        Self::initial(hold_threshold, retap_threshold, watched_key, conf).lemma_owed_step(Event::KeyPress(watched_key), now, t);
    }

    /// The cleanup of a finished machine cancels what it owes.
    pub proof fn lemma_owed_cleanup(&self, t: T)
        requires
            self.finished(),
        ensures
            self.cleanup().len() == 1,
            self.owed(t) + net_set(self.cleanup()[0], t) == 0,
    {
    }
}

} // verus!
