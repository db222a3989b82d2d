//! The machine of an eager hold key: it performs `hold` at the press, and
//! when the key is released before the threshold (and before another key is
//! pressed) it retracts `hold` and performs `tap`.
use vstd::prelude::*;
use crate::keyboard::Event;
use crate::keys::{lemma_net_set_inverse, net_set, opt_net, HoldKeyConf, KeyActionSet, KeyId};
use super::{
    elapsed,
    elapsed_since,
    is_press_of,
    is_press_of_other,
    is_release_of,
    press_of,
    press_of_other,
    release_of,
    KeyStateMachine,
};

verus! {

#[derive(PartialEq, Eq, Structural, Clone, Copy, Debug)]
pub enum EagerHoldState {
    Created,
    Waiting,
    Hold,
    Released,
    Finished,
}

#[derive(Debug)]
pub struct EagerHoldKSM<T> {
    pub(crate) watched_key: KeyId,
    pub(crate) state: EagerHoldState,
    pub(crate) key_conf: HoldKeyConf<T>,
    pub(crate) timer_start: u64,
    pub(crate) release_delay: u64,
    pub(crate) cleanup_action: KeyActionSet<T>,
}

impl<T: Copy> EagerHoldKSM<T> {
    pub open(crate) spec fn state(&self) -> EagerHoldState {
        self.state
    }

    pub open(crate) spec fn conf(&self) -> HoldKeyConf<T> {
        self.key_conf
    }

    pub open(crate) spec fn delay(&self) -> u64 {
        self.release_delay
    }

    /// The machine that `new` builds.
    pub open(crate) spec fn initial(release_delay: u64, watched_key: KeyId, conf: HoldKeyConf<T>) -> Self {
        EagerHoldKSM {
            release_delay,
            watched_key,
            timer_start: 0,
            state: EagerHoldState::Created,
            key_conf: conf,
            cleanup_action: KeyActionSet::noop(),
        }
    }

    /// A machine that waits for the press of `watched_key`; `release_delay` is
    /// the hold threshold in microseconds. Its cleanup is a `NoOp` until it
    /// commits an action.
    pub fn new(release_delay: u64, watched_key: KeyId, conf: HoldKeyConf<T>) -> (r: Self)
        ensures
            r == Self::initial(release_delay, watched_key, conf),
            r.watched() == watched_key,
            r.state() == EagerHoldState::Created,
            r.conf() == conf,
            r.delay() == release_delay,
            !r.finished(),
    {
        EagerHoldKSM {
            release_delay,
            watched_key,
            timer_start: 0,
            state: EagerHoldState::Created,
            key_conf: conf,
            cleanup_action: KeyActionSet::default(),
        }
    }
}

impl<T: Copy> KeyStateMachine<T> for EagerHoldKSM<T> {
    open(crate) spec fn watched(&self) -> KeyId {
        self.watched_key
    }

    open(crate) spec fn finished(&self) -> bool {
        self.state == EagerHoldState::Finished
    }

    open(crate) spec fn cleanup(&self) -> Seq<KeyActionSet<T>> {
        seq![self.cleanup_action]
    }

    open(crate) spec fn next(&self, event: Event<KeyId>, now: u64) -> (Self, Option<KeyActionSet<T>>) {
        let w = self.watched_key;
        match self.state {
            EagerHoldState::Created => {
                if is_press_of(event, w) {
                    (
                        EagerHoldKSM {
                            timer_start: now,
                            state: EagerHoldState::Waiting,
                            cleanup_action: self.key_conf.hold.inverse(),
                            ..*self
                        },
                        Some(self.key_conf.hold),
                    )
                } else {
                    (*self, None)
                }
            },
            EagerHoldState::Waiting => {
                if elapsed(self.timer_start, now) >= self.release_delay || is_press_of_other(
                    event,
                    w,
                ) {
                    (EagerHoldKSM { state: EagerHoldState::Hold, ..*self }, None)
                } else if is_release_of(event, w) {
                    (
                        EagerHoldKSM { state: EagerHoldState::Released, ..*self },
                        Some(self.key_conf.hold.inverse()),
                    )
                } else {
                    (*self, None)
                }
            },
            EagerHoldState::Released => (
                EagerHoldKSM {
                    state: EagerHoldState::Finished,
                    cleanup_action: self.key_conf.tap.inverse(),
                    ..*self
                },
                Some(self.key_conf.tap),
            ),
            EagerHoldState::Hold => {
                if is_release_of(event, w) {
                    (EagerHoldKSM { state: EagerHoldState::Finished, ..*self }, None)
                } else {
                    (*self, None)
                }
            },
            EagerHoldState::Finished => (*self, None),
        }
    }

    fn transition(&mut self, event: &Event<KeyId>, now: u64) -> (r: Option<KeyActionSet<T>>) {
        let w = self.watched_key;
        match self.state {
            EagerHoldState::Created => {
                if press_of(event, w) {
                    self.timer_start = now;
                    self.state = EagerHoldState::Waiting;
                    self.cleanup_action = self.key_conf.hold.invert();
                    Some(self.key_conf.hold)
                } else {
                    None
                }
            },
            EagerHoldState::Waiting => {
                if elapsed_since(self.timer_start, now) >= self.release_delay || press_of_other(
                    event,
                    w,
                ) {
                    self.state = EagerHoldState::Hold;
                    None
                } else if release_of(event, w) {
                    self.state = EagerHoldState::Released;
                    Some(self.key_conf.hold.invert())
                } else {
                    None
                }
            },
            EagerHoldState::Released => {
                self.state = EagerHoldState::Finished;
                self.cleanup_action = self.key_conf.tap.invert();
                Some(self.key_conf.tap)
            },
            EagerHoldState::Hold => {
                if release_of(event, w) {
                    self.state = EagerHoldState::Finished;
                }
                None
            },
            EagerHoldState::Finished => None,
        }
    }

    fn get_watched_key(&self) -> (r: &KeyId) {
        &self.watched_key
    }

    fn is_finished(&self) -> (r: bool) {
        self.state == EagerHoldState::Finished
    }

    fn get_cleanup_actions(&self) -> (r: Vec<KeyActionSet<T>>) {
        let mut v: Vec<KeyActionSet<T>> = Vec::new();
        v.push(self.cleanup_action);
        proof {
            assert(v@ =~= seq![self.cleanup_action]);
        }
        v
    }

    proof fn lemma_next_keeps(&self, event: Event<KeyId>, now: u64) {
    }
}

impl<T: Copy> EagerHoldKSM<T> {
    /// Starts minus stops of code `t` that the machine has emitted and its
    /// cleanup has not yet undone.
    pub open(crate) spec fn owed(&self, t: T) -> int {
        match self.state {
            EagerHoldState::Created | EagerHoldState::Released => 0,
            _ => -net_set(self.cleanup_action, t),
        }
    }

    /// While the machine holds `hold` committed, its cleanup retracts it.
    pub open(crate) spec fn inv(&self) -> bool {
        (self.state == EagerHoldState::Waiting || self.state == EagerHoldState::Hold)
            ==> self.cleanup_action == self.key_conf.hold.inverse()
    }

    /// A step keeps `inv` and changes what the machine owes by what it emits.
    pub proof fn lemma_owed_step(&self, event: Event<KeyId>, now: u64, t: T)
        requires
            !self.finished(),
            self.inv(),
        ensures
            self.next(event, now).0.owed(t) == self.owed(t) + opt_net(self.next(event, now).1, t),
            self.next(event, now).0.inv(),
    {
        lemma_net_set_inverse(self.key_conf.tap, t);
        lemma_net_set_inverse(self.key_conf.hold, t);
    }

    /// The press that starts a new machine leaves it owing what it emitted.
    pub proof fn lemma_owed_first_press(release_delay: u64, watched_key: KeyId, conf: HoldKeyConf<T>, now: u64, t: T)
        ensures
            ({
                let (m, o) = Self::initial(release_delay, watched_key, conf).next(Event::KeyPress(watched_key), now);
                m.owed(t) == opt_net(o, t) && !m.finished() && m.watched() == watched_key && m.inv()
            }),
    {
        Self::initial(release_delay, watched_key, conf).lemma_owed_step(Event::KeyPress(watched_key), now, t);
    }

    /// The cleanup of a finished machine cancels what it owes.
    pub proof fn lemma_owed_cleanup(&self, t: T)
        requires
            self.finished(),
        ensures
            self.cleanup().len() == 1,
            self.owed(t) + net_set(self.cleanup()[0], t) == 0,
    {
    }
}

} // verus!
