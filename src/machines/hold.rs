//! The machine of a (lazy) hold key: it waits after the press and commits to
//! `hold` once the key has been held past the threshold or another key is
//! pressed, or to `tap` when the key is released before that.
use vstd::prelude::*;
use crate::keyboard::Event;
use crate::keys::{lemma_net_set_inverse, net_set, opt_net, HoldKeyConf, KeyActionSet, KeyId};
use super::{
    elapsed,
    elapsed_since,
    is_press_of,
    is_press_of_other,
    is_release_of,
    press_of,
    press_of_other,
    release_of,
    KeyStateMachine,
};

verus! {

#[derive(PartialEq, Eq, Structural, Clone, Copy, Debug)]
pub enum HoldState {
    Created,
    Waiting,
    Hold,
    Released,
    Finished,
}

#[derive(Debug)]
pub struct HoldKSM<T> {
    pub(crate) watched_key: KeyId,
    pub(crate) state: HoldState,
    pub(crate) key_conf: HoldKeyConf<T>,
    pub(crate) timer_start: u64,
    pub(crate) release_delay: u64,
    pub(crate) cleanup_action: KeyActionSet<T>,
}

impl<T: Copy> HoldKSM<T> {
    pub open(crate) spec fn state(&self) -> HoldState {
        self.state
    }

    pub open(crate) spec fn conf(&self) -> HoldKeyConf<T> {
        self.key_conf
    }

    pub open(crate) spec fn delay(&self) -> u64 {
        self.release_delay
    }

    /// The machine that `new` builds.
    pub open(crate) spec fn initial(release_delay: u64, watched_key: KeyId, conf: HoldKeyConf<T>) -> Self {
        HoldKSM {
            release_delay,
            watched_key,
            timer_start: 0,
            state: HoldState::Created,
            key_conf: conf,
            cleanup_action: KeyActionSet::noop(),
        }
    }

    /// A machine that waits for the press of `watched_key`; `release_delay` is
    /// the hold threshold in microseconds.
    pub fn new(release_delay: u64, watched_key: KeyId, conf: HoldKeyConf<T>) -> (r: Self)
        ensures
            r == Self::initial(release_delay, watched_key, conf),
            r.watched() == watched_key,
            r.state() == HoldState::Created,
            r.conf() == conf,
            r.delay() == release_delay,
            !r.finished(),
    {
        HoldKSM {
            release_delay,
            watched_key,
            timer_start: 0,
            state: HoldState::Created,
            key_conf: conf,
            cleanup_action: KeyActionSet::default(),
        }
    }
}

impl<T: Copy> KeyStateMachine<T> for HoldKSM<T> {
    open(crate) spec fn watched(&self) -> KeyId {
        self.watched_key
    }

    open(crate) spec fn finished(&self) -> bool {
        self.state == HoldState::Finished
    }

    open(crate) spec fn cleanup(&self) -> Seq<KeyActionSet<T>> {
        seq![self.cleanup_action]
    }

    open(crate) spec fn next(&self, event: Event<KeyId>, now: u64) -> (Self, Option<KeyActionSet<T>>) {
        let w = self.watched_key;
        match self.state {
            HoldState::Created => {
                if is_press_of(event, w) {
                    (HoldKSM { timer_start: now, state: HoldState::Waiting, ..*self }, None)
                } else {
                    (*self, None)
                }
            },
            HoldState::Waiting => {
                if elapsed(self.timer_start, now) >= self.release_delay || is_press_of_other(
                    event,
                    w,
                ) {
                    (
                        HoldKSM {
                            state: HoldState::Hold,
                            cleanup_action: self.key_conf.hold.inverse(),
                            ..*self
                        },
                        Some(self.key_conf.hold),
                    )
                } else if is_release_of(event, w) {
                    (
                        HoldKSM {
                            state: HoldState::Released,
                            cleanup_action: self.key_conf.tap.inverse(),
                            ..*self
                        },
                        Some(self.key_conf.tap),
                    )
                } else {
                    (*self, None)
                }
            },
            HoldState::Released => (HoldKSM { state: HoldState::Finished, ..*self }, None),
            HoldState::Hold => {
                if is_release_of(event, w) {
                    (HoldKSM { state: HoldState::Finished, ..*self }, None)
                } else {
                    (*self, None)
                }
            },
            HoldState::Finished => (*self, None),
        }
    }

    fn transition(&mut self, event: &Event<KeyId>, now: u64) -> (r: Option<KeyActionSet<T>>) {
        let w = self.watched_key;
        match self.state {
            HoldState::Created => {
                if press_of(event, w) {
                    self.timer_start = now;
                    self.state = HoldState::Waiting;
                }
                None
            },
            HoldState::Waiting => {
                if elapsed_since(self.timer_start, now) >= self.release_delay || press_of_other(
                    event,
                    w,
                ) {
                    self.state = HoldState::Hold;
                    self.cleanup_action = self.key_conf.hold.invert();
                    Some(self.key_conf.hold)
                } else if release_of(event, w) {
                    self.state = HoldState::Released;
                    self.cleanup_action = self.key_conf.tap.invert();
                    Some(self.key_conf.tap)
                } else {
                    None
                }
            },
            HoldState::Released => {
                self.state = HoldState::Finished;
                None
            },
            HoldState::Hold => {
                if release_of(event, w) {
                    self.state = HoldState::Finished;
                }
                None
            },
            HoldState::Finished => None,
        }
    }

    fn get_watched_key(&self) -> (r: &KeyId) {
        &self.watched_key
    }

    fn is_finished(&self) -> (r: bool) {
        self.state == HoldState::Finished
    }

    fn get_cleanup_actions(&self) -> (r: Vec<KeyActionSet<T>>) {
        let mut v: Vec<KeyActionSet<T>> = Vec::new();
        v.push(self.cleanup_action);
        proof {
            assert(v@ =~= seq![self.cleanup_action]);
        }
        v
    }

    proof fn lemma_next_keeps(&self, event: Event<KeyId>, now: u64) {
    }
}

impl<T: Copy> HoldKSM<T> {
    /// Starts minus stops of code `t` that the machine has emitted and its
    /// cleanup has not yet undone.
    pub open(crate) spec fn owed(&self, t: T) -> int {
        match self.state {
            HoldState::Created | HoldState::Waiting => 0,
            _ => -net_set(self.cleanup_action, t),
        }
    }

    /// A step changes what the machine owes by what it emits.
    pub proof fn lemma_owed_step(&self, event: Event<KeyId>, now: u64, t: T)
        requires
            !self.finished(),
        ensures
            self.next(event, now).0.owed(t) == self.owed(t) + opt_net(self.next(event, now).1, t),
    {
        lemma_net_set_inverse(self.key_conf.tap, t);
        lemma_net_set_inverse(self.key_conf.hold, t);
    }

    /// The press that starts a new machine leaves it owing what it emitted.
    pub proof fn lemma_owed_first_press(release_delay: u64, watched_key: KeyId, conf: HoldKeyConf<T>, now: u64, t: T)
        ensures
            ({
                let (m, o) = Self::initial(release_delay, watched_key, conf).next(Event::KeyPress(watched_key), now);
                m.owed(t) == opt_net(o, t) && !m.finished() && m.watched() == watched_key
            }),
    {
        Self::initial(release_delay, watched_key, conf).lemma_owed_step(Event::KeyPress(watched_key), now, t);
    }

    /// The cleanup of a finished machine cancels what it owes.
    pub proof fn lemma_owed_cleanup(&self, t: T)
        requires
            self.finished(),
        ensures
            self.cleanup().len() == 1,
            self.owed(t) + net_set(self.cleanup()[0], t) == 0,
    {
    }
}

} // verus!
