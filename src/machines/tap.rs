//! The machine of a tap key: emits its action on each press of the watched
//! key and finishes when the key is released; cleanup undoes the action.
use vstd::prelude::*;
use crate::keyboard::Event;
use crate::keys::{lemma_net_set_inverse, net_set, opt_net, KeyActionSet, KeyId, TapKeyConf};
use super::{is_press_of, is_release_of, press_of, release_of, KeyStateMachine};

verus! {

#[derive(Debug)]
pub struct TapKSM<T> {
    pub(crate) finished: bool,
    pub(crate) watched_key: KeyId,
    pub(crate) conf: TapKeyConf<T>,
    pub(crate) cleanup_action: KeyActionSet<T>,
}

impl<T: Copy> TapKSM<T> {
    /// The configuration the machine was built with.
    pub open(crate) spec fn conf(&self) -> TapKeyConf<T> {
        self.conf
    }

    /// The machine that `new` builds.
    pub open(crate) spec fn initial(watched_key: KeyId, key_conf: TapKeyConf<T>) -> Self {
        TapKSM {
            cleanup_action: key_conf.tap.inverse(),
            conf: key_conf,
            finished: false,
            watched_key,
        }
    }

    pub fn new(watched_key: KeyId, key_conf: TapKeyConf<T>) -> (r: Self)
        ensures
            r == Self::initial(watched_key, key_conf),
            r.watched() == watched_key,
            r.conf() == key_conf,
            !r.finished(),
            r.cleanup() == seq![key_conf.tap.inverse()],
    {
        TapKSM {
            cleanup_action: key_conf.tap.invert(),
            conf: key_conf,
            finished: false,
            watched_key,
        }
    }
}

impl<T: Copy> KeyStateMachine<T> for TapKSM<T> {
    open(crate) spec fn watched(&self) -> KeyId {
        self.watched_key
    }

    open(crate) spec fn finished(&self) -> bool {
        self.finished
    }

    open(crate) spec fn cleanup(&self) -> Seq<KeyActionSet<T>> {
        seq![self.cleanup_action]
    }

    open(crate) spec fn next(&self, event: Event<KeyId>, now: u64) -> (Self, Option<KeyActionSet<T>>) {
        if self.finished {
            (*self, None)
        } else if is_press_of(event, self.watched_key) {
            (*self, Some(self.conf.tap))
        } else if is_release_of(event, self.watched_key) {
            (TapKSM { finished: true, ..*self }, None)
        } else {
            (*self, None)
        }
    }

    fn transition(&mut self, event: &Event<KeyId>, now: u64) -> (r: Option<KeyActionSet<T>>) {
        if self.finished {
            return None;
        }
        if press_of(event, self.watched_key) {
            Some(self.conf.tap)
        } else if release_of(event, self.watched_key) {
            self.finished = true;
            None
        } else {
            None
        }
    }

    fn get_watched_key(&self) -> (r: &KeyId) {
        &self.watched_key
    }

    fn is_finished(&self) -> (r: bool) {
        self.finished
    }

    fn get_cleanup_actions(&self) -> (r: Vec<KeyActionSet<T>>) {
        let mut v: Vec<KeyActionSet<T>> = Vec::new();
        v.push(self.cleanup_action);
        proof {
            assert(v@ =~= seq![self.cleanup_action]);
        }
        v
    }

    proof fn lemma_next_keeps(&self, event: Event<KeyId>, now: u64) {
    }
}

impl<T: Copy> TapKSM<T> {
    /// Starts minus stops of code `t` that the machine has emitted and its
    /// cleanup has not yet undone.
    pub open(crate) spec fn owed(&self, t: T) -> int {
        -net_set(self.cleanup_action, t)
    }

    /// A step on anything but a repeated press of the watched key changes
    /// what the machine owes by what it emits.
    pub proof fn lemma_owed_step(&self, event: Event<KeyId>, now: u64, t: T)
        requires
            !self.finished(),
            event != Event::KeyPress(self.watched()),
        ensures
            self.next(event, now).0.owed(t) == self.owed(t) + opt_net(self.next(event, now).1, t),
            event == Event::<KeyId>::KeyRelease(self.watched()) ==> self.next(event, now).0.finished(),
    {
    }

    /// The press that starts a new machine leaves it owing what it emitted.
    pub proof fn lemma_owed_first_press(watched_key: KeyId, key_conf: TapKeyConf<T>, now: u64, t: T)
        ensures
            ({
                let (m, o) = Self::initial(watched_key, key_conf).next(Event::KeyPress(watched_key), now);
                m.owed(t) == opt_net(o, t) && !m.finished() && m.watched() == watched_key
            }),
    {
        lemma_net_set_inverse(key_conf.tap, t);
    }

    /// The cleanup of a machine cancels what it owes.
    pub proof fn lemma_owed_cleanup(&self, t: T)
        ensures
            self.cleanup().len() == 1,
            self.owed(t) + net_set(self.cleanup()[0], t) == 0,
    {
    }
}

} // verus!
