//! Key configurations and the actions a key performs when activated.
use vstd::prelude::*;

verus! {

/// Identifier of a layer of the keyboard map.
pub type LayerId = u8;

/// Identifier of a physical key (a Linux input key code).
pub type KeyId = u16;

/// A side effect that a key has when it is activated.
#[derive(PartialEq, Eq, Clone, Copy, Debug)]
pub enum KeyAction<T> {
    /// Start sending `T`; becomes `Action::SendCode`.
    SendKey(T),
    /// Stop sending `T`; becomes `Action::Stop`.
    StopKey(T),
    /// Push a layer onto the layer stack.
    PushLayer(LayerId),
    /// Remove the topmost occurrence of a layer from the layer stack.
    PopLayer(LayerId),
    /// Do nothing.
    NoOp,
}

impl<T> KeyAction<T> {
    /// The action that cancels this one.
    pub open spec fn inverse(self) -> KeyAction<T> {
        match self {
            KeyAction::SendKey(t) => KeyAction::StopKey(t),
            KeyAction::StopKey(t) => KeyAction::SendKey(t),
            KeyAction::PushLayer(l) => KeyAction::PopLayer(l),
            KeyAction::PopLayer(l) => KeyAction::PushLayer(l),
            KeyAction::NoOp => KeyAction::NoOp,
        }
    }
}

impl<T: Copy> KeyAction<T> {
    /// The inverse of the action: it undoes or cancels what this action does.
    pub fn invert(&self) -> (r: Self)
        ensures
            r == self.inverse(),
    {
        match self {
            KeyAction::SendKey(data) => KeyAction::StopKey(*data),
            KeyAction::StopKey(data) => KeyAction::SendKey(*data),
            KeyAction::PushLayer(layer_id) => KeyAction::PopLayer(*layer_id),
            KeyAction::PopLayer(layer_id) => KeyAction::PushLayer(*layer_id),
            KeyAction::NoOp => KeyAction::NoOp,
        }
    }
}

impl<T> Default for KeyAction<T> {
    /// An action defaults to `NoOp`.
    fn default() -> (r: Self)
        ensures
            r == KeyAction::<T>::NoOp,
    {
        KeyAction::NoOp
    }
}

/// One, two or three actions that a key performs together, in order.
#[derive(PartialEq, Eq, Clone, Copy, Debug)]
pub enum KeyActionSet<T> {
    Single(KeyAction<T>),
    Double(KeyAction<T>, KeyAction<T>),
    Triple(KeyAction<T>, KeyAction<T>, KeyAction<T>),
}

impl<T> KeyActionSet<T> {
    /// The members of the set, in declaration order.
    pub open spec fn actions(self) -> Seq<KeyAction<T>> {
        match self {
            KeyActionSet::Single(a1) => seq![a1],
            KeyActionSet::Double(a1, a2) => seq![a1, a2],
            KeyActionSet::Triple(a1, a2, a3) => seq![a1, a2, a3],
        }
    }

    /// The set with each member inverted, in the same order.
    pub open spec fn inverse(self) -> KeyActionSet<T> {
        match self {
            KeyActionSet::Single(a1) => KeyActionSet::Single(a1.inverse()),
            KeyActionSet::Double(a1, a2) => KeyActionSet::Double(a1.inverse(), a2.inverse()),
            KeyActionSet::Triple(a1, a2, a3) => KeyActionSet::Triple(
                a1.inverse(),
                a2.inverse(),
                a3.inverse(),
            ),
        }
    }

    /// The set that holds a single `NoOp`.
    pub open spec fn noop() -> KeyActionSet<T> {
        KeyActionSet::Single(KeyAction::NoOp)
    }
}

impl<T: Copy> KeyActionSet<T> {
    /// The actions of the set, in declaration order.
    pub fn get_actions(&self) -> (r: Vec<KeyAction<T>>)
        ensures
            r@ == self.actions(),
            1 <= r@.len() <= 3,
    {
        let mut actions: Vec<KeyAction<T>> = Vec::new();
        match self {
            KeyActionSet::Single(a1) => {
                actions.push(*a1);
            },
            KeyActionSet::Double(a1, a2) => {
                actions.push(*a1);
                actions.push(*a2);
            },
            KeyActionSet::Triple(a1, a2, a3) => {
                actions.push(*a1);
                actions.push(*a2);
                actions.push(*a3);
            },
        }
        proof {
            assert(actions@ =~= self.actions());
        }
        actions
    }

    /// The set with every action inverted; the order is kept.
    pub fn invert(&self) -> (r: KeyActionSet<T>)
        ensures
            r == self.inverse(),
            r.actions().len() == self.actions().len(),
            forall|i: int|
                0 <= i < r.actions().len() ==> #[trigger] r.actions()[i]
                    == self.actions()[i].inverse(),
    {
        match self {
            KeyActionSet::Single(a1) => KeyActionSet::Single(a1.invert()),
            KeyActionSet::Double(a1, a2) => KeyActionSet::Double(a1.invert(), a2.invert()),
            KeyActionSet::Triple(a1, a2, a3) => KeyActionSet::Triple(
                a1.invert(),
                a2.invert(),
                a3.invert(),
            ),
        }
    }
}

impl<T> Default for KeyActionSet<T> {
    /// An action set defaults to a single `NoOp`.
    fn default() -> (r: Self)
        ensures
            r == KeyActionSet::<T>::noop(),
    {
        KeyActionSet::Single(KeyAction::NoOp)
    }
}

/// Inverting an action twice gives the action back.
pub proof fn lemma_action_invert_involution<T>(a: KeyAction<T>)
    ensures
        a.inverse().inverse() == a,
{
}

/// Inverting an action set twice gives the set back.
pub proof fn lemma_invert_involution<T>(s: KeyActionSet<T>)
    ensures
        s.inverse().inverse() == s,
{
}

/// How an action counts for code `t`: +1 when it starts sending `t`, -1 when
/// it stops sending `t`.
pub open spec fn net_action<T>(a: KeyAction<T>, t: T) -> int {
    match a {
        KeyAction::SendKey(x) => if x == t {
            1int
        } else {
            0int
        },
        KeyAction::StopKey(x) => if x == t {
            -1int
        } else {
            0int
        },
        _ => 0int,
    }
}

/// How an action set counts for code `t`: starts minus stops of `t`.
pub open spec fn net_set<T>(s: KeyActionSet<T>, t: T) -> int {
    match s {
        KeyActionSet::Single(a1) => net_action(a1, t),
        KeyActionSet::Double(a1, a2) => net_action(a1, t) + net_action(a2, t),
        KeyActionSet::Triple(a1, a2, a3) => net_action(a1, t) + net_action(a2, t) + net_action(
            a3,
            t,
        ),
    }
}

/// The inverse of a set cancels the set, code by code.
pub proof fn lemma_net_set_inverse<T>(s: KeyActionSet<T>, t: T)
    ensures
        net_set(s.inverse(), t) == -net_set(s, t),
{
}

/// How a key behaves once it is pressed.
#[derive(Clone, Copy, Debug)]
pub enum KeyConf<T> {
    /// Performs its action while pressed and undoes it when released.
    Tap(TapKeyConf<T>),
    /// Performs `hold` when held past a threshold or when another key is pressed
    /// meanwhile, and `tap` otherwise.
    Hold(HoldKeyConf<T>),
    /// Like `Hold`, but performs `hold` at once and retracts it if the key turns
    /// out to be tapped.
    EagerHold(HoldKeyConf<T>),
    /// Performs `double_tap` when tapped and quickly tapped again, `tap` otherwise.
    DoubleTap(DoubleTapKeyConf<T>),
    /// Merges `Hold` and `DoubleTap`.
    DoubleTapHold(DoubleTapHoldKeyConf<T>),
}

/// Actions of a tap key.
#[derive(Clone, Copy, Debug)]
pub struct TapKeyConf<T> {
    pub tap: KeyActionSet<T>,
}

impl<T> Default for TapKeyConf<T> {
    fn default() -> (r: Self)
        ensures
            r.tap == KeyActionSet::<T>::noop(),
    {
        TapKeyConf { tap: KeyActionSet::default() }
    }
}

/// Actions of a hold or eager hold key: one for a tap, one for a hold.
#[derive(Clone, Copy, Debug)]
pub struct HoldKeyConf<T> {
    pub tap: KeyActionSet<T>,
    pub hold: KeyActionSet<T>,
}

impl<T> Default for HoldKeyConf<T> {
    fn default() -> (r: Self)
        ensures
            r.tap == KeyActionSet::<T>::noop(),
            r.hold == KeyActionSet::<T>::noop(),
    {
        HoldKeyConf { tap: KeyActionSet::default(), hold: KeyActionSet::default() }
    }
}

/// Actions of a double tap key: one for a tap, one for a tap quickly repeated.
#[derive(Clone, Copy, Debug)]
pub struct DoubleTapKeyConf<T> {
    pub tap: KeyActionSet<T>,
    pub double_tap: KeyActionSet<T>,
}

impl<T> Default for DoubleTapKeyConf<T> {
    fn default() -> (r: Self)
        ensures
            r.tap == KeyActionSet::<T>::noop(),
            r.double_tap == KeyActionSet::<T>::noop(),
    {
        DoubleTapKeyConf { tap: KeyActionSet::default(), double_tap: KeyActionSet::default() }
    }
}

/// Actions of a double tap hold key: for a tap, a double tap and a hold.
#[derive(Clone, Copy, Debug)]
pub struct DoubleTapHoldKeyConf<T> {
    pub tap: KeyActionSet<T>,
    pub double_tap: KeyActionSet<T>,
    pub hold: KeyActionSet<T>,
}

impl<T> Default for DoubleTapHoldKeyConf<T> {
    fn default() -> (r: Self)
        ensures
            r.tap == KeyActionSet::<T>::noop(),
            r.double_tap == KeyActionSet::<T>::noop(),
            r.hold == KeyActionSet::<T>::noop(),
    {
        DoubleTapHoldKeyConf {
            tap: KeyActionSet::default(),
            double_tap: KeyActionSet::default(),
            hold: KeyActionSet::default(),
        }
    }
}

/// Actions of a dead key: one on activation, one when it is tapped again.
#[derive(Clone, Copy, Debug)]
pub struct DeadKeyConf<T> {
    pub activation: KeyActionSet<T>,
    pub retap: KeyActionSet<T>,
}

impl<T> Default for DeadKeyConf<T> {
    fn default() -> (r: Self)
        ensures
            r.activation == KeyActionSet::<T>::noop(),
            r.retap == KeyActionSet::<T>::noop(),
    {
        DeadKeyConf { activation: KeyActionSet::default(), retap: KeyActionSet::default() }
    }
}

/// How an action set that may be absent counts for code `t`.
pub open spec fn opt_net<T>(o: Option<KeyActionSet<T>>, t: T) -> int {
    match o {
        Some(s) => net_set(s, t),
        None => 0,
    }
}

} // verus!
