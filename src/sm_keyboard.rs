//! The state machine keyboard: an orchestrator of key state machines.
//!
//! On a press of a key that no machine watches, the keyboard asks the mapper
//! for the key's configuration on the active layer and creates a machine for
//! it. Every event then goes to every live machine in creation order; the
//! action sets they emit, followed by the cleanup of the machines that
//! finished, are applied in order: codes become output actions, layer actions
//! change the layer stack. Finished machines are then dropped.
use std::collections::HashMap;
use vstd::prelude::*;
use crate::keyboard::{Action, Event, Keyboard};
use crate::keys::{KeyAction, KeyActionSet, KeyConf, KeyId, LayerId};
use crate::machines::double_tap::DoubleTapKSM;
use crate::machines::double_tap_hold::DoubleTapHoldKSM;
use crate::machines::eager_hold::EagerHoldKSM;
use crate::machines::hold::HoldKSM;
use crate::machines::tap::TapKSM;
use crate::machines::{KeyStateMachine, Machine};
use crate::mapper::LayerMapper;

verus! {

broadcast use vstd::std_specs::hash::group_hash_axioms;

/// Thresholds of the state machines, in microseconds.
#[derive(Clone, Copy, Debug)]
pub struct SMKeyboardSettings {
    /// When a hold or eager hold key commits to `hold`.
    pub hold_ksm_delay: u64,
    /// Retap window of a double tap key.
    pub dt_retap_delay: u64,
    /// When a double tap key gives up waiting for the first release.
    pub dt_hold_delay: u64,
    /// Retap window of a double tap hold key.
    pub dth_retap_delay: u64,
    /// When a double tap hold key commits to `hold`.
    pub dth_hold_delay: u64,
}

impl Default for SMKeyboardSettings {
    fn default() -> (r: Self)
        ensures
            r.hold_ksm_delay == 750_000,
            r.dt_retap_delay == 100_000,
            r.dt_hold_delay == 100_000,
            r.dth_retap_delay == 100_000,
            r.dth_hold_delay == 100_000,
    {
        SMKeyboardSettings {
            hold_ksm_delay: 750_000,
            dt_retap_delay: 100_000,
            dt_hold_delay: 100_000,
            dth_retap_delay: 100_000,
            dth_hold_delay: 100_000,
        }
    }
}

/// The layer that key lookups use: the top of the stack, or the default
/// layer when the stack is empty.
pub open spec fn active_layer(stack: Seq<LayerId>, default_layer: LayerId) -> LayerId {
    if stack.len() > 0 {
        stack.last()
    } else {
        default_layer
    }
}

/// The stack without its topmost occurrence of `layer` (unchanged if there
/// is none).
pub open spec fn remove_topmost(stack: Seq<LayerId>, layer: LayerId) -> Seq<LayerId>
    decreases stack.len(),
{
    if stack.len() == 0 {
        stack
    } else if stack.last() == layer {
        stack.drop_last()
    } else {
        remove_topmost(stack.drop_last(), layer).push(stack.last())
    }
}

/// The layer stack after one action.
pub open spec fn apply_to_stack<T>(stack: Seq<LayerId>, action: KeyAction<T>) -> Seq<LayerId> {
    match action {
        KeyAction::PushLayer(l) => stack.push(l),
        KeyAction::PopLayer(l) => remove_topmost(stack, l),
        _ => stack,
    }
}

/// The output that one action yields.
pub open spec fn output_of<T>(action: KeyAction<T>) -> Seq<Action<T>> {
    match action {
        KeyAction::SendKey(t) => seq![Action::SendCode(t)],
        KeyAction::StopKey(t) => seq![Action::Stop(t)],
        _ => seq![],
    }
}

/// The layer stack after a sequence of actions, applied in order.
pub open spec fn stack_after<T>(stack: Seq<LayerId>, actions: Seq<KeyAction<T>>) -> Seq<LayerId>
    decreases actions.len(),
{
    if actions.len() == 0 {
        stack
    } else {
        apply_to_stack(stack_after(stack, actions.drop_last()), actions.last())
    }
}

/// The output of a sequence of actions, in order.
pub open spec fn outputs_of<T>(actions: Seq<KeyAction<T>>) -> Seq<Action<T>>
    decreases actions.len(),
{
    if actions.len() == 0 {
        seq![]
    } else {
        outputs_of(actions.drop_last()) + output_of(actions.last())
    }
}

/// The members of a sequence of action sets, in order.
pub open spec fn flatten<T>(sets: Seq<KeyActionSet<T>>) -> Seq<KeyAction<T>>
    decreases sets.len(),
{
    if sets.len() == 0 {
        seq![]
    } else {
        flatten(sets.drop_last()) + sets.last().actions()
    }
}

/// An action set that may be absent, as a sequence.
pub open spec fn opt_seq<A>(o: Option<A>) -> Seq<A> {
    match o {
        Some(a) => seq![a],
        None => seq![],
    }
}

/// The machines after each key of `order`, in turn, has had its machine
/// stepped on the event, and the action sets emitted meanwhile.
pub open spec fn broadcast<T: Copy>(
    machines: Map<KeyId, Machine<T>>,
    order: Seq<KeyId>,
    event: Event<KeyId>,
    now: u64,
) -> (Map<KeyId, Machine<T>>, Seq<KeyActionSet<T>>)
    decreases order.len(),
{
    if order.len() == 0 {
        (machines, seq![])
    } else {
        let (ms, pending) = broadcast(machines, order.drop_last(), event, now);
        let k = order.last();
        let (m, out) = ms[k].next(event, now);
        (ms.insert(k, m), pending + opt_seq(out))
    }
}

/// The cleanup action sets of the finished machines, in the order of `order`.
pub open spec fn cleanups<T: Copy>(machines: Map<KeyId, Machine<T>>, order: Seq<KeyId>) -> Seq<
    KeyActionSet<T>,
>
    decreases order.len(),
{
    if order.len() == 0 {
        seq![]
    } else {
        let k = order.last();
        cleanups(machines, order.drop_last()) + if machines[k].finished() {
            machines[k].cleanup()
        } else {
            seq![]
        }
    }
}

/// The keys of `order` whose machines are not finished.
pub open spec fn live_keys<T: Copy>(machines: Map<KeyId, Machine<T>>, order: Seq<KeyId>) -> Seq<KeyId>
    decreases order.len(),
{
    if order.len() == 0 {
        seq![]
    } else {
        let k = order.last();
        let rest = live_keys(machines, order.drop_last());
        if machines[k].finished() {
            rest
        } else {
            rest.push(k)
        }
    }
}

/// The machines that are not finished.
pub open spec fn live_machines<T: Copy>(machines: Map<KeyId, Machine<T>>) -> Map<KeyId, Machine<T>> {
    Map::new(|k: KeyId| machines.contains_key(k) && !machines[k].finished(), |k: KeyId| machines[k])
}

/// The machine that a configuration gives a key.
pub open spec fn machine_for<T: Copy>(
    key: KeyId,
    conf: KeyConf<T>,
    settings: SMKeyboardSettings,
) -> Machine<T> {
    match conf {
        KeyConf::Tap(c) => Machine::Tap(TapKSM::initial(key, c)),
        KeyConf::Hold(c) => Machine::Hold(HoldKSM::initial(settings.hold_ksm_delay, key, c)),
        KeyConf::EagerHold(c) => Machine::EagerHold(
            EagerHoldKSM::initial(settings.hold_ksm_delay, key, c),
        ),
        KeyConf::DoubleTap(c) => Machine::DoubleTap(
            DoubleTapKSM::initial(settings.dt_retap_delay, settings.dt_hold_delay, key, c),
        ),
        KeyConf::DoubleTapHold(c) => Machine::DoubleTapHold(
            DoubleTapHoldKSM::initial(settings.dth_hold_delay, settings.dth_retap_delay, key, c),
        ),
    }
}

/// What a keyboard holds between events.
pub struct KbState<T> {
    pub layer_stack: Seq<LayerId>,
    pub machines: Map<KeyId, Machine<T>>,
    pub order: Seq<KeyId>,
}

/// The machines and creation order after a possible machine creation: on a
/// press of a key with no machine, a machine is made from the key's
/// configuration on the active layer, if it has one.
pub open spec fn created_from<T: Copy, Mapper: LayerMapper<T>>(
    st: KbState<T>,
    mapper: Mapper,
    default_layer: LayerId,
    settings: SMKeyboardSettings,
    event: Event<KeyId>,
) -> (Map<KeyId, Machine<T>>, Seq<KeyId>) {
    match event {
        Event::KeyPress(k) => {
            if st.machines.contains_key(k) {
                (st.machines, st.order)
            } else {
                match mapper.conf_of(active_layer(st.layer_stack, default_layer), k) {
                    Some(c) => (st.machines.insert(k, machine_for(k, c, settings)), st.order.push(k)),
                    None => (st.machines, st.order),
                }
            }
        },
        _ => (st.machines, st.order),
    }
}

/// The state after an event at time `now`, and the actions it yields.
pub open spec fn step_from<T: Copy, Mapper: LayerMapper<T>>(
    st: KbState<T>,
    mapper: Mapper,
    default_layer: LayerId,
    settings: SMKeyboardSettings,
    event: Event<KeyId>,
    now: u64,
) -> (KbState<T>, Seq<Action<T>>) {
    let (ms0, order) = created_from(st, mapper, default_layer, settings, event);
    let (ms1, emitted) = broadcast(ms0, order, event, now);
    let actions = flatten(emitted + cleanups(ms1, order));
    (
        KbState {
            layer_stack: stack_after(st.layer_stack, actions),
            machines: live_machines(ms1),
            order: live_keys(ms1, order),
        },
        outputs_of(actions),
    )
}

/// Popping a layer right after pushing it leaves the stack as it was.
pub proof fn lemma_pop_after_push(stack: Seq<LayerId>, layer: LayerId)
    ensures
        remove_topmost(stack.push(layer), layer) == stack,
{
    assert(stack.push(layer).drop_last() =~= stack);
}

proof fn lemma_stack_after_append<T>(
    stack: Seq<LayerId>,
    xs: Seq<KeyAction<T>>,
    ys: Seq<KeyAction<T>>,
)
    ensures
        stack_after(stack, xs + ys) == stack_after(stack_after(stack, xs), ys),
    decreases ys.len(),
{
    if ys.len() == 0 {
        assert(xs + ys =~= xs);
    } else {
        assert((xs + ys).drop_last() =~= xs + ys.drop_last());
        lemma_stack_after_append(stack, xs, ys.drop_last());
    }
}

/// Actions that leave the layer stack alone: codes and `NoOp`.
pub open spec fn no_layer_actions<T>(actions: Seq<KeyAction<T>>) -> bool {
    forall|i: int| 0 <= i < actions.len() ==> !(#[trigger] actions[i] is PushLayer) && !(
    actions[i] is PopLayer)
}

proof fn lemma_no_layer_actions_keep_stack<T>(stack: Seq<LayerId>, actions: Seq<KeyAction<T>>)
    requires
        no_layer_actions(actions),
    ensures
        stack_after(stack, actions) == stack,
    decreases actions.len(),
{
    if actions.len() > 0 {
        assert(no_layer_actions(actions.drop_last()));
        lemma_no_layer_actions_keep_stack(stack, actions.drop_last());
        assert(actions.last() == actions[actions.len() - 1]);
    }
}

/// A `PushLayer(l)` followed by a matching `PopLayer(l)`, with no other layer
/// action between them, leaves the layer stack, and so the active layer, as
/// it was before the push.
pub proof fn lemma_push_pop_restores_layer<T>(
    stack: Seq<LayerId>,
    default_layer: LayerId,
    layer: LayerId,
    between: Seq<KeyAction<T>>,
)
    requires
        no_layer_actions(between),
    ensures
        stack_after(
            stack,
            seq![KeyAction::PushLayer(layer)] + between + seq![KeyAction::PopLayer(layer)],
        ) == stack,
        active_layer(
            stack_after(
                stack,
                seq![KeyAction::PushLayer(layer)] + between + seq![KeyAction::PopLayer(layer)],
            ),
            default_layer,
        ) == active_layer(stack, default_layer),
{
    let push = seq![KeyAction::<T>::PushLayer(layer)];
    let pop = seq![KeyAction::<T>::PopLayer(layer)];
    lemma_stack_after_append(stack, push + between, pop);
    lemma_stack_after_append(stack, push, between);
    assert(push.drop_last() =~= Seq::<KeyAction<T>>::empty());
    assert(stack_after(stack, push.drop_last()) == stack);
    assert(push.last() == KeyAction::<T>::PushLayer(layer));
    assert(stack_after(stack, push) == stack.push(layer));
    lemma_no_layer_actions_keep_stack(stack.push(layer), between);
    assert(pop.drop_last() =~= Seq::<KeyAction<T>>::empty());
    assert(stack_after(stack.push(layer), pop.drop_last()) == stack.push(layer));
    assert(pop.last() == KeyAction::<T>::PopLayer(layer));
    assert(stack_after(stack.push(layer), pop) == remove_topmost(stack.push(layer), layer));
    lemma_pop_after_push(stack, layer);
}

pub proof fn lemma_live_keys<T: Copy>(machines: Map<KeyId, Machine<T>>, order: Seq<KeyId>)
    requires
        order.no_duplicates(),
    ensures
        live_keys(machines, order).no_duplicates(),
        forall|k: KeyId| #[trigger]
            live_keys(machines, order).contains(k) <==> order.contains(k)
                && !machines[k].finished(),
    decreases order.len(),
{
    if order.len() > 0 {
        let rest = order.drop_last();
        let k0 = order.last();
        assert(rest.no_duplicates()) by {
            assert forall|a: int, b: int| 0 <= a < b < rest.len() implies rest[a] != rest[b] by {
                assert(rest[a] == order[a] && rest[b] == order[b]);
            }
        }
        lemma_live_keys(machines, rest);
        assert(!rest.contains(k0)) by {
            if rest.contains(k0) {
                let j = choose|j: int| 0 <= j < rest.len() && rest[j] == k0;
                assert(order[j] == order[order.len() - 1]);
            }
        }
        assert forall|k: KeyId| #[trigger] order.contains(k) <==> (rest.contains(k) || k == k0) by {
            if order.contains(k) {
                let j = choose|j: int| 0 <= j < order.len() && order[j] == k;
                if j < order.len() - 1 {
                    assert(rest[j] == k);
                }
            }
            if rest.contains(k) {
                let j = choose|j: int| 0 <= j < rest.len() && rest[j] == k;
                assert(order[j] == k);
            }
            if k == k0 {
                assert(order[order.len() - 1] == k);
            }
        }
        let lr = live_keys(machines, rest);
        if !machines[k0].finished() {
            let l = lr.push(k0);
            assert forall|k: KeyId| #[trigger] l.contains(k) <==> (lr.contains(k) || k == k0) by {
                if l.contains(k) {
                    let j = choose|j: int| 0 <= j < l.len() && l[j] == k;
                    if j < l.len() - 1 {
                        assert(lr[j] == k);
                    }
                }
                if lr.contains(k) {
                    let j = choose|j: int| 0 <= j < lr.len() && lr[j] == k;
                    assert(l[j] == k);
                }
                if k == k0 {
                    assert(l[l.len() - 1] == k);
                }
            }
            assert forall|a: int, b: int| 0 <= a < b < l.len() implies l[a] != l[b] by {
                if b == l.len() - 1 {
                    assert(lr.contains(l[a]));
                }
            }
        }
    }
}

/// A keyboard whose keys activate through state machines.
pub struct SMKeyboard<T, Mapper> {
    default_layer: LayerId,
    layer_mapper: Mapper,
    layer_stack: Vec<LayerId>,
    state_machines: HashMap<KeyId, Machine<T>>,
    state_machine_order: Vec<KeyId>,
    settings: SMKeyboardSettings,
}

impl<T: Copy, Mapper: LayerMapper<T>> SMKeyboard<T, Mapper> {
    pub closed spec fn state(&self) -> KbState<T> {
        KbState {
            layer_stack: self.layer_stack@,
            machines: self.state_machines@,
            order: self.state_machine_order@,
        }
    }

    pub closed spec fn default_layer(&self) -> LayerId {
        self.default_layer
    }

    pub closed spec fn mapper(&self) -> Mapper {
        self.layer_mapper
    }

    pub closed spec fn settings(&self) -> SMKeyboardSettings {
        self.settings
    }

    /// A keyboard with no live machine and an empty layer stack.
    pub fn new(default_layer: LayerId, layer_mapper: Mapper, settings: SMKeyboardSettings) -> (r:
        Self)
        ensures
            r.state().layer_stack == Seq::<LayerId>::empty(),
            r.state().machines == Map::<KeyId, Machine<T>>::empty(),
            r.state().order == Seq::<KeyId>::empty(),
            r.default_layer() == default_layer,
            r.mapper() == layer_mapper,
            r.settings() == settings,
            r.well_formed(),
    {
        let r = SMKeyboard {
            settings,
            default_layer,
            layer_mapper,
            state_machines: HashMap::new(),
            layer_stack: Vec::new(),
            state_machine_order: Vec::new(),
        };
        proof {
            assert(r.state_machine_order@.no_duplicates());
        }
        r
    }

    /// The layer that key lookups use now.
    pub fn get_active_layer(&self) -> (r: LayerId)
        ensures
            r == active_layer(self.state().layer_stack, self.default_layer()),
    {
        let n: usize = self.layer_stack.len();
        if n > 0 {
            self.layer_stack[n - 1]
        } else {
            self.default_layer
        }
    }

    /// The layer stack, bottom first.
    pub fn get_layer_stack(&self) -> (r: &[LayerId])
        ensures
            r@ == self.state().layer_stack,
    {
        self.layer_stack.as_slice()
    }

    /// Whether a live machine watches `key_id`.
    pub fn has_machine(&self, key_id: KeyId) -> (r: bool)
        ensures
            r == self.state().machines.contains_key(key_id),
    {
        self.state_machines.contains_key(&key_id)
    }

    /// The number of live machines.
    pub fn machine_count(&self) -> (r: usize)
        ensures
            r == self.state().order.len(),
    {
        self.state_machine_order.len()
    }

    /// Removes the topmost occurrence of `layer` from the layer stack.
    fn pop_layer(&mut self, layer: LayerId)
        ensures
            final(self).layer_stack@ == remove_topmost(old(self).layer_stack@, layer),
            final(self).state_machines == old(self).state_machines,
            final(self).state_machine_order == old(self).state_machine_order,
            final(self).default_layer == old(self).default_layer,
            final(self).layer_mapper == old(self).layer_mapper,
            final(self).settings == old(self).settings,
    {
        let ghost s = self.layer_stack@;
        let mut i: usize = self.layer_stack.len();
        proof {
            assert(s.take(s.len() as int) =~= s);
            assert(remove_topmost(s, layer) + s.skip(s.len() as int) =~= remove_topmost(s, layer));
        }
        while i > 0
            invariant
                i <= s.len(),
                *self == *old(self),
                self.layer_stack@ == s,
                remove_topmost(s, layer) == remove_topmost(s.take(i as int), layer) + s.skip(
                    i as int,
                ),
            decreases i,
        {
            if self.layer_stack[i - 1] == layer {
                proof {
                    let p = s.take(i as int);
                    assert(p.last() == layer);
                    assert(p.drop_last() =~= s.take(i - 1));
                    assert(remove_topmost(p, layer) == s.take(i - 1));
                    assert(s.take(i - 1) + s.skip(i as int) =~= s.remove(i - 1));
                }
                self.layer_stack.remove(i - 1);
                return;
            }
            proof {
                let p = s.take(i as int);
                assert(p.last() != layer);
                assert(p.drop_last() =~= s.take(i - 1));
                assert(remove_topmost(p, layer) == remove_topmost(s.take(i - 1), layer).push(
                    s[i - 1],
                ));
                assert(remove_topmost(s.take(i - 1), layer).push(s[i - 1]) + s.skip(i as int)
                    =~= remove_topmost(s.take(i - 1), layer) + s.skip(i - 1));
            }
            i = i - 1;
        }
        proof {
            assert(s.take(0) =~= Seq::<LayerId>::empty());
            assert(s.skip(0) =~= s);
        }
    }

    /// Applies one action to the layer stack and returns the output it yields.
    fn handle_key_action(&mut self, key_action: &KeyAction<T>) -> (r: Option<Action<T>>)
        ensures
            final(self).layer_stack@ == apply_to_stack(old(self).layer_stack@, *key_action),
            opt_seq(r) == output_of(*key_action),
            final(self).state_machines == old(self).state_machines,
            final(self).state_machine_order == old(self).state_machine_order,
            final(self).default_layer == old(self).default_layer,
            final(self).layer_mapper == old(self).layer_mapper,
            final(self).settings == old(self).settings,
    {
        match key_action {
            KeyAction::SendKey(data) => Some(Action::SendCode(*data)),
            KeyAction::StopKey(data) => Some(Action::Stop(*data)),
            KeyAction::PushLayer(layer_id) => {
                self.layer_stack.push(*layer_id);
                None
            },
            KeyAction::PopLayer(layer_id) => {
                self.pop_layer(*layer_id);
                None
            },
            KeyAction::NoOp => None,
        }
    }

    /// The machine that a configuration gives a key.
    fn build_machine(&self, key_id: KeyId, key_conf: KeyConf<T>) -> (r: Machine<T>)
        ensures
            r == machine_for(key_id, key_conf, self.settings),
            r.watched() == key_id,
            !r.finished(),
    {
        match key_conf {
            KeyConf::Tap(conf) => Machine::Tap(TapKSM::new(key_id, conf)),
            KeyConf::Hold(conf) => Machine::Hold(
                HoldKSM::new(self.settings.hold_ksm_delay, key_id, conf),
            ),
            KeyConf::EagerHold(conf) => Machine::EagerHold(
                EagerHoldKSM::new(self.settings.hold_ksm_delay, key_id, conf),
            ),
            KeyConf::DoubleTap(conf) => Machine::DoubleTap(
                DoubleTapKSM::new(
                    self.settings.dt_retap_delay,
                    self.settings.dt_hold_delay,
                    key_id,
                    conf,
                ),
            ),
            KeyConf::DoubleTapHold(conf) => Machine::DoubleTapHold(
                DoubleTapHoldKSM::new(
                    self.settings.dth_hold_delay,
                    self.settings.dth_retap_delay,
                    key_id,
                    conf,
                ),
            ),
        }
    }

    /// The machines and creation order after a possible machine creation.
    pub open spec fn created(&self, event: Event<KeyId>) -> (Map<KeyId, Machine<T>>, Seq<KeyId>) {
        created_from(self.state(), self.mapper(), self.default_layer(), self.settings(), event)
    }

    /// The state after an event, and the actions it yields.
    pub open spec fn step(&self, event: Event<KeyId>, now: u64) -> (KbState<T>, Seq<Action<T>>) {
        step_from(self.state(), self.mapper(), self.default_layer(), self.settings(), event, now)
    }

    /// Machines of the creation order, each keyed by the key it watches.
    pub open spec fn machines_match_order(
        machines: Map<KeyId, Machine<T>>,
        order: Seq<KeyId>,
    ) -> bool {
        &&& order.no_duplicates()
        &&& forall|k: KeyId| machines.contains_key(k) <==> order.contains(k)
        &&& forall|k: KeyId| #[trigger] machines.contains_key(k) ==> machines[k].watched() == k
    }

    /// Creates a machine for a pressed key that has none, if the key is mapped.
    fn handle_key_press_event(&mut self, event: &Event<KeyId>)
        requires
            Self::machines_match_order(old(self).state().machines, old(self).state().order),
            forall|k: KeyId| #[trigger]
                old(self).state().machines.contains_key(k) ==> !old(self).state().machines[k].finished(),
        ensures
            (final(self).state().machines, final(self).state().order) == old(self).created(*event),
            final(self).state().layer_stack == old(self).state().layer_stack,
            final(self).default_layer == old(self).default_layer,
            final(self).layer_mapper == old(self).layer_mapper,
            final(self).settings == old(self).settings,
            Self::machines_match_order(final(self).state().machines, final(self).state().order),
            forall|k: KeyId| #[trigger]
                final(self).state().machines.contains_key(k) ==> !final(self).state().machines[k].finished(),
    {
        if let Event::KeyPress(key_id) = event {
            if !self.state_machines.contains_key(key_id) {
                let layer: LayerId = self.get_active_layer();
                if let Some(conf) = self.layer_mapper.get_conf(&layer, key_id) {
                    let machine = self.build_machine(*key_id, conf);
                    proof {
                        assert(!self.state_machine_order@.contains(*key_id));
                    }
                    self.state_machines.insert(*key_id, machine);
                    self.state_machine_order.push(*key_id);
                    proof {
                        let o = self.state_machine_order@;
                        assert forall|k: KeyId| #[trigger] o.contains(k) <==> (old(
                            self,
                        ).state_machine_order@.contains(k) || k == *key_id) by {
                            if o.contains(k) {
                                let j = choose|j: int| 0 <= j < o.len() && o[j] == k;
                                if j < o.len() - 1 {
                                    assert(old(self).state_machine_order@[j] == k);
                                }
                            }
                            if k == *key_id {
                                assert(o[o.len() - 1] == k);
                            }
                            if old(self).state_machine_order@.contains(k) {
                                let j = choose|j: int|
                                    0 <= j < old(self).state_machine_order@.len()
                                        && old(self).state_machine_order@[j] == k;
                                assert(o[j] == k);
                            }
                        }
                    }
                }
            }
        }
    }
}

impl<T: Copy, Mapper: LayerMapper<T>> SMKeyboard<T, Mapper> {
    /// Steps every machine, in creation order, on the event; returns the
    /// action sets they emit, in order.
    fn step_machines(&mut self, event: &Event<KeyId>, now: u64) -> (r: Vec<KeyActionSet<T>>)
        requires
            Self::machines_match_order(old(self).state().machines, old(self).state().order),
        ensures
            (final(self).state().machines, r@) == broadcast(
                old(self).state().machines,
                old(self).state().order,
                *event,
                now,
            ),
            final(self).state().order == old(self).state().order,
            final(self).state().layer_stack == old(self).state().layer_stack,
            final(self).default_layer == old(self).default_layer,
            final(self).layer_mapper == old(self).layer_mapper,
            final(self).settings == old(self).settings,
            Self::machines_match_order(final(self).state().machines, final(self).state().order),
    {
        let ghost ms0 = self.state_machines@;
        let ghost order = self.state_machine_order@;
        let mut pending: Vec<KeyActionSet<T>> = Vec::new();
        let n: usize = self.state_machine_order.len();
        let mut i: usize = 0;
        proof {
            assert(order.take(0) =~= Seq::<KeyId>::empty());
        }
        while i < n
            invariant
                n == order.len(),
                0 <= i <= n,
                self.state_machine_order@ == order,
                self.layer_stack == old(self).layer_stack,
                self.default_layer == old(self).default_layer,
                self.layer_mapper == old(self).layer_mapper,
                self.settings == old(self).settings,
                Self::machines_match_order(ms0, order),
                (self.state_machines@, pending@) == broadcast(ms0, order.take(i as int), *event, now),
                self.state_machines@.dom() == ms0.dom(),
                forall|k: KeyId| #[trigger]
                    self.state_machines@.contains_key(k) ==> self.state_machines@[k].watched() == k,
            decreases n - i,
        {
            let key_id: KeyId = self.state_machine_order[i];
            let ghost before = self.state_machines@;
            proof {
                assert(order.take(i + 1).drop_last() =~= order.take(i as int));
                assert(order.take(i + 1).last() == key_id);
                assert(order.contains(key_id));
                assert(before.contains_key(key_id));
            }
            let removed = self.state_machines.remove(&key_id);
            match removed {
                Some(mut machine) => {
                    proof {
                        machine.lemma_next_keeps(*event, now);
                    }
                    let out = machine.transition(event, now);
                    self.state_machines.insert(key_id, machine);
                    proof {
                        assert(self.state_machines@ =~= before.insert(key_id, machine));
                    }
                    match out {
                        Some(set) => {
                            pending.push(set);
                        },
                        None => {},
                    }
                    proof {
                        let (bm, bp) = broadcast(ms0, order.take(i as int), *event, now);
                        assert(pending@ =~= bp + opt_seq(out));
                    }
                },
                None => {
                    proof {
                        assert(false);
                    }
                },
            }
            i = i + 1;
        }
        proof {
            assert(order.take(n as int) =~= order);
        }
        pending
    }

    /// Appends the cleanup action sets of the finished machines, in creation
    /// order.
    fn collect_cleanups(&self, pending: &mut Vec<KeyActionSet<T>>)
        requires
            forall|k: KeyId|
                self.state_machine_order@.contains(k) ==> #[trigger] self.state_machines@.contains_key(k),
        ensures
            final(pending)@ == old(pending)@ + cleanups(self.state().machines, self.state().order),
    {
        let ghost base = pending@;
        let ghost ms = self.state_machines@;
        let ghost order = self.state_machine_order@;
        let n: usize = self.state_machine_order.len();
        let mut i: usize = 0;
        proof {
            assert(order.take(0) =~= Seq::<KeyId>::empty());
            assert(base + Seq::<KeyActionSet<T>>::empty() =~= base);
        }
        while i < n
            invariant
                n == order.len(),
                0 <= i <= n,
                self.state_machine_order@ == order,
                self.state_machines@ == ms,
                forall|k: KeyId| order.contains(k) ==> #[trigger] ms.contains_key(k),
                pending@ == base + cleanups(ms, order.take(i as int)),
            decreases n - i,
        {
            let key_id: KeyId = self.state_machine_order[i];
            proof {
                assert(order.take(i + 1).drop_last() =~= order.take(i as int));
                assert(order.take(i + 1).last() == key_id);
                assert(order.contains(key_id));
            }
            let ghost mid = pending@;
            match self.state_machines.get(&key_id) {
                Some(machine) => {
                    if machine.is_finished() {
                        let cleanup = machine.get_cleanup_actions();
                        let mut j: usize = 0;
                        proof {
                            assert(mid + cleanup@.take(0) =~= mid);
                        }
                        while j < cleanup.len()
                            invariant
                                0 <= j <= cleanup.len(),
                                pending@ == mid + cleanup@.take(j as int),
                            decreases cleanup.len() - j,
                        {
                            pending.push(cleanup[j]);
                            proof {
                                assert(mid + cleanup@.take(j + 1) =~= (mid + cleanup@.take(
                                    j as int,
                                )).push(cleanup@[j as int]));
                            }
                            j = j + 1;
                        }
                        proof {
                            assert(cleanup@.take(cleanup.len() as int) =~= cleanup@);
                            assert(pending@ =~= base + cleanups(ms, order.take(i as int))
                                + machine.cleanup());
                        }
                    } else {
                        proof {
                            assert(pending@ =~= base + cleanups(ms, order.take(i as int)) + seq![]);
                        }
                    }
                },
                None => {
                    proof {
                        assert(false);
                    }
                },
            }
            proof {
                assert(pending@ =~= base + cleanups(ms, order.take(i + 1)));
            }
            i = i + 1;
        }
        proof {
            assert(order.take(n as int) =~= order);
        }
    }

    /// Applies the actions of the sets in order and returns the outputs.
    fn apply_actionsets(&mut self, pending: &Vec<KeyActionSet<T>>) -> (r: Vec<Action<T>>)
        ensures
            final(self).layer_stack@ == stack_after(old(self).layer_stack@, flatten(pending@)),
            r@ == outputs_of(flatten(pending@)),
            final(self).state_machines == old(self).state_machines,
            final(self).state_machine_order == old(self).state_machine_order,
            final(self).default_layer == old(self).default_layer,
            final(self).layer_mapper == old(self).layer_mapper,
            final(self).settings == old(self).settings,
    {
        let ghost stack0 = self.layer_stack@;
        let mut out: Vec<Action<T>> = Vec::new();
        let mut i: usize = 0;
        proof {
            assert(pending@.take(0) =~= Seq::<KeyActionSet<T>>::empty());
        }
        while i < pending.len()
            invariant
                0 <= i <= pending.len(),
                self.layer_stack@ == stack_after(stack0, flatten(pending@.take(i as int))),
                out@ == outputs_of(flatten(pending@.take(i as int))),
                self.state_machines == old(self).state_machines,
                self.state_machine_order == old(self).state_machine_order,
                self.default_layer == old(self).default_layer,
                self.layer_mapper == old(self).layer_mapper,
                self.settings == old(self).settings,
            decreases pending.len() - i,
        {
            let ghost done = flatten(pending@.take(i as int));
            let acts = pending[i].get_actions();
            let mut j: usize = 0;
            proof {
                assert(done + acts@.take(0) =~= done);
            }
            while j < acts.len()
                invariant
                    0 <= j <= acts.len(),
                    self.layer_stack@ == stack_after(stack0, done + acts@.take(j as int)),
                    out@ == outputs_of(done + acts@.take(j as int)),
                    self.state_machines == old(self).state_machines,
                    self.state_machine_order == old(self).state_machine_order,
                    self.default_layer == old(self).default_layer,
                    self.layer_mapper == old(self).layer_mapper,
                    self.settings == old(self).settings,
                decreases acts.len() - j,
            {
                let ghost xs = done + acts@.take(j + 1);
                proof {
                    assert(xs.drop_last() =~= done + acts@.take(j as int));
                    assert(xs.last() == acts@[j as int]);
                }
                let produced = self.handle_key_action(&acts[j]);
                match produced {
                    Some(action) => {
                        out.push(action);
                    },
                    None => {},
                }
                proof {
                    assert(out@ =~= outputs_of(xs.drop_last()) + output_of(xs.last()));
                }
                j = j + 1;
            }
            proof {
                let p = pending@.take(i + 1);
                assert(p.drop_last() =~= pending@.take(i as int));
                assert(p.last() == pending@[i as int]);
                assert(acts@.take(acts.len() as int) =~= acts@);
            }
            i = i + 1;
        }
        proof {
            assert(pending@.take(pending.len() as int) =~= pending@);
        }
        out
    }

    /// Drops the finished machines, keeping the creation order of the others.
    fn drop_finished_machines(&mut self)
        requires
            Self::machines_match_order(old(self).state().machines, old(self).state().order),
        ensures
            final(self).state().machines == live_machines(old(self).state().machines),
            final(self).state().order == live_keys(old(self).state().machines, old(self).state().order),
            final(self).layer_stack == old(self).layer_stack,
            final(self).default_layer == old(self).default_layer,
            final(self).layer_mapper == old(self).layer_mapper,
            final(self).settings == old(self).settings,
    {
        let ghost ms = self.state_machines@;
        let ghost order = self.state_machine_order@;
        let n: usize = self.state_machine_order.len();
        let mut kept: Vec<KeyId> = Vec::new();
        let mut i: usize = 0;
        proof {
            assert(order.take(0) =~= Seq::<KeyId>::empty());
            assert(self.state_machines@ =~= Map::new(
                |k: KeyId| ms.contains_key(k) && !(order.take(0).contains(k) && ms[k].finished()),
                |k: KeyId| ms[k],
            ));
        }
        while i < n
            invariant
                n == order.len(),
                0 <= i <= n,
                self.state_machine_order@ == order,
                self.layer_stack == old(self).layer_stack,
                self.default_layer == old(self).default_layer,
                self.layer_mapper == old(self).layer_mapper,
                self.settings == old(self).settings,
                Self::machines_match_order(ms, order),
                kept@ == live_keys(ms, order.take(i as int)),
                self.state_machines@ == Map::new(
                    |k: KeyId|
                        ms.contains_key(k) && !(order.take(i as int).contains(k) && ms[k].finished()),
                    |k: KeyId| ms[k],
                ),
            decreases n - i,
        {
            let key_id: KeyId = self.state_machine_order[i];
            let ghost before = self.state_machines@;
            proof {
                assert(order.take(i + 1).drop_last() =~= order.take(i as int));
                assert(order.take(i + 1).last() == key_id);
                assert(order.contains(key_id));
                assert(!order.take(i as int).contains(key_id)) by {
                    if order.take(i as int).contains(key_id) {
                        let t0 = order.take(i as int);
                        let j = choose|j: int| 0 <= j < t0.len() && t0[j] == key_id;
                        assert(order[j] == order[i as int]);
                    }
                }
                assert(before.contains_key(key_id));
            }
            let finished = match self.state_machines.get(&key_id) {
                Some(machine) => machine.is_finished(),
                None => false,
            };
            if finished {
                self.state_machines.remove(&key_id);
            } else {
                kept.push(key_id);
            }
            proof {
                assert forall|k: KeyId| #[trigger] order.take(i + 1).contains(k) <==> (order.take(
                    i as int,
                ).contains(k) || k == key_id) by {
                    if order.take(i + 1).contains(k) {
                        let t1 = order.take(i + 1);
                        let j = choose|j: int| 0 <= j < t1.len() && t1[j] == k;
                        if j < i {
                            assert(order.take(i as int)[j] == k);
                        }
                    }
                    if order.take(i as int).contains(k) {
                        let t0 = order.take(i as int);
                        let j = choose|j: int| 0 <= j < t0.len() && t0[j] == k;
                        assert(order.take(i + 1)[j] == k);
                    }
                    if k == key_id {
                        assert(order.take(i + 1)[i as int] == k);
                    }
                }
                assert(self.state_machines@ =~= Map::new(
                    |k: KeyId| ms.contains_key(k) && !(order.take(i + 1).contains(k) && ms[k].finished()),
                    |k: KeyId| ms[k],
                ));
            }
            i = i + 1;
        }
        proof {
            assert(order.take(n as int) =~= order);
            assert(self.state_machines@ =~= live_machines(ms));
        }
        self.state_machine_order = kept;
    }
}

/// In a well-formed keyboard, which `new` makes and every `transition`
/// keeps, at most one machine watches any key, and the creation order lists
/// each key once.
pub proof fn lemma_one_machine_per_key<T: Copy, Mapper: LayerMapper<T>>(kb: SMKeyboard<T, Mapper>)
    requires
        kb.well_formed(),
    ensures
        forall|k1: KeyId, k2: KeyId|
            #![trigger kb.state().machines[k1], kb.state().machines[k2]]
            kb.state().machines.contains_key(k1) && kb.state().machines.contains_key(k2)
                && kb.state().machines[k1].watched() == kb.state().machines[k2].watched() ==> k1
                == k2,
        kb.state().order.no_duplicates(),
{
}

/// In a well-formed keyboard, which `new` makes and every `transition`
/// keeps, the creation order and the machine map hold the same set of keys.
pub proof fn lemma_order_matches_machines<T: Copy, Mapper: LayerMapper<T>>(
    kb: SMKeyboard<T, Mapper>,
)
    requires
        kb.well_formed(),
    ensures
        kb.state().order.to_set() == kb.state().machines.dom(),
{
    assert(kb.state().order.to_set() =~= kb.state().machines.dom());
}

impl<T: Copy, Mapper: LayerMapper<T>> Keyboard<T> for SMKeyboard<T, Mapper> {
    /// At most one machine per key, each watching its own key, none finished,
    /// and the creation order lists exactly the keys of the machines, once.
    open spec fn well_formed(&self) -> bool {
        let st = self.state();
        &&& Self::machines_match_order(st.machines, st.order)
        &&& forall|k: KeyId| #[trigger] st.machines.contains_key(k) ==> !st.machines[k].finished()
    }

    open spec fn steps_to(
        &self,
        event: Event<KeyId>,
        now: u64,
        post: Self,
        out: Seq<Action<T>>,
    ) -> bool {
        &&& post.state() == self.step(event, now).0
        &&& out == self.step(event, now).1
        &&& post.default_layer() == self.default_layer()
        &&& post.mapper() == self.mapper()
        &&& post.settings() == self.settings()
    }

    fn transition(&mut self, event: Event<KeyId>, now: u64) -> (r: Vec<Action<T>>) {
        let ghost (ms0, order) = self.created(event);
        self.handle_key_press_event(&event);
        let emitted = self.step_machines(&event, now);
        let ghost ms1 = self.state_machines@;
        let mut pending = emitted;
        self.collect_cleanups(&mut pending);
        let actions = self.apply_actionsets(&pending);
        self.drop_finished_machines();
        proof {
            lemma_live_keys(ms1, order);
            let st = self.state();
            assert forall|k: KeyId| st.machines.contains_key(k) <==> st.order.contains(k) by {
                if st.order.contains(k) {
                    assert(ms1.contains_key(k));
                }
            }
        }
        actions
    }
}

} // verus!
