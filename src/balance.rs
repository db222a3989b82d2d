//! Every code the keyboard starts sending, it stops: once no machine is left,
//! the output holds as many `Stop(t)` as `SendCode(t)` for every code `t`.
//!
//! Each machine owes, for each code, the starts minus stops it has emitted and
//! not yet undone. A step changes what a machine owes by what it emits, and
//! the cleanup of a finished machine cancels what it owes; so the output of a
//! run always counts, code by code, what the live machines owe.
use vstd::prelude::*;
use crate::keyboard::{Action, Event};
use crate::keys::{net_action, net_set, opt_net, KeyAction, KeyActionSet, KeyConf, KeyId, LayerId};
use crate::machines::double_tap::DoubleTapKSM;
use crate::machines::double_tap_hold::DoubleTapHoldKSM;
use crate::machines::eager_hold::EagerHoldKSM;
use crate::machines::hold::HoldKSM;
use crate::machines::tap::TapKSM;
use crate::machines::{KeyStateMachine, Machine};
use crate::mapper::LayerMapper;
use crate::sm_keyboard::{
    broadcast,
    cleanups,
    created_from,
    flatten,
    lemma_live_keys,
    live_keys,
    live_machines,
    machine_for,
    opt_seq,
    output_of,
    outputs_of,
    step_from,
    KbState,
    SMKeyboardSettings,
};

verus! {

/// How many times the output starts sending `t`.
pub open spec fn sends_of<T>(out: Seq<Action<T>>, t: T) -> int
    decreases out.len(),
{
    if out.len() == 0 {
        0
    } else {
        sends_of(out.drop_last(), t) + if out.last() == Action::SendCode(t) {
            1int
        } else {
            0int
        }
    }
}

/// How many times the output stops sending `t`.
pub open spec fn stops_of<T>(out: Seq<Action<T>>, t: T) -> int
    decreases out.len(),
{
    if out.len() == 0 {
        0
    } else {
        stops_of(out.drop_last(), t) + if out.last() == Action::Stop(t) {
            1int
        } else {
            0int
        }
    }
}

/// Starts minus stops of `t` in a sequence of actions.
pub open spec fn net_actions<T>(actions: Seq<KeyAction<T>>, t: T) -> int
    decreases actions.len(),
{
    if actions.len() == 0 {
        0
    } else {
        net_actions(actions.drop_last(), t) + net_action(actions.last(), t)
    }
}

/// Starts minus stops of `t` in a sequence of action sets.
pub open spec fn net_sets<T>(sets: Seq<KeyActionSet<T>>, t: T) -> int
    decreases sets.len(),
{
    if sets.len() == 0 {
        0
    } else {
        net_sets(sets.drop_last(), t) + net_set(sets.last(), t)
    }
}

/// What the machines of `order` owe for `t`, together.
pub open spec fn total_owed<T: Copy>(machines: Map<KeyId, Machine<T>>, order: Seq<KeyId>, t: T) -> int
    decreases order.len(),
{
    if order.len() == 0 {
        0
    } else {
        total_owed(machines, order.drop_last(), t) + machines[order.last()].owed(t)
    }
}

proof fn lemma_counts_append<T>(a: Seq<Action<T>>, b: Seq<Action<T>>, t: T)
    ensures
        sends_of(a + b, t) == sends_of(a, t) + sends_of(b, t),
        stops_of(a + b, t) == stops_of(a, t) + stops_of(b, t),
    decreases b.len(),
{
    if b.len() == 0 {
        assert(a + b =~= a);
    } else {
        assert((a + b).drop_last() =~= a + b.drop_last());
        assert((a + b).last() == b.last());
        lemma_counts_append(a, b.drop_last(), t);
    }
}

proof fn lemma_outputs_of_append<T>(xs: Seq<KeyAction<T>>, ys: Seq<KeyAction<T>>)
    ensures
        outputs_of(xs + ys) == outputs_of(xs) + outputs_of(ys),
    decreases ys.len(),
{
    if ys.len() == 0 {
        assert(xs + ys =~= xs);
        assert(outputs_of(xs) + outputs_of(ys) =~= outputs_of(xs));
    } else {
        assert((xs + ys).drop_last() =~= xs + ys.drop_last());
        assert((xs + ys).last() == ys.last());
        lemma_outputs_of_append(xs, ys.drop_last());
        assert(outputs_of(xs) + outputs_of(ys.drop_last()) + output_of(ys.last()) =~= outputs_of(
            xs,
        ) + (outputs_of(ys.drop_last()) + output_of(ys.last())));
    }
}

proof fn lemma_output_of_net<T>(a: KeyAction<T>, t: T)
    ensures
        sends_of(output_of(a), t) - stops_of(output_of(a), t) == net_action(a, t),
{
    let o = output_of(a);
    assert(sends_of(Seq::<Action<T>>::empty(), t) == 0);
    assert(stops_of(Seq::<Action<T>>::empty(), t) == 0);
    if o.len() == 1 {
        assert(o.drop_last() =~= Seq::<Action<T>>::empty());
        assert(o.last() == o[0]);
    }
}

proof fn lemma_outputs_net_actions<T>(actions: Seq<KeyAction<T>>, t: T)
    ensures
        sends_of(outputs_of(actions), t) - stops_of(outputs_of(actions), t) == net_actions(
            actions,
            t,
        ),
    decreases actions.len(),
{
    if actions.len() > 0 {
        lemma_outputs_net_actions(actions.drop_last(), t);
        lemma_counts_append(outputs_of(actions.drop_last()), output_of(actions.last()), t);
        lemma_output_of_net(actions.last(), t);
    }
}

proof fn lemma_net_actions_of_set<T>(s: KeyActionSet<T>, t: T)
    ensures
        net_actions(s.actions(), t) == net_set(s, t),
{
    let a = s.actions();
    assert(net_actions(Seq::<KeyAction<T>>::empty(), t) == 0);
    if a.len() >= 1 {
        assert(a.take(1).drop_last() =~= Seq::<KeyAction<T>>::empty());
        assert(a.take(1).last() == a[0]);
        assert(net_actions(a.take(1), t) == net_action(a[0], t));
    }
    if a.len() >= 2 {
        assert(a.take(2).drop_last() =~= a.take(1));
        assert(a.take(2).last() == a[1]);
        assert(net_actions(a.take(2), t) == net_action(a[0], t) + net_action(a[1], t));
    }
    if a.len() == 3 {
        assert(a.take(3).drop_last() =~= a.take(2));
        assert(a.take(3).last() == a[2]);
        assert(a.take(3) =~= a);
    }
    if a.len() == 2 {
        assert(a.take(2) =~= a);
    }
    if a.len() == 1 {
        assert(a.take(1) =~= a);
    }
}

proof fn lemma_net_actions_append<T>(xs: Seq<KeyAction<T>>, ys: Seq<KeyAction<T>>, t: T)
    ensures
        net_actions(xs + ys, t) == net_actions(xs, t) + net_actions(ys, t),
    decreases ys.len(),
{
    if ys.len() == 0 {
        assert(xs + ys =~= xs);
    } else {
        assert((xs + ys).drop_last() =~= xs + ys.drop_last());
        assert((xs + ys).last() == ys.last());
        lemma_net_actions_append(xs, ys.drop_last(), t);
    }
}

proof fn lemma_net_flatten<T>(sets: Seq<KeyActionSet<T>>, t: T)
    ensures
        net_actions(flatten(sets), t) == net_sets(sets, t),
    decreases sets.len(),
{
    if sets.len() > 0 {
        lemma_net_flatten(sets.drop_last(), t);
        lemma_net_actions_append(flatten(sets.drop_last()), sets.last().actions(), t);
        lemma_net_actions_of_set(sets.last(), t);
    }
}

/// The output of applying action sets counts, code by code, what they emit.
proof fn lemma_outputs_net<T>(sets: Seq<KeyActionSet<T>>, t: T)
    ensures
        sends_of(outputs_of(flatten(sets)), t) - stops_of(outputs_of(flatten(sets)), t) == net_sets(
            sets,
            t,
        ),
{
    lemma_outputs_net_actions(flatten(sets), t);
    lemma_net_flatten(sets, t);
}

proof fn lemma_net_sets_append<T>(a: Seq<KeyActionSet<T>>, b: Seq<KeyActionSet<T>>, t: T)
    ensures
        net_sets(a + b, t) == net_sets(a, t) + net_sets(b, t),
    decreases b.len(),
{
    if b.len() == 0 {
        assert(a + b =~= a);
    } else {
        assert((a + b).drop_last() =~= a + b.drop_last());
        assert((a + b).last() == b.last());
        lemma_net_sets_append(a, b.drop_last(), t);
    }
}

proof fn lemma_net_sets_opt<T>(p: Seq<KeyActionSet<T>>, o: Option<KeyActionSet<T>>, t: T)
    ensures
        net_sets(p + opt_seq(o), t) == net_sets(p, t) + opt_net(o, t),
{
    lemma_net_sets_append(p, opt_seq(o), t);
    assert(net_sets(Seq::<KeyActionSet<T>>::empty(), t) == 0);
    if let Some(s) = o {
        assert(seq![s].drop_last() =~= Seq::<KeyActionSet<T>>::empty());
        assert(seq![s].last() == s);
    }
}

proof fn lemma_total_owed_agree<T: Copy>(
    m1: Map<KeyId, Machine<T>>,
    m2: Map<KeyId, Machine<T>>,
    order: Seq<KeyId>,
    t: T,
)
    requires
        forall|i: int| 0 <= i < order.len() ==> m1[#[trigger] order[i]] == m2[order[i]],
    ensures
        total_owed(m1, order, t) == total_owed(m2, order, t),
    decreases order.len(),
{
    if order.len() > 0 {
        let o = order.drop_last();
        assert forall|i: int| 0 <= i < o.len() implies m1[#[trigger] o[i]] == m2[o[i]] by {
            assert(o[i] == order[i]);
        }
        lemma_total_owed_agree(m1, m2, o, t);
        assert(order.last() == order[order.len() - 1]);
    }
}

proof fn lemma_no_dup_drop_last<A>(s: Seq<A>)
    requires
        s.len() > 0,
        s.no_duplicates(),
    ensures
        s.drop_last().no_duplicates(),
        !s.drop_last().contains(s.last()),
{
    let o = s.drop_last();
    assert forall|a: int, b: int| 0 <= a < b < o.len() implies o[a] != o[b] by {
        assert(o[a] == s[a] && o[b] == s[b]);
    }
    if o.contains(s.last()) {
        let j = choose|j: int| 0 <= j < o.len() && o[j] == s.last();
        assert(s[j] == s[s.len() - 1]);
    }
}

/// The machines of `order` can be stepped on `event` with the accounting:
/// live, each keyed by its watched key, and no tap machine sees its own key
/// pressed again.
pub open spec fn accounting_ready<T: Copy>(
    machines: Map<KeyId, Machine<T>>,
    order: Seq<KeyId>,
    event: Event<KeyId>,
) -> bool {
    forall|i: int|
        0 <= i < order.len() ==> {
            let k = #[trigger] order[i];
            &&& machines.contains_key(k)
            &&& !machines[k].finished()
            &&& machines[k].inv()
            &&& machines[k].watched() == k
            &&& (machines[k] is Tap ==> event != Event::KeyPress(k))
        }
}

proof fn lemma_broadcast_owed<T: Copy>(
    ms0: Map<KeyId, Machine<T>>,
    order: Seq<KeyId>,
    event: Event<KeyId>,
    now: u64,
    t: T,
)
    requires
        order.no_duplicates(),
        accounting_ready(ms0, order, event),
    ensures
        total_owed(broadcast(ms0, order, event, now).0, order, t) == total_owed(ms0, order, t)
            + net_sets(broadcast(ms0, order, event, now).1, t),
        broadcast(ms0, order, event, now).0.dom() == ms0.dom(),
        forall|i: int|
            0 <= i < order.len() ==> broadcast(ms0, order, event, now).0[#[trigger] order[i]]
                == ms0[order[i]].next(event, now).0,
        forall|k: KeyId| !order.contains(k) ==> #[trigger] broadcast(ms0, order, event, now).0[k] == ms0[k],
    decreases order.len(),
{
    if order.len() > 0 {
        let o = order.drop_last();
        let k = order.last();
        lemma_no_dup_drop_last(order);
        assert(accounting_ready(ms0, o, event)) by {
            assert forall|i: int| 0 <= i < o.len() implies o[i] == order[i] by {}
        }
        lemma_broadcast_owed(ms0, o, event, now, t);
        let (ms, p) = broadcast(ms0, o, event, now);
        assert(order[order.len() - 1] == k);
        assert(ms[k] == ms0[k]);
        let (m, out) = ms[k].next(event, now);
        ms0[k].lemma_owed_step(event, now, t);
        let ms1 = ms.insert(k, m);
        assert(ms1.dom() =~= ms0.dom());
        assert forall|i: int| 0 <= i < o.len() implies ms1[#[trigger] o[i]] == ms[o[i]] by {
            assert(o.contains(o[i]));
        }
        lemma_total_owed_agree(ms1, ms, o, t);
        lemma_net_sets_opt(p, out, t);
        assert forall|i: int|
            0 <= i < order.len() implies ms1[#[trigger] order[i]] == ms0[order[i]].next(event, now).0 by {
            if i < order.len() - 1 {
                assert(o[i] == order[i]);
                assert(o.contains(order[i]));
            }
        }
        assert forall|j: KeyId| !order.contains(j) implies #[trigger] ms1[j] == ms0[j] by {
            if o.contains(j) {
                let x = choose|x: int| 0 <= x < o.len() && o[x] == j;
                assert(order[x] == j);
            }
            if j == k {
                assert(order.contains(k));
            }
        }
    }
}

proof fn lemma_cleanup_owed<T: Copy>(ms: Map<KeyId, Machine<T>>, order: Seq<KeyId>, t: T)
    requires
        order.no_duplicates(),
        forall|i: int| 0 <= i < order.len() ==> ms.contains_key(#[trigger] order[i]),
    ensures
        total_owed(live_machines(ms), live_keys(ms, order), t) == total_owed(ms, order, t)
            + net_sets(cleanups(ms, order), t),
    decreases order.len(),
{
    if order.len() > 0 {
        let o = order.drop_last();
        let k = order.last();
        lemma_no_dup_drop_last(order);
        assert forall|i: int| 0 <= i < o.len() implies ms.contains_key(#[trigger] o[i]) by {
            assert(o[i] == order[i]);
        }
        lemma_cleanup_owed(ms, o, t);
        assert(order[order.len() - 1] == k);
        let c = if ms[k].finished() {
            ms[k].cleanup()
        } else {
            seq![]
        };
        lemma_net_sets_append(cleanups(ms, o), c, t);
        assert(cleanups(ms, order) == cleanups(ms, o) + c);
        assert(net_sets(Seq::<KeyActionSet<T>>::empty(), t) == 0);
        if ms[k].finished() {
            ms[k].lemma_owed_cleanup(t);
            assert(c.drop_last() =~= Seq::<KeyActionSet<T>>::empty());
            assert(c.last() == c[0]);
            assert(net_sets(c, t) == net_set(c[0], t));
            assert(live_keys(ms, order) == live_keys(ms, o));
        } else {
            let lk = live_keys(ms, order);
            assert(lk == live_keys(ms, o).push(k));
            assert(lk.drop_last() =~= live_keys(ms, o));
            assert(lk.last() == k);
            assert(live_machines(ms)[k] == ms[k]);
            assert(c =~= Seq::<KeyActionSet<T>>::empty());
        }
    }
}

/// The keys held down after a sequence of events: pressed and not released since.
pub open spec fn keys_down(events: Seq<(Event<KeyId>, u64)>) -> Set<KeyId>
    decreases events.len(),
{
    if events.len() == 0 {
        Set::empty()
    } else {
        let down = keys_down(events.drop_last());
        match events.last().0 {
            Event::KeyPress(k) => down.insert(k),
            Event::KeyRelease(k) => down.remove(k),
            Event::Poll => down,
        }
    }
}

/// No key is pressed again before it is released.
pub open spec fn presses_alternate(events: Seq<(Event<KeyId>, u64)>) -> bool {
    forall|i: int|
        0 <= i < events.len() ==> (#[trigger] events[i]).0 is KeyPress ==> !keys_down(
            events.take(i),
        ).contains(events[i].0->KeyPress_0)
}

/// The state a keyboard starts in.
pub open spec fn initial_state<T>() -> KbState<T> {
    KbState { layer_stack: Seq::empty(), machines: Map::empty(), order: Seq::empty() }
}

/// The state and the whole output after a sequence of timed events.
pub open spec fn run<T: Copy, Mapper: LayerMapper<T>>(
    st: KbState<T>,
    mapper: Mapper,
    default_layer: LayerId,
    settings: SMKeyboardSettings,
    events: Seq<(Event<KeyId>, u64)>,
) -> (KbState<T>, Seq<Action<T>>)
    decreases events.len(),
{
    if events.len() == 0 {
        (st, seq![])
    } else {
        let (st1, out1) = run(st, mapper, default_layer, settings, events.drop_last());
        let (st2, out2) = step_from(
            st1,
            mapper,
            default_layer,
            settings,
            events.last().0,
            events.last().1,
        );
        (st2, out1 + out2)
    }
}

/// What holds of the state of a run between events.
pub open spec fn run_inv<T: Copy>(st: KbState<T>, down: Set<KeyId>) -> bool {
    &&& st.order.no_duplicates()
    &&& forall|k: KeyId| st.machines.contains_key(k) <==> st.order.contains(k)
    &&& forall|k: KeyId| #[trigger]
        st.machines.contains_key(k) ==> {
            &&& st.machines[k].watched() == k
            &&& !st.machines[k].finished()
            &&& st.machines[k].inv()
            &&& (st.machines[k] is Tap ==> down.contains(k))
        }
}

/// The events that leave `down` as it is, or change it as a press or a
/// release does.
pub open spec fn down_after(down: Set<KeyId>, event: Event<KeyId>) -> Set<KeyId> {
    match event {
        Event::KeyPress(k) => down.insert(k),
        Event::KeyRelease(k) => down.remove(k),
        Event::Poll => down,
    }
}

proof fn lemma_first_press<T: Copy>(
    k: KeyId,
    c: KeyConf<T>,
    settings: SMKeyboardSettings,
    now: u64,
    t: T,
)
    ensures
        ({
            let (m, o) = machine_for(k, c, settings).next(Event::KeyPress(k), now);
            &&& m.owed(t) == opt_net(o, t)
            &&& !m.finished()
            &&& m.watched() == k
            &&& m.inv()
            &&& (m is Tap <==> c is Tap)
        }),
{
    match c {
        KeyConf::Tap(x) => TapKSM::lemma_owed_first_press(k, x, now, t),
        KeyConf::Hold(x) => HoldKSM::lemma_owed_first_press(settings.hold_ksm_delay, k, x, now, t),
        KeyConf::EagerHold(x) => EagerHoldKSM::lemma_owed_first_press(
            settings.hold_ksm_delay,
            k,
            x,
            now,
            t,
        ),
        KeyConf::DoubleTap(x) => DoubleTapKSM::lemma_owed_first_press(
            settings.dt_retap_delay,
            settings.dt_hold_delay,
            k,
            x,
            now,
            t,
        ),
        KeyConf::DoubleTapHold(x) => DoubleTapHoldKSM::lemma_owed_first_press(
            settings.dth_hold_delay,
            settings.dth_retap_delay,
            k,
            x,
            now,
            t,
        ),
    }
}

proof fn lemma_step_accounting<T: Copy, Mapper: LayerMapper<T>>(
    st: KbState<T>,
    down: Set<KeyId>,
    mapper: Mapper,
    default_layer: LayerId,
    settings: SMKeyboardSettings,
    event: Event<KeyId>,
    now: u64,
    t: T,
)
    requires
        run_inv(st, down),
        event is KeyPress ==> !down.contains(event->KeyPress_0),
    ensures
        ({
            let (st2, out) = step_from(st, mapper, default_layer, settings, event, now);
            &&& run_inv(st2, down_after(down, event))
            &&& sends_of(out, t) - stops_of(out, t) == total_owed(st2.machines, st2.order, t)
                - total_owed(st.machines, st.order, t)
        }),
{
    let (ms0, order) = created_from(st, mapper, default_layer, settings, event);
    let (ms1, emitted) = broadcast(ms0, order, event, now);
    let cl = cleanups(ms1, order);
    let down2 = down_after(down, event);
    // the machines that were live before the event are ready to be stepped
    assert(accounting_ready(ms0, st.order, event)) by {
        assert forall|i: int| 0 <= i < st.order.len() implies {
            let k = #[trigger] st.order[i];
            &&& ms0.contains_key(k)
            &&& !ms0[k].finished()
            &&& ms0[k].inv()
            &&& ms0[k].watched() == k
            &&& (ms0[k] is Tap ==> event != Event::KeyPress(k))
        } by {
            let k = st.order[i];
            assert(st.order.contains(k));
            assert(st.machines.contains_key(k));
            assert(ms0[k] == st.machines[k]);
        }
    }
    let created = order != st.order;
    if created {
        let k = event->KeyPress_0;
        let c = mapper.conf_of(
            crate::sm_keyboard::active_layer(st.layer_stack, default_layer),
            k,
        )->Some_0;
        assert(!st.order.contains(k));
        assert(order.drop_last() =~= st.order);
        assert(order.last() == k);
        assert(order.no_duplicates()) by {
            assert forall|a: int, b: int| 0 <= a < b < order.len() implies order[a] != order[b] by {
                if b == order.len() - 1 {
                    assert(st.order.contains(order[a]));
                } else {
                    assert(order[a] == st.order[a] && order[b] == st.order[b]);
                }
            }
        }
        lemma_broadcast_owed(ms0, st.order, event, now, t);
        let (ms, p) = broadcast(ms0, st.order, event, now);
        assert(ms[k] == ms0[k]);
        assert(ms0[k] == machine_for(k, c, settings));
        lemma_first_press(k, c, settings, now, t);
        let (m, out) = ms[k].next(event, now);
        assert(ms1 == ms.insert(k, m));
        assert(emitted == p + opt_seq(out));
        lemma_net_sets_opt(p, out, t);
        assert forall|i: int| 0 <= i < st.order.len() implies ms1[#[trigger] st.order[i]]
            == ms[st.order[i]] by {
            assert(st.order.contains(st.order[i]));
        }
        lemma_total_owed_agree(ms1, ms, st.order, t);
        assert forall|i: int| 0 <= i < st.order.len() implies ms0[#[trigger] st.order[i]]
            == st.machines[st.order[i]] by {
            assert(st.order.contains(st.order[i]));
        }
        lemma_total_owed_agree(ms0, st.machines, st.order, t);
        assert(total_owed(ms1, order, t) == total_owed(st.machines, st.order, t) + net_sets(
            emitted,
            t,
        ));
        assert(ms1.dom() =~= ms0.dom());
        // what each machine is after the event
        assert forall|i: int| 0 <= i < order.len() implies {
            let j = #[trigger] order[i];
            &&& ms1.contains_key(j)
            &&& ms1[j].watched() == j
            &&& ms1[j].inv()
            &&& (ms1[j] is Tap && !ms1[j].finished() ==> down2.contains(j))
        } by {
            let j = order[i];
            if i < order.len() - 1 {
                assert(j == st.order[i]);
                assert(st.order.contains(j));
                assert(j != k);
                let old_m = ms0[j];
                old_m.lemma_next_keeps(event, now);
                old_m.lemma_owed_step(event, now, t);
                assert(ms1[j] == old_m.next(event, now).0);
            } else {
                assert(j == k);
            }
        }
    } else {
        assert(ms0 == st.machines);
        assert(order == st.order);
        lemma_broadcast_owed(ms0, order, event, now, t);
        assert forall|i: int| 0 <= i < order.len() implies {
            let j = #[trigger] order[i];
            &&& ms1.contains_key(j)
            &&& ms1[j].watched() == j
            &&& ms1[j].inv()
            &&& (ms1[j] is Tap && !ms1[j].finished() ==> down2.contains(j))
        } by {
            let j = order[i];
            assert(order.contains(j));
            let old_m = ms0[j];
            old_m.lemma_next_keeps(event, now);
            old_m.lemma_owed_step(event, now, t);
            assert(ms1[j] == old_m.next(event, now).0);
        }
    }
    assert forall|j: KeyId| ms1.contains_key(j) <==> order.contains(j) by {
        if created {
            let k = event->KeyPress_0;
            if order.contains(j) {
                let x = choose|x: int| 0 <= x < order.len() && order[x] == j;
                if x < order.len() - 1 {
                    assert(st.order[x] == j);
                }
            }
            if st.order.contains(j) {
                let x = choose|x: int| 0 <= x < st.order.len() && st.order[x] == j;
                assert(order[x] == j);
            }
            if j == k {
                assert(order[order.len() - 1] == j);
            }
        }
    }
    assert forall|i: int| 0 <= i < order.len() implies ms1.contains_key(#[trigger] order[i]) by {
        assert(order.contains(order[i]));
    }
    lemma_cleanup_owed(ms1, order, t);
    lemma_net_sets_append(emitted, cl, t);
    lemma_outputs_net(emitted + cl, t);
    lemma_live_keys(ms1, order);
    let st2 = step_from(st, mapper, default_layer, settings, event, now).0;
    assert forall|j: KeyId| #[trigger] st2.machines.contains_key(j) implies {
        &&& st2.machines[j].watched() == j
        &&& !st2.machines[j].finished()
        &&& st2.machines[j].inv()
        &&& (st2.machines[j] is Tap ==> down2.contains(j))
    } by {
        assert(order.contains(j));
        let x = choose|x: int| 0 <= x < order.len() && order[x] == j;
        assert(order[x] == j);
    }
}

proof fn lemma_run_accounting<T: Copy, Mapper: LayerMapper<T>>(
    mapper: Mapper,
    default_layer: LayerId,
    settings: SMKeyboardSettings,
    events: Seq<(Event<KeyId>, u64)>,
    t: T,
)
    requires
        presses_alternate(events),
    ensures
        ({
            let (st, out) = run(initial_state(), mapper, default_layer, settings, events);
            &&& run_inv(st, keys_down(events))
            &&& sends_of(out, t) - stops_of(out, t) == total_owed(st.machines, st.order, t)
        }),
    decreases events.len(),
{
    if events.len() == 0 {
        let st = initial_state::<T>();
        assert(st.order.no_duplicates());
    } else {
        let prev = events.drop_last();
        assert(presses_alternate(prev)) by {
            assert forall|i: int| 0 <= i < prev.len() implies (#[trigger] prev[i]).0 is KeyPress
                ==> !keys_down(prev.take(i)).contains(prev[i].0->KeyPress_0) by {
                assert(prev[i] == events[i]);
                assert(prev.take(i) =~= events.take(i));
            }
        }
        lemma_run_accounting(mapper, default_layer, settings, prev, t);
        let (st1, out1) = run(initial_state(), mapper, default_layer, settings, prev);
        let last = events.last();
        assert(last == events[events.len() - 1]);
        assert(events.take(events.len() - 1) =~= prev);
        lemma_step_accounting(st1, keys_down(prev), mapper, default_layer, settings, last.0, last.1, t);
        let (st2, out2) = step_from(st1, mapper, default_layer, settings, last.0, last.1);
        lemma_counts_append(out1, out2, t);
        assert(keys_down(events) == down_after(keys_down(prev), last.0));
    }
}

/// Once no machine is left after a run of events from a new keyboard, every
/// code has been stopped as many times as it was started: for every `t`, the
/// output holds as many `Stop(t)` as `SendCode(t)`. A keyboard made by `new`
/// starts in `initial_state`, and each `transition` takes one `step_from`.
/// The run must not press a key again before releasing it: a tap key sends
/// its code on each press but stops it once.
pub proof fn lemma_codes_balance<T: Copy, Mapper: LayerMapper<T>>(
    mapper: Mapper,
    default_layer: LayerId,
    settings: SMKeyboardSettings,
    events: Seq<(Event<KeyId>, u64)>,
    t: T,
)
    requires
        presses_alternate(events),
        run(initial_state(), mapper, default_layer, settings, events).0.order.len() == 0,
    ensures
        sends_of(run(initial_state(), mapper, default_layer, settings, events).1, t) == stops_of(
            run(initial_state(), mapper, default_layer, settings, events).1,
            t,
        ),
{
    lemma_run_accounting(mapper, default_layer, settings, events, t);
}

} // verus!
