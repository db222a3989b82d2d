use keywerty::keyboard::{Action, EchoerKb, Event, Keyboard};
use keywerty::keys::{HoldKeyConf, KeyAction, KeyActionSet, KeyConf, TapKeyConf};
use keywerty::mapper::{HashMapMapper, LayerMapper, MapOrEchoMapper, SimpleMapper};
use keywerty::sm_keyboard::{SMKeyboard, SMKeyboardSettings};

fn settings() -> SMKeyboardSettings {
    SMKeyboardSettings {
        hold_ksm_delay: 2_000,
        dt_retap_delay: 100_000,
        dt_hold_delay: 100_000,
        dth_retap_delay: 100_000,
        dth_hold_delay: 100_000,
    }
}

fn send(code: u16) -> KeyActionSet<u16> {
    KeyActionSet::Single(KeyAction::SendKey(code))
}

fn table(eager: bool) -> HashMapMapper<u16> {
    let mut map = HashMapMapper::new();
    let hold = HoldKeyConf { tap: send(10), hold: send(20) };
    map.insert(0, 1, if eager { KeyConf::EagerHold(hold) } else { KeyConf::Hold(hold) });
    map.insert(0, 2, KeyConf::Tap(TapKeyConf { tap: KeyActionSet::Single(KeyAction::PushLayer(1)) }));
    map.insert(1, 3, KeyConf::Tap(TapKeyConf { tap: send(33) }));
    map.insert(0, 3, KeyConf::Tap(TapKeyConf { tap: send(30) }));
    map
}

fn keyboard(eager: bool) -> SMKeyboard<u16, MapOrEchoMapper> {
    SMKeyboard::new(0, MapOrEchoMapper(table(eager)), settings())
}

fn run<K: Keyboard<u16>>(kb: &mut K, events: &[(Event<u16>, u64)]) -> Vec<Action<u16>> {
    let mut out = Vec::new();
    for (event, now) in events {
        out.extend(kb.transition(*event, *now));
    }
    out
}

#[test]
fn hold_timeout_sends_hold() {
    let mut kb = keyboard(false);
    assert_eq!(kb.transition(Event::KeyPress(1), 0), vec![]);
    assert!(kb.has_machine(1));
    assert_eq!(kb.transition(Event::Poll, 3_000), vec![Action::SendCode(20)]);
    assert_eq!(kb.transition(Event::KeyRelease(1), 3_001), vec![Action::Stop(20)]);
    assert!(!kb.has_machine(1));
    assert_eq!(kb.machine_count(), 0);
}

#[test]
fn hold_tap_sends_tap() {
    let mut kb = keyboard(false);
    let out = run(&mut kb, &[(Event::KeyPress(1), 0), (Event::KeyRelease(1), 1), (Event::Poll, 2)]);
    assert_eq!(out, vec![Action::SendCode(10), Action::Stop(10)]);
    assert_eq!(kb.machine_count(), 0);
}

#[test]
fn hold_interrupted_by_other_key() {
    let mut kb = keyboard(false);
    let out = run(
        &mut kb,
        &[
            (Event::KeyPress(1), 0),
            (Event::KeyPress(255), 1),
            (Event::KeyRelease(255), 2),
            (Event::KeyRelease(1), 3),
        ],
    );
    assert_eq!(
        out,
        vec![Action::SendCode(20), Action::SendCode(255), Action::Stop(255), Action::Stop(20)]
    );
    assert_eq!(kb.machine_count(), 0);
}

#[test]
fn eager_hold_then_early_release() {
    let mut kb = keyboard(true);
    let out = run(&mut kb, &[(Event::KeyPress(1), 0), (Event::KeyRelease(1), 1), (Event::Poll, 2)]);
    assert_eq!(
        out,
        vec![Action::SendCode(20), Action::Stop(20), Action::SendCode(10), Action::Stop(10)]
    );
}

#[test]
fn layer_push_pop() {
    let mut kb = keyboard(false);
    assert_eq!(kb.transition(Event::KeyPress(2), 0), vec![]);
    assert_eq!(kb.get_layer_stack(), &[1u8][..]);
    assert_eq!(kb.get_active_layer(), 1);
    let out = run(
        &mut kb,
        &[(Event::KeyPress(3), 1), (Event::KeyRelease(3), 2), (Event::KeyRelease(2), 3)],
    );
    assert_eq!(out, vec![Action::SendCode(33), Action::Stop(33)]);
    assert!(kb.get_layer_stack().is_empty());
    assert_eq!(kb.get_active_layer(), 0);
}

#[test]
fn overlapping_layer_pops_remove_the_matching_layer() {
    let mut map = HashMapMapper::new();
    map.insert(0, 1, KeyConf::Tap(TapKeyConf { tap: KeyActionSet::Single(KeyAction::PushLayer(1)) }));
    map.insert(1, 2, KeyConf::Tap(TapKeyConf { tap: KeyActionSet::Single(KeyAction::PushLayer(2)) }));
    let mut kb: SMKeyboard<u16, HashMapMapper<u16>> = SMKeyboard::new(0, map, settings());
    kb.transition(Event::KeyPress(1), 0);
    kb.transition(Event::KeyPress(2), 1);
    assert_eq!(kb.get_layer_stack(), &[1u8, 2][..]);
    // releasing the key that pushed layer 1 removes layer 1, not the top
    kb.transition(Event::KeyRelease(1), 2);
    assert_eq!(kb.get_layer_stack(), &[2u8][..]);
    kb.transition(Event::KeyRelease(2), 3);
    assert!(kb.get_layer_stack().is_empty());
}

#[test]
fn unmapped_press_is_ignored() {
    let mut kb: SMKeyboard<u16, HashMapMapper<u16>> = SMKeyboard::new(0, table(false), settings());
    assert_eq!(kb.transition(Event::KeyPress(9), 0), vec![]);
    assert!(!kb.has_machine(9));
    assert_eq!(kb.transition(Event::KeyRelease(9), 1), vec![]);
    assert_eq!(kb.machine_count(), 0);
}

#[test]
fn duplicate_press_goes_to_the_live_machine() {
    let mut kb = keyboard(false);
    kb.transition(Event::KeyPress(1), 0);
    assert_eq!(kb.transition(Event::KeyPress(1), 1), vec![]);
    assert_eq!(kb.machine_count(), 1);
    assert_eq!(kb.transition(Event::KeyRelease(1), 2), vec![Action::SendCode(10)]);
}

#[test]
fn release_without_press_is_harmless() {
    let mut kb = keyboard(false);
    assert_eq!(kb.transition(Event::KeyRelease(5), 0), vec![]);
    assert_eq!(kb.machine_count(), 0);
}

#[test]
fn one_machine_per_key_and_order_matches() {
    let mut kb = keyboard(false);
    kb.transition(Event::KeyPress(1), 0);
    kb.transition(Event::KeyPress(7), 1);
    kb.transition(Event::KeyPress(7), 2);
    kb.transition(Event::KeyPress(1), 3);
    assert_eq!(kb.machine_count(), 2);
    assert!(kb.has_machine(1) && kb.has_machine(7));
    kb.transition(Event::KeyRelease(7), 4);
    assert_eq!(kb.machine_count(), 1);
    assert!(kb.has_machine(1) && !kb.has_machine(7));
}

#[test]
fn codes_balance_once_machines_finish() {
    let mut kb = keyboard(true);
    let out = run(
        &mut kb,
        &[
            (Event::KeyPress(1), 0),
            (Event::KeyPress(4), 1),
            (Event::KeyPress(2), 2),
            (Event::KeyRelease(4), 3),
            (Event::KeyPress(3), 4),
            (Event::KeyRelease(1), 5),
            (Event::KeyRelease(3), 6),
            (Event::KeyRelease(2), 7),
            (Event::Poll, 8),
        ],
    );
    assert_eq!(kb.machine_count(), 0);
    let mut codes: Vec<u16> = out.iter().filter_map(|a| match a {
        Action::SendCode(c) => Some(*c),
        Action::Stop(_) => None,
    }).collect();
    let mut stops: Vec<u16> = out.iter().filter_map(|a| match a {
        Action::Stop(c) => Some(*c),
        Action::SendCode(_) => None,
    }).collect();
    codes.sort();
    stops.sort();
    assert!(!codes.is_empty());
    assert_eq!(codes, stops);
}

#[test]
fn default_settings() {
    let s = SMKeyboardSettings::default();
    assert_eq!(s.hold_ksm_delay, 750_000);
    assert_eq!(s.dt_retap_delay, 100_000);
    assert_eq!(s.dt_hold_delay, 100_000);
    assert_eq!(s.dth_retap_delay, 100_000);
    assert_eq!(s.dth_hold_delay, 100_000);
}

#[test]
fn echoer_echoes_keys() {
    let mut kb = EchoerKb {};
    assert_eq!(kb.transition(Event::KeyPress(4), 0), vec![Action::SendCode(4)]);
    assert_eq!(kb.transition(Event::KeyRelease(4), 1), vec![Action::Stop(4)]);
    assert_eq!(kb.transition(Event::Poll, 2), vec![]);
}

#[test]
fn mappers_look_up_configurations() {
    let map = table(false);
    assert!(matches!(map.get_conf(&1, &3), Some(KeyConf::Tap(c)) if c.tap == send(33)));
    assert!(map.get_conf(&0, &9).is_none());

    let echo = MapOrEchoMapper(table(false));
    assert!(matches!(echo.get_conf(&0, &9), Some(KeyConf::Tap(c)) if c.tap == send(9)));
    assert!(matches!(echo.get_conf(&0, &3), Some(KeyConf::Tap(c)) if c.tap == send(30)));

    let simple = SimpleMapper::new();
    let expected = KeyActionSet::Single(KeyAction::SendKey(21u32));
    assert!(matches!(simple.get_conf(&2, &7), Some(KeyConf::Tap(c)) if c.tap == expected));
}

#[test]
fn simple_mapper_keyboard_taps() {
    let mut kb = SMKeyboard::new(0, SimpleMapper::new(), settings());
    assert_eq!(kb.transition(Event::KeyPress(1), 0), vec![Action::SendCode(1u32)]);
    assert_eq!(kb.transition(Event::KeyRelease(1), 1), vec![Action::Stop(1u32)]);
}

#[test]
fn repeated_press_of_a_tap_key_sends_again() {
    // a key pressed again before its release (auto-repeat) re-sends its code;
    // the release stops it once
    let mut kb = keyboard(false);
    let out = run(
        &mut kb,
        &[(Event::KeyPress(5), 0), (Event::KeyPress(5), 1), (Event::KeyRelease(5), 2)],
    );
    assert_eq!(out, vec![Action::SendCode(5), Action::SendCode(5), Action::Stop(5)]);
}
