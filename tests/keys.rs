use keywerty::keyboard::Event;
use keywerty::keys::{
    DeadKeyConf, DoubleTapHoldKeyConf, DoubleTapKeyConf, HoldKeyConf, KeyAction, KeyActionSet,
    TapKeyConf,
};
use keywerty::mapper::to_table_key;

#[test]
fn action_inverse_pairs() {
    assert_eq!(KeyAction::SendKey(4u8).invert(), KeyAction::StopKey(4));
    assert_eq!(KeyAction::StopKey(4u8).invert(), KeyAction::SendKey(4));
    assert_eq!(KeyAction::<u8>::PushLayer(2).invert(), KeyAction::PopLayer(2));
    assert_eq!(KeyAction::<u8>::PopLayer(2).invert(), KeyAction::PushLayer(2));
    assert_eq!(KeyAction::<u8>::NoOp.invert(), KeyAction::NoOp);
}

#[test]
fn action_set_invert_keeps_order() {
    let set = KeyActionSet::Triple(KeyAction::SendKey(1u8), KeyAction::PushLayer(3), KeyAction::StopKey(2));
    assert_eq!(
        set.invert(),
        KeyActionSet::Triple(KeyAction::StopKey(1), KeyAction::PopLayer(3), KeyAction::SendKey(2))
    );
}

#[test]
fn action_set_invert_twice_is_identity() {
    let sets = [
        KeyActionSet::Single(KeyAction::SendKey(7u8)),
        KeyActionSet::Double(KeyAction::PopLayer(1), KeyAction::NoOp),
        KeyActionSet::Triple(KeyAction::StopKey(1u8), KeyAction::PushLayer(3), KeyAction::SendKey(9)),
    ];
    for set in sets {
        assert_eq!(set.invert().invert(), set);
    }
}

#[test]
fn get_actions_in_declaration_order() {
    let set = KeyActionSet::Double(KeyAction::SendKey(1u8), KeyAction::SendKey(2));
    assert_eq!(set.get_actions(), vec![KeyAction::SendKey(1), KeyAction::SendKey(2)]);
    let set = KeyActionSet::Triple(KeyAction::NoOp, KeyAction::PushLayer(1), KeyAction::StopKey(3u8));
    assert_eq!(
        set.get_actions(),
        vec![KeyAction::NoOp, KeyAction::PushLayer(1), KeyAction::StopKey(3)]
    );
    assert_eq!(KeyActionSet::Single(KeyAction::SendKey(5u8)).get_actions().len(), 1);
}

#[test]
fn defaults_are_noop() {
    let noop = KeyActionSet::<u8>::Single(KeyAction::NoOp);
    assert_eq!(KeyAction::<u8>::default(), KeyAction::NoOp);
    assert_eq!(KeyActionSet::<u8>::default(), noop);
    assert_eq!(TapKeyConf::<u8>::default().tap, noop);
    let h = HoldKeyConf::<u8>::default();
    assert_eq!((h.tap, h.hold), (noop, noop));
    let d = DoubleTapKeyConf::<u8>::default();
    assert_eq!((d.tap, d.double_tap), (noop, noop));
    let dh = DoubleTapHoldKeyConf::<u8>::default();
    assert_eq!((dh.tap, dh.double_tap, dh.hold), (noop, noop, noop));
    let dk = DeadKeyConf::<u8>::default();
    assert_eq!((dk.activation, dk.retap), (noop, noop));
}

#[test]
fn event_helpers() {
    let press: Event<u16> = Event::KeyPress(3);
    let release: Event<u16> = Event::KeyRelease(4);
    let poll: Event<u16> = Event::Poll;
    assert!(press.is_key_press() && !press.is_key_release());
    assert!(release.is_key_release() && !release.is_key_press());
    assert!(!poll.is_key_press() && !poll.is_key_release());
    assert_eq!(press.get_key_id(), Some(&3));
    assert_eq!(release.get_key_id(), Some(&4));
    assert_eq!(poll.get_key_id(), None);
}

#[test]
fn table_keys_are_distinct() {
    assert_eq!(to_table_key(0, 5), 5);
    assert_eq!(to_table_key(1, 5), 0x10005);
    assert_eq!(to_table_key(255, 0xffff), 0xff_ffff);
}
