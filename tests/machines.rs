use keywerty::keyboard::Event;
use keywerty::keys::{
    DoubleTapHoldKeyConf, DoubleTapKeyConf, HoldKeyConf, KeyAction, KeyActionSet, TapKeyConf,
};
use keywerty::machines::double_tap::DoubleTapKSM;
use keywerty::machines::double_tap_hold::DoubleTapHoldKSM;
use keywerty::machines::eager_hold::EagerHoldKSM;
use keywerty::machines::hold::HoldKSM;
use keywerty::machines::tap::TapKSM;
use keywerty::machines::{is_watched_key_pressed, KeyStateMachine};

const WATCHED_KEY: u16 = 1;
const TAP_KEY_CODE: u8 = 10;
const HOLD_KEY_CODE: u8 = 20;
const DOUBLE_TAP_KEY_CODE: u8 = 30;

/// Two milliseconds, in microseconds.
const TIMEOUT: u64 = 2_000;

fn single(code: u8) -> KeyActionSet<u8> {
    KeyActionSet::Single(KeyAction::SendKey(code))
}

fn stop(code: u8) -> KeyActionSet<u8> {
    KeyActionSet::Single(KeyAction::StopKey(code))
}

fn hold_conf() -> HoldKeyConf<u8> {
    HoldKeyConf { tap: single(TAP_KEY_CODE), hold: single(HOLD_KEY_CODE) }
}

fn build_hold_ksm() -> HoldKSM<u8> {
    HoldKSM::new(TIMEOUT, WATCHED_KEY, hold_conf())
}

fn build_eager_ksm() -> EagerHoldKSM<u8> {
    EagerHoldKSM::new(TIMEOUT, WATCHED_KEY, hold_conf())
}

#[test]
fn test_key_timeout_with_hold_kms() {
    let mut machine = build_hold_ksm();

    let opt = machine.transition(&Event::KeyPress(WATCHED_KEY), 0);
    assert!(opt.is_none());
    assert!(!machine.is_finished());

    // polled before the timeout
    for t in [1u64, 2] {
        let opt = machine.transition(&Event::Poll, t);
        assert!(opt.is_none());
        assert!(!machine.is_finished());
    }

    // polled after the timeout
    let opt = machine.transition(&Event::Poll, 2 + TIMEOUT);
    assert_eq!(opt.unwrap(), single(HOLD_KEY_CODE));
    assert!(!machine.is_finished());

    let opt = machine.transition(&Event::Poll, 3 + TIMEOUT);
    assert!(opt.is_none());
    assert!(!machine.is_finished());

    let opt = machine.transition(&Event::KeyRelease(WATCHED_KEY), 4 + TIMEOUT);
    assert!(opt.is_none());
    assert!(machine.is_finished());
}

#[test]
fn test_pressing_other_key_with_hold_kms_means_key_was_held() {
    let mut machine = build_hold_ksm();

    let opt = machine.transition(&Event::KeyPress(WATCHED_KEY), 0);
    assert!(opt.is_none());
    assert!(!machine.is_finished());

    let opt = machine.transition(&Event::KeyPress(255), 1);
    assert_eq!(opt.unwrap(), single(HOLD_KEY_CODE));
    assert!(!machine.is_finished());

    let opt = machine.transition(&Event::Poll, 2);
    assert!(opt.is_none());
    assert!(!machine.is_finished());

    let opt = machine.transition(&Event::KeyRelease(WATCHED_KEY), 3);
    assert!(opt.is_none());
    assert!(machine.is_finished());
}

#[test]
fn test_releasing_watched_key_before_timeout_sends_tap() {
    let mut machine = build_hold_ksm();

    let opt = machine.transition(&Event::KeyPress(WATCHED_KEY), 0);
    assert!(opt.is_none());
    assert!(!machine.is_finished());

    let opt = machine.transition(&Event::KeyRelease(WATCHED_KEY), 1);
    assert_eq!(opt.unwrap(), single(TAP_KEY_CODE));
    assert!(!machine.is_finished());

    let opt = machine.transition(&Event::Poll, 2);
    assert!(opt.is_none());
    assert!(machine.is_finished());
}

#[test]
fn hold_ksm_cleanup_undoes_what_it_committed() {
    let mut machine = build_hold_ksm();
    machine.transition(&Event::KeyPress(WATCHED_KEY), 0);
    machine.transition(&Event::KeyRelease(WATCHED_KEY), 1);
    machine.transition(&Event::Poll, 2);
    assert_eq!(machine.get_cleanup_actions(), vec![stop(TAP_KEY_CODE)]);

    let mut machine = build_hold_ksm();
    machine.transition(&Event::KeyPress(WATCHED_KEY), 0);
    machine.transition(&Event::Poll, TIMEOUT);
    machine.transition(&Event::KeyRelease(WATCHED_KEY), TIMEOUT + 1);
    assert!(machine.is_finished());
    assert_eq!(machine.get_cleanup_actions(), vec![stop(HOLD_KEY_CODE)]);
}

#[test]
fn hold_ksm_ignores_events_before_its_press() {
    let mut machine = build_hold_ksm();
    assert!(machine.transition(&Event::KeyPress(7), 0).is_none());
    assert!(machine.transition(&Event::Poll, 10 * TIMEOUT).is_none());
    assert!(!machine.is_finished());
}

#[test]
fn test_key_press_eagerly_sends_hold_action_and_after_timeout_undoes_hold_action() {
    let mut machine = build_eager_ksm();

    let opt = machine.transition(&Event::KeyPress(WATCHED_KEY), 0);
    assert_eq!(opt.unwrap(), single(HOLD_KEY_CODE));
    assert!(!machine.is_finished());

    // polled before the timeout
    for t in [1u64, 2] {
        let opt = machine.transition(&Event::Poll, t);
        assert!(opt.is_none());
        assert!(!machine.is_finished());
    }

    // polled after the timeout
    let opt = machine.transition(&Event::Poll, 2 + TIMEOUT);
    assert!(opt.is_none());
    assert!(!machine.is_finished());

    let opt = machine.transition(&Event::KeyRelease(WATCHED_KEY), 3 + TIMEOUT);
    assert!(opt.is_none());
    assert!(machine.is_finished());
    let cleanup = machine.get_cleanup_actions();
    assert_eq!(cleanup.len(), 1);
    assert_eq!(cleanup[0], stop(HOLD_KEY_CODE));
}

#[test]
fn test_key_press_then_release_undoes_hold_action_and_sends_tap() {
    let mut machine = build_eager_ksm();

    let opt = machine.transition(&Event::KeyPress(WATCHED_KEY), 0);
    assert_eq!(opt.unwrap(), single(HOLD_KEY_CODE));
    assert!(!machine.is_finished());

    let opt = machine.transition(&Event::KeyRelease(WATCHED_KEY), 1);
    assert_eq!(opt.unwrap(), stop(HOLD_KEY_CODE));
    assert!(!machine.is_finished());

    let opt = machine.transition(&Event::Poll, 2);
    assert_eq!(opt.unwrap(), single(TAP_KEY_CODE));
    assert!(machine.is_finished());

    let cleanup = machine.get_cleanup_actions();
    assert_eq!(cleanup.len(), 1);
    assert_eq!(cleanup[0], stop(TAP_KEY_CODE));
}

#[test]
fn eager_hold_other_key_press_commits_hold() {
    let mut machine = build_eager_ksm();
    machine.transition(&Event::KeyPress(WATCHED_KEY), 0);
    assert!(machine.transition(&Event::KeyPress(5), 1).is_none());
    assert!(machine.transition(&Event::KeyRelease(WATCHED_KEY), 2).is_none());
    assert!(machine.is_finished());
    assert_eq!(machine.get_cleanup_actions(), vec![stop(HOLD_KEY_CODE)]);
}

#[test]
fn eager_hold_cleanup_is_noop_before_press() {
    let machine = build_eager_ksm();
    assert_eq!(machine.get_cleanup_actions(), vec![KeyActionSet::Single(KeyAction::NoOp)]);
}

/// A hold machine watching key 10, with 43 on tap and 42 on hold.
fn build_statem_hold_ksm() -> HoldKSM<u8> {
    let tap_action = single(43);
    let hold_action = single(42);
    HoldKSM::new(1_000, 10, HoldKeyConf { tap: tap_action, hold: hold_action })
}

#[test]
fn test_kms_hold_till_timeout() {
    let mut machine = build_statem_hold_ksm();
    assert!(machine.transition(&Event::KeyPress(10), 0).is_none());
    let actionset_opt = machine.transition(&Event::Poll, 1_000);
    assert_eq!(actionset_opt.unwrap(), single(42));
}

#[test]
fn test_kms_other_key_press() {
    let mut machine = build_statem_hold_ksm();
    assert!(machine.transition(&Event::KeyPress(10), 0).is_none());
    let actionset_opt = machine.transition(&Event::KeyPress(222), 1);
    assert_eq!(actionset_opt.unwrap(), single(42));
}

#[test]
fn test_kms_release() {
    let mut machine = build_statem_hold_ksm();
    assert!(machine.transition(&Event::KeyPress(10), 0).is_none());
    let actionset_opt = machine.transition(&Event::KeyRelease(10), 1);
    assert_eq!(actionset_opt.unwrap(), single(43));
}

#[test]
fn tap_ksm_sends_on_press_and_finishes_on_release() {
    let mut machine = TapKSM::new(WATCHED_KEY, TapKeyConf { tap: single(TAP_KEY_CODE) });
    assert_eq!(machine.get_cleanup_actions(), vec![stop(TAP_KEY_CODE)]);
    assert_eq!(machine.transition(&Event::KeyPress(WATCHED_KEY), 0), Some(single(TAP_KEY_CODE)));
    assert_eq!(machine.transition(&Event::KeyPress(3), 1), None);
    assert_eq!(machine.transition(&Event::KeyRelease(3), 2), None);
    assert!(!machine.is_finished());
    assert_eq!(machine.transition(&Event::KeyRelease(WATCHED_KEY), 3), None);
    assert!(machine.is_finished());
    // a finished machine stays silent
    assert_eq!(machine.transition(&Event::KeyPress(WATCHED_KEY), 4), None);
    assert_eq!(*machine.get_watched_key(), WATCHED_KEY);
}

fn double_tap_conf() -> DoubleTapKeyConf<u8> {
    DoubleTapKeyConf { tap: single(TAP_KEY_CODE), double_tap: single(DOUBLE_TAP_KEY_CODE) }
}

#[test]
fn test_mod() {
    // press, release, press again within the retap window: double tap
    let mut machine = DoubleTapKSM::new(100, 100, WATCHED_KEY, double_tap_conf());
    assert!(machine.transition(&Event::KeyPress(WATCHED_KEY), 0).is_none());
    assert!(machine.transition(&Event::KeyRelease(WATCHED_KEY), 10).is_none());
    assert!(!machine.is_finished());
    let opt = machine.transition(&Event::KeyPress(WATCHED_KEY), 20);
    assert_eq!(opt.unwrap(), single(DOUBLE_TAP_KEY_CODE));
    assert!(machine.is_finished());
    assert_eq!(machine.get_cleanup_actions(), vec![stop(DOUBLE_TAP_KEY_CODE)]);
}

#[test]
fn double_tap_without_retap_in_time_is_a_tap() {
    let mut machine = DoubleTapKSM::new(100, 100, WATCHED_KEY, double_tap_conf());
    machine.transition(&Event::KeyPress(WATCHED_KEY), 0);
    machine.transition(&Event::KeyRelease(WATCHED_KEY), 10);
    assert!(machine.transition(&Event::Poll, 110).is_none());
    let opt = machine.transition(&Event::Poll, 111);
    assert_eq!(opt.unwrap(), single(TAP_KEY_CODE));
    assert!(machine.is_finished());
    assert_eq!(machine.get_cleanup_actions(), vec![stop(TAP_KEY_CODE)]);
}

#[test]
fn double_tap_held_too_long_is_a_tap() {
    let mut machine = DoubleTapKSM::new(100, 100, WATCHED_KEY, double_tap_conf());
    machine.transition(&Event::KeyPress(WATCHED_KEY), 0);
    assert!(machine.transition(&Event::Poll, 100).is_none());
    assert_eq!(machine.transition(&Event::Poll, 101), Some(single(TAP_KEY_CODE)));
    assert!(machine.is_finished());
}

#[test]
fn double_tap_other_key_press_is_a_tap() {
    let mut machine = DoubleTapKSM::new(100, 100, WATCHED_KEY, double_tap_conf());
    machine.transition(&Event::KeyPress(WATCHED_KEY), 0);
    machine.transition(&Event::KeyRelease(WATCHED_KEY), 1);
    assert_eq!(machine.transition(&Event::KeyPress(9), 2), Some(single(TAP_KEY_CODE)));
    assert!(machine.is_finished());
}

fn double_tap_hold_conf() -> DoubleTapHoldKeyConf<u8> {
    DoubleTapHoldKeyConf {
        tap: single(TAP_KEY_CODE),
        double_tap: single(DOUBLE_TAP_KEY_CODE),
        hold: single(HOLD_KEY_CODE),
    }
}

#[test]
fn double_tap_hold_ksm_test() {
    // held past the hold threshold: hold, undone at cleanup
    let mut machine = DoubleTapHoldKSM::new(100, 100, WATCHED_KEY, double_tap_hold_conf());
    assert!(machine.transition(&Event::KeyPress(WATCHED_KEY), 0).is_none());
    assert_eq!(machine.transition(&Event::Poll, 100), Some(single(HOLD_KEY_CODE)));
    assert!(machine.transition(&Event::KeyRelease(WATCHED_KEY), 150).is_none());
    assert!(machine.is_finished());
    assert_eq!(machine.get_cleanup_actions(), vec![stop(HOLD_KEY_CODE)]);

    // tapped twice: double tap
    let mut machine = DoubleTapHoldKSM::new(100, 100, WATCHED_KEY, double_tap_hold_conf());
    machine.transition(&Event::KeyPress(WATCHED_KEY), 0);
    assert!(machine.transition(&Event::KeyRelease(WATCHED_KEY), 10).is_none());
    assert_eq!(
        machine.transition(&Event::KeyPress(WATCHED_KEY), 20),
        Some(single(DOUBLE_TAP_KEY_CODE))
    );
    assert!(machine.is_finished());

    // tapped once: tap after the retap window
    let mut machine = DoubleTapHoldKSM::new(100, 100, WATCHED_KEY, double_tap_hold_conf());
    machine.transition(&Event::KeyPress(WATCHED_KEY), 0);
    machine.transition(&Event::KeyRelease(WATCHED_KEY), 10);
    assert!(machine.transition(&Event::Poll, 110).is_none());
    assert_eq!(machine.transition(&Event::Poll, 111), Some(single(TAP_KEY_CODE)));
    assert!(machine.is_finished());
    assert_eq!(machine.get_cleanup_actions(), vec![stop(TAP_KEY_CODE)]);
}

#[test]
fn watched_key_press_helper() {
    let machine = build_hold_ksm();
    assert!(is_watched_key_pressed(&machine, &Event::KeyPress(WATCHED_KEY)));
    assert!(!is_watched_key_pressed(&machine, &Event::KeyPress(2)));
    assert!(!is_watched_key_pressed(&machine, &Event::KeyRelease(WATCHED_KEY)));
    assert!(!is_watched_key_pressed(&machine, &Event::Poll));
}
