use keyrelay::error::Fault;
use keyrelay::keycode::{EventType, UsbKeycode};
use keyrelay::ledger::{contains_key, PressEvent, PressStatus, State};

const A: UsbKeycode = UsbKeycode { data: 4 };
const B: UsbKeycode = UsbKeycode { data: 5 };
const C: UsbKeycode = UsbKeycode { data: 6 };

fn press(key: UsbKeycode, down: u64, up: Option<u64>, status: PressStatus) -> PressEvent {
    PressEvent { sim_keycode: key, usb_keycode: key, keydown_time: down, keyup_time: up, status }
}

fn same(a: &PressEvent, b: &PressEvent) -> bool {
    a.sim_keycode == b.sim_keycode
        && a.usb_keycode == b.usb_keycode
        && a.keydown_time == b.keydown_time
        && a.keyup_time == b.keyup_time
        && a.status == b.status
}

fn same_history(a: &[PressEvent], b: &[PressEvent]) -> bool {
    a.len() == b.len() && a.iter().zip(b.iter()).all(|(x, y)| same(x, y))
}

#[test]
fn new_press_is_held_and_unhandled() {
    let ev = PressEvent::new(A, 17);
    assert_eq!(ev.usb_keycode(), A);
    assert_eq!(ev.sim_keycode, A);
    assert_eq!(ev.keydown_time(), 17);
    assert_eq!(ev.keyup_time, None);
    assert_eq!(ev.status(), PressStatus::Unhandled);
    assert!(ev.pressed());
    assert!(!ev.released());
}

#[test]
fn consume_and_handle_change_only_the_status() {
    let mut ev = PressEvent::new(A, 1);
    ev.consume();
    assert!(same(&ev, &press(A, 1, None, PressStatus::Consumed)));
    let mut ev = PressEvent::new(B, 2);
    ev.handle();
    assert!(same(&ev, &press(B, 2, None, PressStatus::Handled)));
}

#[test]
fn released_press_is_not_pressed() {
    let ev = press(A, 1, Some(2), PressStatus::Unhandled);
    assert!(ev.released());
    assert!(!ev.pressed());
}

#[test]
fn default_state_is_empty() {
    let state = State::default();
    assert!(state.history.is_empty());
    assert!(state.pressed.is_empty());
    let state = State::new();
    assert!(state.history.is_empty());
    assert!(state.pressed.is_empty());
}

#[test]
fn key_down_appends_a_fresh_press() {
    let mut state = State::new();
    assert_eq!(state.push(A, EventType::KeyDown, 10), Ok(()));
    assert_eq!(state.push(B, EventType::KeyDown, 20), Ok(()));
    assert!(same_history(
        &state.history,
        &[press(A, 10, None, PressStatus::Unhandled), press(B, 20, None, PressStatus::Unhandled)]
    ));
    assert!(state.pressed.is_empty());
}

#[test]
fn key_up_stamps_the_matching_press() {
    let mut state = State::new();
    state.push(A, EventType::KeyDown, 10).unwrap();
    state.push(B, EventType::KeyDown, 20).unwrap();
    assert_eq!(state.push(A, EventType::KeyUp, 30), Ok(()));
    assert!(same_history(
        &state.history,
        &[press(A, 10, Some(30), PressStatus::Unhandled), press(B, 20, None, PressStatus::Unhandled)]
    ));
}

#[test]
fn key_up_picks_the_most_recent_held_press() {
    let mut state = State::new();
    state.history = vec![
        press(A, 1, None, PressStatus::Unhandled),
        press(A, 2, Some(3), PressStatus::Unhandled),
        press(A, 4, None, PressStatus::Handled),
        press(B, 5, None, PressStatus::Unhandled),
    ];
    assert_eq!(state.push(A, EventType::KeyUp, 9), Ok(()));
    assert!(same_history(
        &state.history,
        &[
            press(A, 1, None, PressStatus::Unhandled),
            press(A, 2, Some(3), PressStatus::Unhandled),
            press(A, 4, Some(9), PressStatus::Handled),
            press(B, 5, None, PressStatus::Unhandled),
        ]
    ));
    assert_eq!(state.push(A, EventType::KeyUp, 11), Ok(()));
    assert_eq!(state.history[0].keyup_time, Some(11));
    assert_eq!(state.push(A, EventType::KeyUp, 12), Err(Fault::LedgerDesync));
}

#[test]
fn key_up_matches_by_the_physical_key() {
    let mut state = State::new();
    let mut remapped = press(A, 1, None, PressStatus::Unhandled);
    remapped.sim_keycode = B;
    state.history = vec![remapped];
    assert_eq!(state.push(B, EventType::KeyUp, 2), Err(Fault::LedgerDesync));
    assert_eq!(state.push(A, EventType::KeyUp, 2), Ok(()));
    assert_eq!(state.history[0].keyup_time, Some(2));
    assert_eq!(state.history[0].sim_keycode, B);
}

#[test]
fn key_up_without_press_is_a_desync_and_changes_nothing() {
    let mut state = State::new();
    assert_eq!(state.push(A, EventType::KeyUp, 5), Err(Fault::LedgerDesync));
    assert!(state.history.is_empty());
    state.push(A, EventType::KeyDown, 10).unwrap();
    state.push(A, EventType::KeyUp, 11).unwrap();
    state.pressed = vec![C];
    assert_eq!(state.push(A, EventType::KeyUp, 12), Err(Fault::LedgerDesync));
    assert_eq!(state.push(B, EventType::KeyUp, 12), Err(Fault::LedgerDesync));
    assert!(same_history(&state.history, &[press(A, 10, Some(11), PressStatus::Unhandled)]));
    assert_eq!(state.pressed, vec![C]);
}

#[test]
fn reset_makes_handled_presses_unhandled_again() {
    let mut state = State::new();
    state.history = vec![
        press(A, 1, None, PressStatus::Handled),
        press(B, 2, Some(3), PressStatus::Consumed),
        press(C, 4, None, PressStatus::Unhandled),
    ];
    state.pressed = vec![A, C];
    state.reset();
    assert!(same_history(
        &state.history,
        &[
            press(A, 1, None, PressStatus::Unhandled),
            press(B, 2, Some(3), PressStatus::Consumed),
            press(C, 4, None, PressStatus::Unhandled),
        ]
    ));
    assert!(state.pressed.is_empty());
}

#[test]
fn reset_drops_a_history_that_is_all_consumed() {
    let mut state = State::new();
    state.history =
        vec![press(A, 1, Some(2), PressStatus::Consumed), press(B, 2, Some(3), PressStatus::Consumed)];
    state.pressed = vec![A];
    state.reset();
    assert!(state.history.is_empty());
    assert!(state.pressed.is_empty());
}

#[test]
fn reset_keeps_consumed_presses_while_another_is_open() {
    let mut state = State::new();
    state.history =
        vec![press(A, 1, Some(2), PressStatus::Consumed), press(B, 2, None, PressStatus::Unhandled)];
    state.reset();
    assert_eq!(state.history.len(), 2);
    assert_eq!(state.history[0].status(), PressStatus::Consumed);
}

#[test]
fn reset_twice_is_reset_once() {
    let mut state = State::new();
    state.history = vec![
        press(A, 1, None, PressStatus::Handled),
        press(B, 2, Some(3), PressStatus::Consumed),
    ];
    state.pressed = vec![A];
    state.reset();
    let once = state.history.clone();
    state.reset();
    assert!(same_history(&state.history, &once));
    assert!(state.pressed.is_empty());
}

#[test]
fn reset_on_an_empty_ledger_is_a_no_op() {
    let mut state = State::new();
    state.reset();
    assert!(state.history.is_empty());
    assert!(state.pressed.is_empty());
    state.reset();
    assert!(state.history.is_empty());
    assert!(state.pressed.is_empty());
}

#[test]
fn view_lists_unhandled_presses_oldest_first() {
    let mut state = State::new();
    assert_eq!(state.view(), Vec::<usize>::new());
    state.history = vec![
        press(A, 1, None, PressStatus::Unhandled),
        press(B, 2, None, PressStatus::Handled),
        press(C, 3, Some(4), PressStatus::Unhandled),
        press(A, 5, Some(6), PressStatus::Consumed),
        press(B, 7, None, PressStatus::Unhandled),
    ];
    assert_eq!(state.view(), vec![0, 2, 4]);
}

#[test]
fn matcher_without_criteria_accepts_everything() {
    let test = State::matcher(None, None, None, None);
    assert!(test(&press(A, 1, None, PressStatus::Unhandled)));
    assert!(test(&press(B, 9, Some(10), PressStatus::Consumed)));
}

#[test]
fn matcher_by_key() {
    let test = State::matcher(Some(vec![A, C]), None, None, None);
    assert!(test(&press(A, 1, None, PressStatus::Unhandled)));
    assert!(test(&press(C, 1, Some(2), PressStatus::Handled)));
    assert!(!test(&press(B, 1, None, PressStatus::Unhandled)));
    let none = State::matcher(Some(vec![]), None, None, None);
    assert!(!none(&press(A, 1, None, PressStatus::Unhandled)));
}

#[test]
fn matcher_by_key_reads_the_physical_key() {
    let test = State::matcher(Some(vec![A]), None, None, None);
    let mut remapped = press(A, 1, None, PressStatus::Unhandled);
    remapped.sim_keycode = B;
    assert!(test(&remapped));
    let mut other = press(B, 1, None, PressStatus::Unhandled);
    other.sim_keycode = A;
    assert!(!test(&other));
}

#[test]
fn matcher_by_released() {
    let held = press(A, 1, None, PressStatus::Unhandled);
    let released = press(A, 1, Some(2), PressStatus::Unhandled);
    let wants_released = State::matcher(None, Some(true), None, None);
    assert!(wants_released(&released));
    assert!(!wants_released(&held));
    let wants_held = State::matcher(None, Some(false), None, None);
    assert!(wants_held(&held));
    assert!(!wants_held(&released));
}

#[test]
fn matcher_by_pressed_before() {
    let test = State::matcher(None, None, Some(10), None);
    assert!(test(&press(A, 9, None, PressStatus::Unhandled)));
    assert!(test(&press(A, 10, None, PressStatus::Unhandled)));
    assert!(!test(&press(A, 11, None, PressStatus::Unhandled)));
}

#[test]
fn matcher_by_extends_past() {
    let test = State::matcher(None, None, None, Some(10));
    assert!(test(&press(A, 1, Some(10), PressStatus::Unhandled)));
    assert!(test(&press(A, 1, Some(11), PressStatus::Unhandled)));
    assert!(!test(&press(A, 1, Some(9), PressStatus::Unhandled)));
    assert!(test(&press(A, 1, None, PressStatus::Unhandled)));
}

#[test]
fn matcher_needs_every_criterion_to_hold() {
    let test = State::matcher(Some(vec![A]), Some(true), Some(5), Some(8));
    assert!(test(&press(A, 5, Some(8), PressStatus::Unhandled)));
    assert!(!test(&press(B, 5, Some(8), PressStatus::Unhandled)));
    assert!(!test(&press(A, 5, None, PressStatus::Unhandled)));
    assert!(!test(&press(A, 6, Some(8), PressStatus::Unhandled)));
    assert!(!test(&press(A, 5, Some(7), PressStatus::Unhandled)));
}

#[test]
fn contains_key_finds_listed_keys() {
    assert!(contains_key(&vec![A, B], B));
    assert!(!contains_key(&vec![A, B], C));
    assert!(!contains_key(&vec![], A));
}
