use keyrelay::error::Fault;
use keyrelay::filters::Filter;
use keyrelay::keycode::{EventType, KeycodeMap, UsbKeycode};
use keyrelay::ledger::PressStatus;
use keyrelay::relay::{decode, timestamp, Outcome, RawEvent, Relay, Transition, Wakeup, EV_KEY};

fn key_event(code: u16, value: i32, usecs: i64) -> RawEvent {
    RawEvent { kind: EV_KEY, code, value, secs: 0, usecs }
}

fn frames(outcome: &Outcome) -> Vec<Result<[u8; 8], Fault>> {
    outcome.reports.iter().map(|r| r.map(|report| report.data())).collect()
}

#[test]
fn timestamp_counts_microseconds() {
    assert_eq!(timestamp(0, 0), Some(0));
    assert_eq!(timestamp(1, 5), Some(1_000_005));
    assert_eq!(timestamp(1_700_000_000, 250_000), Some(1_700_000_000_250_000));
    assert_eq!(timestamp(0, 2_500_000), Some(2_500_000));
}

#[test]
fn timestamp_refuses_negative_parts() {
    assert_eq!(timestamp(-1, 0), None);
    assert_eq!(timestamp(0, -1), None);
    assert_eq!(timestamp(i64::MIN, i64::MIN), None);
}

#[test]
fn timestamp_refuses_what_does_not_fit() {
    assert_eq!(timestamp(18_446_744_073_709, 551_615), Some(u64::MAX));
    assert_eq!(timestamp(18_446_744_073_709, 551_616), None);
    assert_eq!(timestamp(i64::MAX, 0), None);
    assert_eq!(timestamp(i64::MAX, i64::MAX), None);
    assert_eq!(timestamp(0, i64::MAX), Some(i64::MAX as u64));
}

#[test]
fn decode_reads_press_and_release() {
    let map = KeycodeMap::standard();
    assert_eq!(
        decode(map, RawEvent { kind: 1, code: 30, value: 1, secs: 2, usecs: 7 }),
        Ok(Some(Transition { key: UsbKeycode { data: 4 }, ev_type: EventType::KeyDown, time: 2_000_007 }))
    );
    assert_eq!(
        decode(map, RawEvent { kind: 1, code: 103, value: 0, secs: 0, usecs: 9 }),
        Ok(Some(Transition { key: UsbKeycode { data: 82 }, ev_type: EventType::KeyUp, time: 9 }))
    );
}

#[test]
fn decode_passes_over_what_is_no_transition() {
    let map = KeycodeMap::standard();
    assert_eq!(decode(map, RawEvent { kind: 0, code: 30, value: 1, secs: 0, usecs: 0 }), Ok(None));
    assert_eq!(decode(map, RawEvent { kind: 4, code: 30, value: 1, secs: 0, usecs: 0 }), Ok(None));
    assert_eq!(decode(map, key_event(30, 2, 0)), Ok(None));
    assert_eq!(decode(map, key_event(30, -1, 0)), Ok(None));
    assert_eq!(decode(map, key_event(256, 1, 0)), Ok(None));
    assert_eq!(decode(map, key_event(0x110, 0, 0)), Ok(None));
}

#[test]
fn decode_reports_a_bad_time_only_for_a_transition() {
    let map = KeycodeMap::standard();
    assert_eq!(
        decode(map, RawEvent { kind: 1, code: 30, value: 1, secs: -1, usecs: 0 }),
        Err(Fault::BadTimestamp)
    );
    assert_eq!(
        decode(map, RawEvent { kind: 1, code: 30, value: 0, secs: 0, usecs: -5 }),
        Err(Fault::BadTimestamp)
    );
    assert_eq!(decode(map, RawEvent { kind: 0, code: 30, value: 1, secs: -1, usecs: 0 }), Ok(None));
    assert_eq!(decode(map, RawEvent { kind: 1, code: 30, value: 2, secs: -1, usecs: 0 }), Ok(None));
    assert_eq!(decode(map, RawEvent { kind: 1, code: 300, value: 1, secs: -1, usecs: 0 }), Ok(None));
}

#[test]
fn decode_keeps_unmapped_keys_as_the_null_key() {
    let map = KeycodeMap::standard();
    assert_eq!(
        decode(map, key_event(200, 1, 3)),
        Ok(Some(Transition { key: UsbKeycode { data: 0 }, ev_type: EventType::KeyDown, time: 3 }))
    );
}

#[test]
fn standard_relay_starts_empty_with_three_filters() {
    let relay = Relay::standard();
    assert!(relay.state.history.is_empty());
    assert!(relay.state.pressed.is_empty());
    assert_eq!(relay.filters.len(), 3);
    match &relay.filters[0] {
        Filter::RelaxedChording { chord_keys, max_wait_msecs } => {
            assert_eq!(
                chord_keys,
                &vec![
                    UsbKeycode { data: 82 },
                    UsbKeycode { data: 80 },
                    UsbKeycode { data: 79 },
                    UsbKeycode { data: 81 },
                ]
            );
            assert_eq!(*max_wait_msecs, 4);
        }
        other => panic!("unexpected first filter {:?}", other),
    }
    assert!(matches!(relay.filters[1], Filter::DirectPassthrough));
    assert!(matches!(relay.filters[2], Filter::DirectReport));
    assert_eq!(relay.map.table, KeycodeMap::standard().table);
}

#[test]
fn new_relay_keeps_what_it_is_given() {
    let map = KeycodeMap { table: [9u8; 256] };
    let relay = Relay::new(map, vec![Filter::DirectReport]);
    assert!(relay.state.history.is_empty());
    assert_eq!(relay.filters.len(), 1);
    assert_eq!(relay.map.table, [9u8; 256]);
}

#[test]
fn shutdown_flushes_one_report_at_rest() {
    let mut relay = Relay::standard();
    let down = relay.step(Wakeup::Event(key_event(30, 1, 0)), 0);
    assert_eq!(frames(&down), vec![Ok([0, 0, 4, 0, 0, 0, 0, 0])]);
    assert!(!down.stop);
    let last = relay.step(Wakeup::Shutdown, 1_000);
    assert!(last.stop);
    assert_eq!(last.fault, None);
    assert_eq!(frames(&last), vec![Ok([0u8; 8])]);
    assert_eq!(last.reports.last().unwrap().unwrap().mod_byte, 0);
    assert_eq!(last.reports.last().unwrap().unwrap().keys, [UsbKeycode { data: 0 }; 6]);
    assert_eq!(relay.state.history.len(), 1);
}

#[test]
fn lost_capture_stage_ends_like_a_shutdown() {
    let mut relay = Relay::standard();
    relay.step(Wakeup::Event(key_event(29, 1, 0)), 0);
    let last = relay.step(Wakeup::Disconnected, 5);
    assert!(last.stop);
    assert_eq!(last.fault, None);
    assert_eq!(frames(&last), vec![Ok([0u8; 8])]);
}

#[test]
fn timeout_runs_a_pass() {
    let mut relay = Relay::standard();
    let idle = relay.step(Wakeup::Timeout, 0);
    assert!(!idle.stop);
    assert_eq!(idle.fault, None);
    assert_eq!(frames(&idle), vec![Ok([0u8; 8])]);
    relay.step(Wakeup::Event(key_event(30, 1, 10)), 10);
    let held = relay.step(Wakeup::Timeout, 2_010);
    assert_eq!(frames(&held), vec![Ok([0, 0, 4, 0, 0, 0, 0, 0])]);
}

#[test]
fn stray_release_is_dropped_with_a_fault() {
    let mut relay = Relay::standard();
    let stray = relay.step(Wakeup::Event(key_event(30, 0, 5)), 5);
    assert_eq!(stray.fault, Some(Fault::LedgerDesync));
    assert!(stray.reports.is_empty());
    assert!(!stray.stop);
    assert!(relay.state.history.is_empty());
}

#[test]
fn event_with_a_bad_time_is_dropped_with_a_fault() {
    let mut relay = Relay::standard();
    let bad = relay.step(
        Wakeup::Event(RawEvent { kind: 1, code: 30, value: 1, secs: -3, usecs: 0 }),
        5,
    );
    assert_eq!(bad.fault, Some(Fault::BadTimestamp));
    assert!(bad.reports.is_empty());
    assert!(!bad.stop);
    assert!(relay.state.history.is_empty());
}

#[test]
fn other_events_are_passed_over_without_a_pass() {
    let mut relay = Relay::standard();
    relay.step(Wakeup::Event(key_event(30, 1, 0)), 0);
    for raw in [
        RawEvent { kind: 0, code: 0, value: 0, secs: 0, usecs: 1 },
        RawEvent { kind: 4, code: 4, value: 458756, secs: 0, usecs: 1 },
        key_event(30, 2, 1),
        key_event(0x110, 1, 1),
    ] {
        let out = relay.step(Wakeup::Event(raw), 1);
        assert!(out.reports.is_empty());
        assert_eq!(out.fault, None);
        assert!(!out.stop);
    }
    assert_eq!(relay.state.history.len(), 1);
    assert_eq!(relay.state.history[0].status(), PressStatus::Unhandled);
}

#[test]
fn standard_relay_tells_an_arrow_chord() {
    let mut relay = Relay::standard();
    let up = relay.step(Wakeup::Event(key_event(103, 1, 0)), 100);
    assert_eq!(frames(&up), vec![Ok([0u8; 8])]);
    let waiting = relay.step(Wakeup::Timeout, 2_100);
    assert_eq!(frames(&waiting), vec![Ok([0u8; 8])]);
    let left = relay.step(Wakeup::Event(key_event(105, 1, 3_000)), 3_100);
    assert_eq!(frames(&left), vec![Ok([0, 0, 80, 82, 0, 0, 0, 0])]);
    assert!(relay.state.history.is_empty());
    let release = relay.step(Wakeup::Event(key_event(103, 0, 9_000)), 9_100);
    assert_eq!(release.fault, Some(Fault::LedgerDesync));
}

#[test]
fn standard_relay_resolves_an_arrow_tap_after_four_milliseconds() {
    let mut relay = Relay::standard();
    relay.step(Wakeup::Event(key_event(108, 1, 0)), 0);
    let released = relay.step(Wakeup::Event(key_event(108, 0, 1_000)), 1_000);
    assert_eq!(frames(&released), vec![Ok([0u8; 8])]);
    assert_eq!(frames(&relay.step(Wakeup::Timeout, 3_000)), vec![Ok([0u8; 8])]);
    assert_eq!(frames(&relay.step(Wakeup::Timeout, 5_000)), vec![Ok([0u8; 8])]);
    assert_eq!(frames(&relay.step(Wakeup::Timeout, 5_001)), vec![Ok([0, 0, 81, 0, 0, 0, 0, 0])]);
    assert!(relay.state.history.is_empty());
}

#[test]
fn standard_relay_passes_modifiers_and_keys_through() {
    let mut relay = Relay::standard();
    let shift = relay.step(Wakeup::Event(key_event(42, 1, 0)), 0);
    assert_eq!(frames(&shift), vec![Ok([2, 0, 0, 0, 0, 0, 0, 0])]);
    let a = relay.step(Wakeup::Event(key_event(30, 1, 10)), 10);
    assert_eq!(frames(&a), vec![Ok([2, 0, 4, 0, 0, 0, 0, 0])]);
    let a_up = relay.step(Wakeup::Event(key_event(30, 0, 20)), 20);
    assert_eq!(frames(&a_up), vec![Ok([2, 0, 0, 0, 0, 0, 0, 0])]);
    let shift_up = relay.step(Wakeup::Event(key_event(42, 0, 30)), 30);
    assert_eq!(frames(&shift_up), vec![Ok([0u8; 8])]);
    assert!(relay.state.history.is_empty());
}

#[test]
fn seventh_held_key_shows_as_an_overflow() {
    let mut relay = Relay::standard();
    let codes: [u16; 7] = [30, 48, 46, 32, 18, 33, 34];
    for (i, code) in codes.iter().enumerate() {
        let out = relay.step(Wakeup::Event(key_event(*code, 1, i as i64)), i as u64);
        if i < 6 {
            assert!(frames(&out)[0].is_ok());
        } else {
            assert_eq!(frames(&out), vec![Err(Fault::SixKeyOverflow)]);
        }
    }
    let sixth = relay.step(Wakeup::Event(key_event(34, 0, 10)), 10);
    assert_eq!(frames(&sixth), vec![Ok([0, 0, 9, 8, 7, 6, 5, 4])]);
}
