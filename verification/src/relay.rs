//! The decisions of the arbitration stage.
//!
//! The stage owns the ledger. Whoever runs it waits for the next event of
//! the input device, hands what came of the wait to `Relay::step`, sends on
//! the reports that come back, and stops when told to.

use vstd::prelude::*;
use crate::error::Fault;
use crate::filters::{all_shown, pass_ledger, pass_reports, Filter, MAX_WAIT_MSECS};
use crate::keycode::{
    arrow_codes, arrow_keys, lemma_standard_arrows, EventType, KeycodeMap, UsbKeycode,
};
use crate::ledger::{Ledger, State};
use crate::report::{Frame, Report};

verus! {

/// The kind of input event that reports a key.
pub const EV_KEY: u16 = 1;

/// An event as the input device hands it over.
#[derive(Clone, Copy, Debug, PartialEq, Eq)]
pub struct RawEvent {
    /// The kind of event; only `EV_KEY` matters here.
    pub kind: u16,
    /// The key code of the input layer.
    pub code: u16,
    /// 0 for a release, 1 for a press.
    pub value: i32,
    /// Seconds since the epoch.
    pub secs: i64,
    /// Microseconds on top of the seconds.
    pub usecs: i64,
}

/// A key transition, ready for the ledger.
#[derive(Clone, Copy, Debug, PartialEq, Eq)]
pub struct Transition {
    /// The key that went down or came up.
    pub key: UsbKeycode,
    /// Which of the two it did.
    pub ev_type: EventType,
    /// Microseconds since the epoch.
    pub time: u64,
}

/// The time in microseconds since the epoch, where both parts are not
/// negative and the sum can be counted in 64 bits.
pub open spec fn spec_timestamp(secs: i64, usecs: i64) -> Option<u64> {
    if secs >= 0 && usecs >= 0 && secs * 1_000_000 + usecs <= u64::MAX {
        Some((secs * 1_000_000 + usecs) as u64)
    } else {
        None
    }
}

/// The time of an event in microseconds since the epoch.
#[verifier::when_used_as_spec(spec_timestamp)]
pub fn timestamp(secs: i64, usecs: i64) -> (time: Option<u64>)
    ensures
        time == spec_timestamp(secs, usecs),
{
    if secs < 0 || usecs < 0 {
        return None;
    }
    let total: u128 = (secs as u128) * 1_000_000 + (usecs as u128);
    if total > u64::MAX as u128 {
        None
    } else {
        Some(total as u64)
    }
}

/// What an event means to the ledger.
///
/// Only a key event with a key code that the table covers and a value of 0
/// or 1 is a transition; anything else is passed over. A transition whose
/// time cannot be represented is a fault.
pub open spec fn spec_decode(map: KeycodeMap, raw: RawEvent) -> Result<Option<Transition>, Fault> {
    if raw.kind != EV_KEY || (raw.value != 0 && raw.value != 1) {
        Ok(None)
    } else {
        match map.spec_keycode(raw.code) {
            None => Ok(None),
            Some(key) => match spec_timestamp(raw.secs, raw.usecs) {
                None => Err(Fault::BadTimestamp),
                Some(time) => Ok(
                    Some(
                        Transition {
                            key,
                            ev_type: if raw.value == 0 {
                                EventType::KeyUp
                            } else {
                                EventType::KeyDown
                            },
                            time,
                        },
                    ),
                ),
            },
        }
    }
}

/// Reads an event of the input device.
#[verifier::when_used_as_spec(spec_decode)]
pub fn decode(map: KeycodeMap, raw: RawEvent) -> (decoded: Result<Option<Transition>, Fault>)
    ensures
        decoded == spec_decode(map, raw),
{
    if raw.kind != EV_KEY || (raw.value != 0 && raw.value != 1) {
        return Ok(None);
    }
    let key = match map.keycode(raw.code) {
        None => {
            return Ok(None);
        },
        Some(key) => key,
    };
    let time = match timestamp(raw.secs, raw.usecs) {
        None => {
            return Err(Fault::BadTimestamp);
        },
        Some(time) => time,
    };
    let ev_type = if raw.value == 0 {
        EventType::KeyUp
    } else {
        EventType::KeyDown
    };
    Ok(Some(Transition { key, ev_type, time }))
}

/// What ended the wait for the next event.
#[derive(Clone, Copy, Debug)]
pub enum Wakeup {
    /// The input device reported an event.
    Event(RawEvent),
    /// Nothing arrived within the polling interval.
    Timeout,
    /// The capture stage is gone.
    Disconnected,
    /// The process was asked to stop.
    Shutdown,
}

/// What a step of the arbitration stage asks of its runner.
#[derive(Debug)]
pub struct Outcome {
    /// What to hand to the emit stage, in order.
    pub reports: Vec<Result<Report, Fault>>,
    /// The fault for which the event was dropped, if it was.
    pub fault: Option<Fault>,
    /// Whether the stage is done.
    pub stop: bool,
}

/// A step of the arbitration stage as a mathematical value.
pub struct Turn {
    /// The ledger after the step.
    pub ledger: Ledger,
    /// What the step emits, in order.
    pub reports: Seq<Result<Frame, Fault>>,
    /// The fault for which the event was dropped, if it was.
    pub fault: Option<Fault>,
    /// Whether the stage is done.
    pub stop: bool,
}

/// The step that a wake-up calls for.
///
/// * A shutdown or a lost capture stage ends the stage with one last report
///   of a keyboard at rest.
/// * A timeout runs a pass on the ledger as it is.
/// * A key transition is recorded and a pass is run. Where the ledger
///   refuses it, or its time is no time, the event is dropped with that
///   fault and no pass is run.
/// * Any other event is passed over.
pub open spec fn turn(ledger: Ledger, filters: Seq<Filter>, map: KeycodeMap, wakeup: Wakeup, now: u64) -> Turn {
    match wakeup {
        Wakeup::Shutdown | Wakeup::Disconnected => Turn {
            ledger,
            reports: seq![Ok(Frame::empty())],
            fault: None,
            stop: true,
        },
        Wakeup::Timeout => Turn {
            ledger: pass_ledger(filters, ledger, now),
            reports: pass_reports(filters, ledger, now),
            fault: None,
            stop: false,
        },
        Wakeup::Event(raw) => match spec_decode(map, raw) {
            Ok(None) => Turn { ledger, reports: Seq::empty(), fault: None, stop: false },
            Err(fault) => Turn { ledger, reports: Seq::empty(), fault: Some(fault), stop: false },
            Ok(Some(t)) => match ledger.push(t.key, t.ev_type, t.time) {
                Err(fault) => Turn {
                    ledger,
                    reports: Seq::empty(),
                    fault: Some(fault),
                    stop: false,
                },
                Ok(pushed) => Turn {
                    ledger: pass_ledger(filters, pushed, now),
                    reports: pass_reports(filters, pushed, now),
                    fault: None,
                    stop: false,
                },
            },
        },
    }
}

/// Whether a wake-up ends the stage.
pub open spec fn ends_stage(wakeup: Wakeup) -> bool {
    wakeup is Shutdown || wakeup is Disconnected
}

/// Everything that the stage emits when it is run on `wakeups`, each with
/// the time at which it is handled, until one of them ends the stage.
pub open spec fn run(ledger: Ledger, filters: Seq<Filter>, map: KeycodeMap, wakeups: Seq<(Wakeup, u64)>) -> Seq<
    Result<Frame, Fault>,
>
    decreases wakeups.len(),
{
    if wakeups.len() == 0 {
        Seq::empty()
    } else {
        let t = turn(ledger, filters, map, wakeups[0].0, wakeups[0].1);
        if t.stop {
            t.reports
        } else {
            t.reports + run(t.ledger, filters, map, wakeups.drop_first())
        }
    }
}

/// A clean shutdown: whatever came before, once a wake-up ends the stage
/// the last thing it emits is the report of a keyboard at rest, which goes
/// over the wire as eight zero bytes.
pub proof fn lemma_clean_shutdown(
    ledger: Ledger,
    filters: Seq<Filter>,
    map: KeycodeMap,
    wakeups: Seq<(Wakeup, u64)>,
)
    requires
        exists|i: int| 0 <= i < wakeups.len() && ends_stage(#[trigger] wakeups[i].0),
    ensures
        run(ledger, filters, map, wakeups).len() > 0,
        run(ledger, filters, map, wakeups).last() == Ok::<Frame, Fault>(Frame::empty()),
        Frame::empty().bytes() == seq![0u8, 0u8, 0u8, 0u8, 0u8, 0u8, 0u8, 0u8],
    decreases wakeups.len(),
{
    let t = turn(ledger, filters, map, wakeups[0].0, wakeups[0].1);
    if !t.stop {
        let rest = wakeups.drop_first();
        let i = choose|i: int| 0 <= i < wakeups.len() && ends_stage(#[trigger] wakeups[i].0);
        assert(rest[i - 1] == wakeups[i]);
        lemma_clean_shutdown(t.ledger, filters, map, rest);
    }
}

/// The filters of the usual relay: the chord filter on the arrow keys with
/// the usual wait, then passthrough, then the report.
pub open spec fn is_standard_chain(filters: Seq<Filter>, map: KeycodeMap) -> bool {
    &&& filters.len() == 3
    &&& filters[0] matches Filter::RelaxedChording { chord_keys, max_wait_msecs }
    &&& max_wait_msecs == MAX_WAIT_MSECS
    &&& chord_keys@.len() == 4
    &&& forall|i: int| 0 <= i < 4 ==> map.spec_keycode(arrow_codes()[i]) == Some(#[trigger] chord_keys@[i])
    &&& filters[1] is DirectPassthrough
    &&& filters[2] is DirectReport
}

/// The arbitration stage: the ledger, the filters of a pass, and the table
/// that maps key codes.
#[derive(Debug)]
pub struct Relay {
    /// The ledger.
    pub state: State,
    /// The filters of a pass, in their order.
    pub filters: Vec<Filter>,
    /// The table from input key codes to usage codes.
    pub map: KeycodeMap,
}

/// The outcome of a step that emits nothing and goes on.
fn nothing_emitted(fault: Option<Fault>) -> (outcome: Outcome)
    ensures
        all_shown(outcome.reports@) == Seq::<Result<Frame, Fault>>::empty(),
        outcome.fault == fault,
        !outcome.stop,
{
    let reports: Vec<Result<Report, Fault>> = Vec::new();
    Outcome { reports, fault, stop: false }
}

impl Relay {
    /// A stage with an empty ledger.
    pub fn new(map: KeycodeMap, filters: Vec<Filter>) -> (relay: Relay)
        ensures
            relay.state.ledger() == Ledger::empty(),
            relay.filters == filters,
            relay.map == map,
    {
        Relay { state: State::new(), filters, map }
    }

    /// The usual stage: the usual table and the usual filters.
    pub fn standard() -> (relay: Relay)
        ensures
            relay.state.ledger() == Ledger::empty(),
            relay.map.is_standard(),
            is_standard_chain(relay.filters@, relay.map),
            relay.filters@[0] matches Filter::RelaxedChording { chord_keys, .. } && chord_keys@
                == seq![
                UsbKeycode { data: 82 },
                UsbKeycode { data: 80 },
                UsbKeycode { data: 79 },
                UsbKeycode { data: 81 },
            ],
    {
        let map = KeycodeMap::standard();
        proof {
            lemma_standard_arrows(map);
        }
        let mut filters: Vec<Filter> = Vec::new();
        filters.push(
            Filter::RelaxedChording { chord_keys: arrow_keys(&map), max_wait_msecs: MAX_WAIT_MSECS },
        );
        filters.push(Filter::DirectPassthrough);
        filters.push(Filter::DirectReport);
        Relay { state: State::new(), filters, map }
    }

    /// Takes one step of the stage at the time `now`, in microseconds since
    /// the epoch.
    pub fn step(&mut self, wakeup: Wakeup, now: u64) -> (outcome: Outcome)
        ensures
            final(self).filters == old(self).filters,
            final(self).map == old(self).map,
            ({
                let t = turn(old(self).state.ledger(), old(self).filters@, old(self).map, wakeup, now);
                &&& final(self).state.ledger() == t.ledger
                &&& all_shown(outcome.reports@) == t.reports
                &&& outcome.fault == t.fault
                &&& outcome.stop == t.stop
            }),
    {
        match wakeup {
            Wakeup::Shutdown | Wakeup::Disconnected => {
                let mut reports: Vec<Result<Report, Fault>> = Vec::new();
                reports.push(Ok(Report::new()));
                Outcome { reports, fault: None, stop: true }
            },
            Wakeup::Timeout => {
                let reports = self.state.update(&self.filters, now);
                Outcome { reports, fault: None, stop: false }
            },
            Wakeup::Event(raw) => {
                match decode(self.map, raw) {
                    Ok(None) => nothing_emitted(None),
                    Err(fault) => nothing_emitted(Some(fault)),
                    Ok(Some(t)) => {
                        match self.state.push(t.key, t.ev_type, t.time) {
                            Err(fault) => nothing_emitted(Some(fault)),
                            Ok(()) => {
                                let reports = self.state.update(&self.filters, now);
                                Outcome { reports, fault: None, stop: false }
                            },
                        }
                    },
                }
            },
        }
    }
}

} // verus!
