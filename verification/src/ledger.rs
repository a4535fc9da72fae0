//! The event ledger: the history of key presses and their per-pass status.

use vstd::prelude::*;
use crate::error::Fault;
use crate::keycode::{EventType, UsbKeycode};
use crate::report::{Frame, Report};

verus! {

/// Where a press stands in the current pass.
///
/// A consumed press is never looked at again. A handled press is left alone
/// for the rest of the current pass and becomes unhandled again when the pass
/// ends. An unhandled press is still waiting for a filter to decide on it.
#[derive(Clone, Copy, Debug, PartialEq, Eq, Structural)]
pub enum PressStatus {
    Consumed,
    Handled,
    Unhandled,
}

/// One physical key's way from its down edge to its up edge.
#[derive(Clone, Copy, Debug, PartialEq, Eq)]
pub struct PressEvent {
    /// The key to emit for this press.
    pub sim_keycode: UsbKeycode,
    /// The physical key; presses are matched by it.
    pub usb_keycode: UsbKeycode,
    /// Microseconds since the epoch at the down edge.
    pub keydown_time: u64,
    /// Microseconds since the epoch at the up edge; `None` while held.
    pub keyup_time: Option<u64>,
    /// Where the press stands in the current pass.
    pub status: PressStatus,
}

impl PressEvent {
    /// This press with another status, everything else alike.
    pub open spec fn with_status(self, status: PressStatus) -> PressEvent {
        PressEvent { status, ..self }
    }

    /// This press with its up edge stamped.
    pub open spec fn with_keyup(self, time: u64) -> PressEvent {
        PressEvent { keyup_time: Some(time), ..self }
    }

    /// The key is still down.
    pub open spec fn spec_pressed(&self) -> bool {
        self.keyup_time is None
    }

    /// The key has come up again.
    pub open spec fn spec_released(&self) -> bool {
        self.keyup_time is Some
    }

    /// A press that has just gone down: held, unhandled, emitting its own key.
    pub fn new(usb_keycode: UsbKeycode, time: u64) -> (ev: PressEvent)
        ensures
            ev == (PressEvent {
                sim_keycode: usb_keycode,
                usb_keycode,
                keydown_time: time,
                keyup_time: None,
                status: PressStatus::Unhandled,
            }),
    {
        PressEvent {
            usb_keycode,
            sim_keycode: usb_keycode,
            keydown_time: time,
            keyup_time: None,
            status: PressStatus::Unhandled,
        }
    }

    /// The physical key.
    pub fn usb_keycode(&self) -> (k: UsbKeycode)
        ensures
            k == self.usb_keycode,
    {
        self.usb_keycode
    }

    /// The time of the down edge, in microseconds since the epoch.
    pub fn keydown_time(&self) -> (t: u64)
        ensures
            t == self.keydown_time,
    {
        self.keydown_time
    }

    /// Where the press stands in the current pass.
    pub fn status(&self) -> (s: PressStatus)
        ensures
            s == self.status,
    {
        self.status
    }

    /// Settles an unhandled press for good.
    pub fn consume(&mut self)
        requires
            old(self).status == PressStatus::Unhandled,
        ensures
            *final(self) == old(self).with_status(PressStatus::Consumed),
    {
        self.status = PressStatus::Consumed;
    }

    /// Sets an unhandled press aside for the rest of the pass.
    pub fn handle(&mut self)
        requires
            old(self).status == PressStatus::Unhandled,
        ensures
            *final(self) == old(self).with_status(PressStatus::Handled),
    {
        self.status = PressStatus::Handled;
    }

    /// Whether the key is still down.
    #[verifier::when_used_as_spec(spec_pressed)]
    pub fn pressed(&self) -> (r: bool)
        ensures
            r == self.spec_pressed(),
    {
        self.keyup_time.is_none()
    }

    /// Whether the key has come up again.
    #[verifier::when_used_as_spec(spec_released)]
    pub fn released(&self) -> (r: bool)
        ensures
            r == self.spec_released(),
    {
        self.keyup_time.is_some()
    }
}

/// The ledger as a mathematical value: the presses, oldest first by their
/// down edge, and the keys gathered for the next report.
#[verifier::ext_equal]
pub struct Ledger {
    pub history: Seq<PressEvent>,
    pub pending: Seq<UsbKeycode>,
}

/// The positions in `history`, most recent first, of the presses that `pick`
/// accepts.
pub open spec fn newest_first(history: Seq<PressEvent>, pick: spec_fn(PressEvent) -> bool) -> Seq<int>
    decreases history.len(),
{
    if history.len() == 0 {
        Seq::empty()
    } else if pick(history.last()) {
        seq![history.len() - 1] + newest_first(history.drop_last(), pick)
    } else {
        newest_first(history.drop_last(), pick)
    }
}

/// The positions in `history`, oldest first, of the presses that `pick`
/// accepts.
pub open spec fn oldest_first(history: Seq<PressEvent>, pick: spec_fn(PressEvent) -> bool) -> Seq<int>
    decreases history.len(),
{
    if history.len() == 0 {
        Seq::empty()
    } else if pick(history.last()) {
        oldest_first(history.drop_last(), pick).push(history.len() - 1)
    } else {
        oldest_first(history.drop_last(), pick)
    }
}

/// `newest_first` lists exactly the accepted positions, each once, in
/// strictly falling order.
pub proof fn lemma_newest_first(history: Seq<PressEvent>, pick: spec_fn(PressEvent) -> bool)
    ensures
        forall|k: int|
            0 <= k < newest_first(history, pick).len() ==> 0 <= #[trigger] newest_first(history, pick)[k]
                < history.len() && pick(history[newest_first(history, pick)[k]]),
        forall|j: int, k: int|
            0 <= j < k < newest_first(history, pick).len() ==> newest_first(history, pick)[j]
                > newest_first(history, pick)[k],
        forall|i: int|
            0 <= i < history.len() && pick(history[i]) ==> newest_first(history, pick).contains(i),
        newest_first(history, pick).len() <= history.len(),
    decreases history.len(),
{
    if history.len() > 0 {
        let rest = history.drop_last();
        lemma_newest_first(rest, pick);
        let tail = newest_first(rest, pick);
        let all = newest_first(history, pick);
        if pick(history.last()) {
            assert forall|i: int| 0 <= i < history.len() && pick(history[i]) implies all.contains(
                i,
            ) by {
                if i == history.len() - 1 {
                    assert(all[0] == i);
                } else {
                    assert(tail.contains(i));
                    let k = choose|k: int| 0 <= k < tail.len() && tail[k] == i;
                    assert(all[k + 1] == i);
                }
            }
        } else {
            assert forall|i: int| 0 <= i < history.len() && pick(history[i]) implies all.contains(
                i,
            ) by {}
        }
    }
}

/// `oldest_first` lists exactly the accepted positions, each once, in
/// strictly rising order.
pub proof fn lemma_oldest_first(history: Seq<PressEvent>, pick: spec_fn(PressEvent) -> bool)
    ensures
        forall|k: int|
            0 <= k < oldest_first(history, pick).len() ==> 0 <= #[trigger] oldest_first(history, pick)[k]
                < history.len() && pick(history[oldest_first(history, pick)[k]]),
        forall|j: int, k: int|
            0 <= j < k < oldest_first(history, pick).len() ==> oldest_first(history, pick)[j]
                < oldest_first(history, pick)[k],
        forall|i: int|
            0 <= i < history.len() && pick(history[i]) ==> oldest_first(history, pick).contains(i),
        oldest_first(history, pick).len() <= history.len(),
    decreases history.len(),
{
    if history.len() > 0 {
        let rest = history.drop_last();
        lemma_oldest_first(rest, pick);
        let front = oldest_first(rest, pick);
        let all = oldest_first(history, pick);
        assert forall|i: int| 0 <= i < history.len() && pick(history[i]) implies all.contains(
            i,
        ) by {
            if i == history.len() - 1 {
                assert(all[all.len() - 1] == i);
            } else {
                assert(front.contains(i));
                let k = choose|k: int| 0 <= k < front.len() && front[k] == i;
                assert(all[k] == i);
            }
        }
    }
}

/// The positions among `listed`, the last of them first, of the presses that
/// `pick` accepts.
pub open spec fn last_first(
    history: Seq<PressEvent>,
    listed: Seq<int>,
    pick: spec_fn(PressEvent) -> bool,
) -> Seq<int>
    decreases listed.len(),
{
    if listed.len() == 0 {
        Seq::empty()
    } else if pick(history[listed.last()]) {
        seq![listed.last()] + last_first(history, listed.drop_last(), pick)
    } else {
        last_first(history, listed.drop_last(), pick)
    }
}

/// `last_first` looks at no press but the listed ones.
pub proof fn lemma_last_first_reads_listed(
    one: Seq<PressEvent>,
    other: Seq<PressEvent>,
    listed: Seq<int>,
    pick: spec_fn(PressEvent) -> bool,
)
    requires
        forall|k: int| 0 <= k < listed.len() ==> one[#[trigger] listed[k]] == other[listed[k]],
    ensures
        last_first(one, listed, pick) == last_first(other, listed, pick),
    decreases listed.len(),
{
    if listed.len() > 0 {
        let rest = listed.drop_last();
        assert forall|k: int| 0 <= k < rest.len() implies one[#[trigger] rest[k]] == other[rest[k]] by {}
        lemma_last_first_reads_listed(one, other, rest, pick);
    }
}

/// To pick among the unhandled presses is to pick among all of them, where
/// only unhandled ones are picked: nothing is lost by looking at the
/// unhandled presses alone.
pub proof fn lemma_unhandled_suffice(history: Seq<PressEvent>, pick: spec_fn(PressEvent) -> bool)
    requires
        forall|e: PressEvent| #[trigger] pick(e) ==> e.status == PressStatus::Unhandled,
    ensures
        last_first(history, oldest_first(history, pick_unhandled()), pick) == newest_first(
            history,
            pick,
        ),
    decreases history.len(),
{
    if history.len() > 0 {
        let rest = history.drop_last();
        let listed = oldest_first(rest, pick_unhandled());
        lemma_unhandled_suffice(rest, pick);
        lemma_oldest_first(rest, pick_unhandled());
        assert forall|k: int| 0 <= k < listed.len() implies history[#[trigger] listed[k]]
            == rest[listed[k]] by {}
        lemma_last_first_reads_listed(history, rest, listed, pick);
        if pick_unhandled()(history.last()) {
            assert(listed.push(history.len() - 1).drop_last() =~= listed);
        }
    }
}

/// Where the unhandled presses up to the `k`-th of them end: the position of
/// the `k`-th, or the end of the history where there are no more than `k`.
pub open spec fn unhandled_bound(history: Seq<PressEvent>, k: int) -> int {
    let listed = oldest_first(history, pick_unhandled());
    if 0 <= k < listed.len() {
        listed[k]
    } else {
        history.len() as int
    }
}

/// Between one unhandled press and the next there is none: a press after
/// the first `k` unhandled ones and before the next is not unhandled.
pub proof fn lemma_between_unhandled(history: Seq<PressEvent>, k: int, i: int)
    requires
        0 <= k <= oldest_first(history, pick_unhandled()).len(),
        0 <= i < unhandled_bound(history, k),
        k > 0 ==> unhandled_bound(history, k - 1) < i,
    ensures
        history[i].status != PressStatus::Unhandled,
{
    let listed = oldest_first(history, pick_unhandled());
    lemma_oldest_first(history, pick_unhandled());
    if history[i].status == PressStatus::Unhandled {
        assert(listed.contains(i));
    }
}

/// The criteria of a matcher, held against one press. A criterion that is
/// `None` accepts every press.
///
/// * `keys`: the physical key is one of these.
/// * `released`: the press has been released (`true`) or is held (`false`).
/// * `pressed_before`: the key went down no later than this time.
/// * `extends_past`: the press is still held, or was released no earlier
///   than this time.
pub open spec fn accepts(
    keys: Option<Seq<UsbKeycode>>,
    released: Option<bool>,
    pressed_before: Option<u64>,
    extends_past: Option<u64>,
    e: PressEvent,
) -> bool {
    &&& keys matches Some(ks) ==> ks.contains(e.usb_keycode)
    &&& released matches Some(r) ==> r == (e.keyup_time is Some)
    &&& pressed_before matches Some(t) ==> e.keydown_time <= t
    &&& extends_past matches Some(t) ==> (e.keyup_time matches Some(up) ==> up >= t)
}

/// The keys of an optional list.
pub open spec fn key_list(keys: Option<Vec<UsbKeycode>>) -> Option<Seq<UsbKeycode>> {
    match keys {
        None => None,
        Some(ks) => Some(ks@),
    }
}

/// Accepts the presses of `key` that are still held.
pub open spec fn pick_open(key: UsbKeycode) -> spec_fn(PressEvent) -> bool {
    |e: PressEvent| accepts(Some(seq![key]), Some(false), None, None, e)
}

/// Accepts the presses that no filter has settled in this pass.
pub open spec fn pick_unhandled() -> spec_fn(PressEvent) -> bool {
    |e: PressEvent| e.status == PressStatus::Unhandled
}

/// The positions as mathematical integers.
pub open spec fn positions(v: Seq<usize>) -> Seq<int> {
    v.map_values(|i: usize| i as int)
}

impl Ledger {
    /// The ledger in which nothing has happened yet.
    pub open spec fn empty() -> Ledger {
        Ledger { history: Seq::empty(), pending: Seq::empty() }
    }

    /// Whether a press of `key` is held.
    pub open spec fn holds(self, key: UsbKeycode) -> bool {
        exists|i: int| 0 <= i < self.history.len() && #[trigger] pick_open(key)(self.history[i])
    }

    /// No key is held by two presses at once.
    pub open spec fn held_once(self) -> bool {
        forall|i: int, j: int|
            0 <= i < j < self.history.len() && (#[trigger] self.history[i]).keyup_time is None && (
            #[trigger] self.history[j]).keyup_time is None ==> self.history[i].usb_keycode
                != self.history[j].usb_keycode
    }

    /// No press is left that a filter has yet to settle.
    pub open spec fn all_consumed(self) -> bool {
        forall|i: int|
            0 <= i < self.history.len() ==> (#[trigger] self.history[i]).status
                == PressStatus::Consumed
    }

    /// The ledger after a transition of `key` at `time`.
    ///
    /// A down edge appends a fresh press. An up edge stamps the most recent
    /// press of `key` that is still held; where there is none the ledger is
    /// out of step with the hardware and the transition is a fault.
    pub open spec fn push(self, key: UsbKeycode, ev_type: EventType, time: u64) -> Result<Ledger, Fault> {
        match ev_type {
            EventType::KeyDown => Ok(
                Ledger {
                    history: self.history.push(
                        PressEvent {
                            sim_keycode: key,
                            usb_keycode: key,
                            keydown_time: time,
                            keyup_time: None,
                            status: PressStatus::Unhandled,
                        },
                    ),
                    pending: self.pending,
                },
            ),
            EventType::KeyUp => {
                let open = newest_first(self.history, pick_open(key));
                if open.len() > 0 {
                    Ok(
                        Ledger {
                            history: self.history.update(
                                open[0],
                                self.history[open[0]].with_keyup(time),
                            ),
                            pending: self.pending,
                        },
                    )
                } else {
                    Err(Fault::LedgerDesync)
                }
            },
        }
    }

    /// The ledger at the end of a pass: the pending keys are gone, a handled
    /// press is unhandled again, and a history in which every press is
    /// consumed is dropped.
    pub open spec fn reset(self) -> Ledger {
        Ledger {
            history: if self.all_consumed() {
                Seq::empty()
            } else {
                Seq::new(
                    self.history.len(),
                    |i: int|
                        if self.history[i].status == PressStatus::Handled {
                            self.history[i].with_status(PressStatus::Unhandled)
                        } else {
                            self.history[i]
                        },
                )
            },
            pending: Seq::empty(),
        }
    }
}

/// Ending a pass a second time changes nothing, and a ledger in which every
/// press is consumed is empty once the pass has ended; so is an empty one.
pub proof fn lemma_reset_idempotent(ledger: Ledger)
    ensures
        ledger.all_consumed() ==> ledger.reset() == Ledger::empty(),
        Ledger::empty().reset() == Ledger::empty(),
        ledger.reset().reset() == ledger.reset(),
{
    if !ledger.all_consumed() {
        let i = choose|i: int|
            0 <= i < ledger.history.len() && (#[trigger] ledger.history[i]).status
                != PressStatus::Consumed;
        assert(ledger.reset().history[i].status != PressStatus::Consumed);
    }
}

/// What the end of a pass leaves of the history: no press is handled any
/// more, and unless the whole history is dropped every press is what it
/// was, but for a handled one that is unhandled again.
pub proof fn lemma_reset_history(ledger: Ledger)
    ensures
        forall|i: int|
            0 <= i < ledger.reset().history.len() ==> (#[trigger] ledger.reset().history[i]).status
                != PressStatus::Handled,
        !ledger.all_consumed() ==> ledger.reset().history.len() == ledger.history.len(),
        !ledger.all_consumed() ==> forall|i: int|
            0 <= i < ledger.history.len() ==> #[trigger] ledger.reset().history[i]
                == ledger.history[i].with_status(
                if ledger.history[i].status == PressStatus::Consumed {
                    PressStatus::Consumed
                } else {
                    PressStatus::Unhandled
                },
            ),
        ledger.held_once() ==> ledger.reset().held_once(),
{
}

/// Whether `key` is among `keys`.
pub fn contains_key(keys: &Vec<UsbKeycode>, key: UsbKeycode) -> (found: bool)
    ensures
        found == keys@.contains(key),
{
    let mut i: usize = 0;
    while i < keys.len()
        invariant
            i <= keys.len(),
            forall|j: int| 0 <= j < i ==> keys@[j] != key,
        decreases keys.len() - i,
    {
        if keys[i] == key {
            return true;
        }
        i += 1;
    }
    false
}

/// The ledger that the arbitration stage owns.
#[derive(Debug)]
pub struct State {
    /// The presses, oldest first by their down edge.
    pub history: Vec<PressEvent>,
    /// The keys gathered during the current pass for the next report.
    pub pressed: Vec<UsbKeycode>,
}

impl Default for State {
    /// An empty ledger.
    fn default() -> (state: State)
        ensures
            state.ledger() == Ledger::empty(),
    {
        State::new()
    }
}

impl State {
    /// What the ledger holds.
    pub open spec fn ledger(&self) -> Ledger {
        Ledger { history: self.history@, pending: self.pressed@ }
    }

    /// An empty ledger.
    pub fn new() -> (state: State)
        ensures
            state.ledger() == Ledger::empty(),
            state.ledger().held_once(),
    {
        State { history: Vec::new(), pressed: Vec::new() }
    }

    /// A test for presses by up to four criteria; a criterion that is `None`
    /// accepts every press.
    pub fn matcher(
        key: Option<Vec<UsbKeycode>>,
        released: Option<bool>,
        pressed_before: Option<u64>,
        extends_past: Option<u64>,
    ) -> (test: impl Fn(&PressEvent) -> bool)
        ensures
            forall|e: &PressEvent| call_requires(test, (e,)),
            forall|e: &PressEvent, r: bool|
                call_ensures(test, (e,), r) ==> r == accepts(
                    key_list(key),
                    released,
                    pressed_before,
                    extends_past,
                    *e,
                ),
    {
        move |e: &PressEvent| -> (r: bool)
            ensures
                r == accepts(key_list(key), released, pressed_before, extends_past, *e),
            {
                let key_match = match &key {
                    None => true,
                    Some(ks) => contains_key(ks, e.usb_keycode),
                };
                let released_match = match released {
                    None => true,
                    Some(r) => r == e.keyup_time.is_some(),
                };
                let pressed_before_match = match pressed_before {
                    None => true,
                    Some(t) => e.keydown_time <= t,
                };
                let extends_past_match = match (extends_past, e.keyup_time) {
                    (None, _) => true,
                    (Some(t), Some(up)) => up >= t,
                    (Some(_), None) => true,
                };
                key_match && released_match && pressed_before_match && extends_past_match
            }
    }

    /// Records a transition of `key` at `time`.
    ///
    /// A down edge always succeeds. An up edge with no held press of `key`
    /// to close is refused, and the ledger stays as it was.
    pub fn push(&mut self, key: UsbKeycode, ev_type: EventType, time: u64) -> (r: Result<(), Fault>)
        ensures
            match old(self).ledger().push(key, ev_type, time) {
                Ok(next) => r is Ok && final(self).ledger() == next,
                Err(fault) => r == Err::<(), Fault>(fault) && final(self).ledger() == old(self).ledger(),
            },
            r is Err <==> ev_type == EventType::KeyUp && !old(self).ledger().holds(key),
            old(self).ledger().held_once() && (ev_type == EventType::KeyDown ==> !old(
                self,
            ).ledger().holds(key)) ==> final(self).ledger().held_once(),
    {
        let ghost h = self.history@;
        match ev_type {
            EventType::KeyDown => {
                self.history.push(PressEvent::new(key, time));
                proof {
                    if old(self).ledger().held_once() && !old(self).ledger().holds(key) {
                        let after = self.history@;
                        assert forall|i: int, j: int|
                            0 <= i < j < after.len() && (#[trigger] after[i]).keyup_time is None && (
                            #[trigger] after[j]).keyup_time is None implies after[i].usb_keycode
                            != after[j].usb_keycode by {
                            if j == h.len() && h[i].usb_keycode == key {
                                assert(seq![key][0] == key);
                                assert(pick_open(key)(h[i]));
                            }
                        }
                    }
                }
                Ok(())
            },
            EventType::KeyUp => {
                let keys: Vec<UsbKeycode> = vec![key];
                assert(keys@ =~= seq![key]);
                let test = Self::matcher(Some(keys), Some(false), None, None);
                let ghost pick = pick_open(key);
                let mut i: usize = self.history.len();
                assert(h.take(i as int) =~= h);
                while i > 0
                    invariant
                        i <= h.len(),
                        ev_type == EventType::KeyUp,
                        h == old(self).history@,
                        self.history@ == h,
                        self.pressed@ == old(self).pressed@,
                        pick == pick_open(key),
                        newest_first(h.take(i as int), pick) == newest_first(h, pick),
                        forall|j: int| i <= j < h.len() ==> !pick(h[j]),
                        forall|e: &PressEvent| call_requires(test, (e,)),
                        forall|e: &PressEvent, r: bool|
                            call_ensures(test, (e,), r) ==> r == accepts(
                                Some(seq![key]),
                                Some(false),
                                None,
                                None,
                                *e,
                            ),
                    decreases i,
                {
                    i -= 1;
                    assert(h.take(i + 1).drop_last() =~= h.take(i as int));
                    if test(&self.history[i]) {
                        let mut ev = self.history[i];
                        ev.keyup_time = Some(time);
                        self.history.set(i, ev);
                        return Ok(());
                    }
                }
                Err(Fault::LedgerDesync)
            },
        }
    }

    /// Ends a pass: forgets the pending keys, makes every handled press
    /// unhandled again, and drops the history once every press in it is
    /// consumed.
    pub fn reset(&mut self)
        ensures
            final(self).ledger() == old(self).ledger().reset(),
            final(self).pressed@.len() == 0,
            old(self).ledger().all_consumed() ==> final(self).history@.len() == 0,
            !old(self).ledger().all_consumed() ==> final(self).history@.len() == old(
                self,
            ).history@.len(),
    {
        let ghost h = self.history@;
        let mut all_consumed = true;
        let n: usize = self.history.len();
        let mut i: usize = 0;
        while i < n
            invariant
                i <= n,
                n == h.len(),
                self.history@.len() == n,
                all_consumed <==> forall|k: int|
                    0 <= k < i ==> (#[trigger] h[k]).status == PressStatus::Consumed,
                forall|k: int|
                    0 <= k < i ==> self.history@[k] == if h[k].status == PressStatus::Handled {
                        h[k].with_status(PressStatus::Unhandled)
                    } else {
                        h[k]
                    },
                forall|k: int| i <= k < n ==> self.history@[k] == h[k],
            decreases n - i,
        {
            let mut ev = self.history[i];
            if ev.status != PressStatus::Consumed {
                all_consumed = false;
            }
            if ev.status == PressStatus::Handled {
                ev.status = PressStatus::Unhandled;
                self.history.set(i, ev);
            }
            i += 1;
        }
        if all_consumed {
            self.history.clear();
        }
        self.pressed.clear();
    }

    /// The positions, oldest first, of the presses that are still unhandled:
    /// what a filter has to look at.
    pub fn view(&self) -> (unhandled: Vec<usize>)
        ensures
            positions(unhandled@) == oldest_first(self.history@, pick_unhandled()),
    {
        let ghost pick = pick_unhandled();
        let mut unhandled: Vec<usize> = Vec::new();
        let mut i: usize = 0;
        while i < self.history.len()
            invariant
                i <= self.history@.len(),
                pick == pick_unhandled(),
                positions(unhandled@) == oldest_first(self.history@.take(i as int), pick),
            decreases self.history.len() - i,
        {
            assert(self.history@.take(i + 1).drop_last() =~= self.history@.take(i as int));
            if self.history[i].status == PressStatus::Unhandled {
                unhandled.push(i);
            }
            i += 1;
        }
        assert(self.history@.take(i as int) =~= self.history@);
        unhandled
    }

    /// Builds the report of the pending keys and ends the pass.
    ///
    /// The pass ends in either case; where the pending keys do not fit a
    /// report, the fault is returned in its place.
    pub fn report(&mut self) -> (r: Result<Report, Fault>)
        ensures
            match Frame::build(old(self).ledger().pending) {
                Ok(frame) => r matches Ok(report) && report@ == frame,
                Err(fault) => r matches Err(f) && f == fault,
            },
            final(self).ledger() == old(self).ledger().reset(),
    {
        let ghost pending = self.pressed@;
        let mut report = Report::new();
        let mut fault: Option<Fault> = None;
        let mut i: usize = 0;
        while i < self.pressed.len()
            invariant
                i <= pending.len(),
                *self == *old(self),
                pending == self.pressed@,
                match fault {
                    None => Frame::build(pending.take(i as int)) == Ok::<Frame, Fault>(report@),
                    Some(f) => Frame::build(pending.take(i as int)) == Err::<Frame, Fault>(f),
                },
            decreases pending.len() - i,
        {
            assert(pending.take(i + 1).drop_last() =~= pending.take(i as int));
            if fault.is_none() {
                match report.add_key(self.pressed[i]) {
                    Ok(()) => {},
                    Err(f) => {
                        fault = Some(f);
                    },
                }
            }
            i += 1;
        }
        assert(pending.take(i as int) =~= pending);
        self.reset();
        match fault {
            None => Ok(report),
            Some(f) => Err(f),
        }
    }
}

} // verus!
