//! The filters that make up a pass over the ledger.
//!
//! Each filter looks at the presses that are still unhandled, settles some of
//! them, and may add keys to the next report. A press that an earlier filter
//! has consumed or handled is out of sight for the filters that follow.

use vstd::prelude::*;
use crate::error::Fault;
use crate::keycode::UsbKeycode;
use crate::report::{Frame, Report};
use crate::ledger::{
    contains_key, last_first, lemma_between_unhandled, lemma_newest_first, lemma_oldest_first,
    lemma_reset_history, lemma_unhandled_suffice, newest_first, oldest_first, pick_unhandled,
    positions, unhandled_bound, Ledger, PressEvent, PressStatus, State,
};

verus! {

/// How long, in milliseconds, a released chord key waits for company.
pub const MAX_WAIT_MSECS: u64 = 4;

/// An unhandled press of one of the chord keys.
pub open spec fn chord_candidate(e: PressEvent, chord_keys: Seq<UsbKeycode>) -> bool {
    e.status == PressStatus::Unhandled && chord_keys.contains(e.usb_keycode)
}

/// The press was released more than `max_wait_msecs` before `now`.
pub open spec fn wait_elapsed(e: PressEvent, max_wait_msecs: u64, now: u64) -> bool {
    e.keyup_time matches Some(up) && now - up > max_wait_msecs * 1000
}

/// Accepts the chord candidates that are still held.
pub open spec fn pick_held(chord_keys: Seq<UsbKeycode>) -> spec_fn(PressEvent) -> bool {
    |e: PressEvent| chord_candidate(e, chord_keys) && e.keyup_time is None
}

/// Accepts the chord candidates that have been released.
pub open spec fn pick_released(chord_keys: Seq<UsbKeycode>) -> spec_fn(PressEvent) -> bool {
    |e: PressEvent| chord_candidate(e, chord_keys) && e.keyup_time is Some
}

/// Accepts the chord candidates whose wait is over.
pub open spec fn pick_elapsed(chord_keys: Seq<UsbKeycode>, max_wait_msecs: u64, now: u64) -> spec_fn(
    PressEvent,
) -> bool {
    |e: PressEvent| chord_candidate(e, chord_keys) && wait_elapsed(e, max_wait_msecs, now)
}

/// The positions of the presses that the chord filter consumes, in the order
/// in which their keys are emitted. The first rule that applies decides:
///
/// 1. a released candidate has waited too long: the most recent such press
///    is a tap of its own;
/// 2. more than one candidate is held: the held ones form a chord;
/// 3. there is more than one candidate in all: all of them form a chord,
///    the held ones first;
/// 4. otherwise nothing is consumed yet.
pub open spec fn chord_consumed(
    history: Seq<PressEvent>,
    chord_keys: Seq<UsbKeycode>,
    max_wait_msecs: u64,
    now: u64,
) -> Seq<int> {
    let held = newest_first(history, pick_held(chord_keys));
    let released = newest_first(history, pick_released(chord_keys));
    let elapsed = newest_first(history, pick_elapsed(chord_keys, max_wait_msecs, now));
    if elapsed.len() > 0 {
        seq![elapsed[0]]
    } else if held.len() > 1 {
        held
    } else if held.len() + released.len() > 1 {
        held + released
    } else {
        Seq::empty()
    }
}

/// The keys that the presses at `listed` emit, in that order.
pub open spec fn emitted_keys(history: Seq<PressEvent>, listed: Seq<int>) -> Seq<UsbKeycode> {
    listed.map_values(|i: int| history[i].sim_keycode)
}

/// The ledger after the chord filter: every candidate is consumed or, if the
/// decision on it is put off, handled; the keys of the consumed ones join the
/// pending keys. Presses of other keys, and presses that are not unhandled,
/// stay as they are.
pub open spec fn after_relaxed_chording(
    ledger: Ledger,
    chord_keys: Seq<UsbKeycode>,
    max_wait_msecs: u64,
    now: u64,
) -> Ledger {
    let consumed = chord_consumed(ledger.history, chord_keys, max_wait_msecs, now);
    Ledger {
        history: Seq::new(
            ledger.history.len(),
            |i: int|
                if chord_candidate(ledger.history[i], chord_keys) {
                    ledger.history[i].with_status(
                        if consumed.contains(i) {
                            PressStatus::Consumed
                        } else {
                            PressStatus::Handled
                        },
                    )
                } else {
                    ledger.history[i]
                },
        ),
        pending: ledger.pending + emitted_keys(ledger.history, consumed),
    }
}

/// What the chord filter has decided for this pass.
enum Verdict {
    /// The press at this position is a tap of its own.
    Tap(usize),
    /// The held candidates form a chord.
    HeldChord,
    /// All candidates form a chord.
    FullChord,
    /// Nothing can be decided yet.
    Wait,
}

/// Appends to the pending keys the emitted key of each listed press.
fn emit_keys(state: &mut State, listed: &Vec<usize>)
    requires
        forall|k: int| 0 <= k < listed@.len() ==> listed@[k] < old(state).history@.len(),
    ensures
        final(state).history@ == old(state).history@,
        final(state).pressed@ == old(state).pressed@ + emitted_keys(
            old(state).history@,
            positions(listed@),
        ),
{
    let ghost keys = emitted_keys(old(state).history@, positions(listed@));
    let mut k: usize = 0;
    while k < listed.len()
        invariant
            k <= listed.len(),
            state.history@ == old(state).history@,
            forall|j: int| 0 <= j < listed@.len() ==> listed@[j] < state.history@.len(),
            keys == emitted_keys(old(state).history@, positions(listed@)),
            state.pressed@ == old(state).pressed@ + keys.take(k as int),
        decreases listed.len() - k,
    {
        let i: usize = listed[k];
        let key = state.history[i].sim_keycode;
        state.pressed.push(key);
        k += 1;
    }
}

/// Tells a chord from a run of single taps.
///
/// Looks at the unhandled presses of the chord keys. A released one whose
/// wait of `max_wait_msecs` is over at `now` is emitted alone. Otherwise two
/// or more that are held together, or two or more in all, are emitted
/// together. A lone candidate within its wait is put off to a later pass.
pub fn relaxed_chording(
    state: &mut State,
    chord_keys: &Vec<UsbKeycode>,
    max_wait_msecs: u64,
    now: u64,
)
    ensures
        final(state).ledger() == after_relaxed_chording(
            old(state).ledger(),
            chord_keys@,
            max_wait_msecs,
            now,
        ),
{
    let ghost h = state.history@;
    let ghost chord = chord_keys@;
    let ghost p_held = pick_held(chord);
    let ghost p_released = pick_released(chord);
    let ghost p_elapsed = pick_elapsed(chord, max_wait_msecs, now);
    let unhandled = state.view();
    let ghost listed = positions(unhandled@);
    proof {
        lemma_oldest_first(h, pick_unhandled());
    }
    let mut held: Vec<usize> = Vec::new();
    let mut released: Vec<usize> = Vec::new();
    let mut elapsed: Option<usize> = None;
    let mut k: usize = unhandled.len();
    assert(listed.take(k as int) =~= listed);
    while k > 0
        invariant
            k <= unhandled@.len(),
            listed == positions(unhandled@),
            forall|m: int|
                0 <= m < listed.len() ==> 0 <= #[trigger] listed[m] < h.len()
                    && h[listed[m]].status == PressStatus::Unhandled,
            state.history@ == h,
            state.pressed@ == old(state).pressed@,
            chord == chord_keys@,
            p_held == pick_held(chord),
            p_released == pick_released(chord),
            p_elapsed == pick_elapsed(chord, max_wait_msecs, now),
            positions(held@) + last_first(h, listed.take(k as int), p_held) == last_first(
                h,
                listed,
                p_held,
            ),
            positions(released@) + last_first(h, listed.take(k as int), p_released) == last_first(
                h,
                listed,
                p_released,
            ),
            match elapsed {
                None => last_first(h, listed.take(k as int), p_elapsed) == last_first(
                    h,
                    listed,
                    p_elapsed,
                ),
                Some(x) => last_first(h, listed, p_elapsed).len() > 0 && last_first(
                    h,
                    listed,
                    p_elapsed,
                )[0] == x,
            },
        decreases k,
    {
        k -= 1;
        let i: usize = unhandled[k];
        assert(listed.take(k + 1).drop_last() =~= listed.take(k as int));
        let e = state.history[i];
        if contains_key(chord_keys, e.usb_keycode) {
            match e.keyup_time {
                None => {
                    held.push(i);
                },
                Some(up) => {
                    released.push(i);
                    if elapsed.is_none() && now > up && (now - up) as u128 > (
                    max_wait_msecs as u128) * 1000 {
                        elapsed = Some(i);
                    }
                },
            }
        }
    }
    let verdict = match elapsed {
        Some(x) => Verdict::Tap(x),
        None => {
            if held.len() > 1 {
                Verdict::HeldChord
            } else if released.len() > 1 - held.len() {
                Verdict::FullChord
            } else {
                Verdict::Wait
            }
        },
    };
    let ghost consumed = chord_consumed(h, chord, max_wait_msecs, now);
    let ghost target = after_relaxed_chording(old(state).ledger(), chord, max_wait_msecs, now);
    proof {
        lemma_unhandled_suffice(h, p_held);
        lemma_unhandled_suffice(h, p_released);
        lemma_unhandled_suffice(h, p_elapsed);
        lemma_newest_first(h, p_held);
        lemma_newest_first(h, p_released);
        lemma_newest_first(h, p_elapsed);
        assert forall|m: int| 0 <= m < held@.len() implies held@[m] < h.len() by {
            assert(positions(held@)[m] == held@[m]);
        }
        assert forall|m: int| 0 <= m < released@.len() implies released@[m] < h.len() by {
            assert(positions(released@)[m] == released@[m]);
        }
        assert forall|j: int| 0 <= j < h.len() && chord_candidate(h[j], chord) implies (
        consumed.contains(j) <==> match verdict {
            Verdict::Tap(x) => j == x,
            Verdict::HeldChord => h[j].keyup_time is None,
            Verdict::FullChord => true,
            Verdict::Wait => false,
        }) by {
            match verdict {
                Verdict::Tap(x) => {
                    assert(consumed[0] == x);
                },
                Verdict::HeldChord => {},
                Verdict::FullChord => {
                    if h[j].keyup_time is None {
                        assert(newest_first(h, p_held).contains(j));
                        let m = choose|m: int|
                            0 <= m < newest_first(h, p_held).len() && newest_first(h, p_held)[m]
                                == j;
                        assert(consumed[m] == j);
                    } else {
                        assert(newest_first(h, p_released).contains(j));
                        let m = choose|m: int|
                            0 <= m < newest_first(h, p_released).len() && newest_first(
                                h,
                                p_released,
                            )[m] == j;
                        assert(consumed[newest_first(h, p_held).len() + m] == j);
                    }
                },
                Verdict::Wait => {},
            }
        }
        assert forall|j: int| 0 <= j < unhandled_bound(h, 0) implies target.history[j] == h[j] by {
            lemma_between_unhandled(h, 0, j);
        }
    }
    let n: usize = unhandled.len();
    let mut k: usize = 0;
    while k < n
        invariant
            k <= n,
            n == unhandled@.len(),
            listed == positions(unhandled@),
            listed == oldest_first(h, pick_unhandled()),
            forall|m: int|
                0 <= m < listed.len() ==> 0 <= #[trigger] listed[m] < h.len()
                    && h[listed[m]].status == PressStatus::Unhandled,
            h == old(state).history@,
            state.history@.len() == h.len(),
            state.pressed@ == old(state).pressed@,
            chord == chord_keys@,
            target == after_relaxed_chording(old(state).ledger(), chord, max_wait_msecs, now),
            consumed == chord_consumed(h, chord, max_wait_msecs, now),
            forall|j: int|
                0 <= j < h.len() ==> #[trigger] state.history@[j] == if j < unhandled_bound(h, k as int) {
                    target.history[j]
                } else {
                    h[j]
                },
            forall|j: int|
                0 <= j < h.len() && chord_candidate(h[j], chord) ==> (consumed.contains(j)
                    <==> match verdict {
                    Verdict::Tap(x) => j == x,
                    Verdict::HeldChord => h[j].keyup_time is None,
                    Verdict::FullChord => true,
                    Verdict::Wait => false,
                }),
        decreases n - k,
    {
        let i: usize = unhandled[k];
        assert(listed[k as int] == i);
        let mut e = state.history[i];
        if contains_key(chord_keys, e.usb_keycode) {
            let settle = match verdict {
                Verdict::Tap(x) => i == x,
                Verdict::HeldChord => e.pressed(),
                Verdict::FullChord => true,
                Verdict::Wait => false,
            };
            if settle {
                e.consume();
            } else {
                e.handle();
            }
            state.history.set(i, e);
        }
        proof {
            assert forall|j: int| 0 <= j < h.len() implies #[trigger] state.history@[j] == if j
                < unhandled_bound(h, k + 1) {
                target.history[j]
            } else {
                h[j]
            } by {
                if i < j < unhandled_bound(h, k + 1) {
                    lemma_between_unhandled(h, k + 1, j);
                }
                if j >= unhandled_bound(h, k + 1) {
                    if k + 1 < listed.len() {
                        assert(listed[k as int] < listed[k + 1]) by {
                            lemma_oldest_first(h, pick_unhandled());
                        }
                    }
                }
            }
        }
        k += 1;
    }
    match verdict {
        Verdict::Tap(x) => {
            let mut single: Vec<usize> = Vec::new();
            single.push(x);
            emit_keys(state, &single);
        },
        Verdict::HeldChord => {
            emit_keys(state, &held);
        },
        Verdict::FullChord => {
            emit_keys(state, &held);
            emit_keys(state, &released);
        },
        Verdict::Wait => {},
    }
}

/// Accepts the unhandled presses that are still held.
pub open spec fn pick_unhandled_held() -> spec_fn(PressEvent) -> bool {
    |e: PressEvent| e.status == PressStatus::Unhandled && e.keyup_time is None
}

/// The ledger after the passthrough filter: an unhandled press that has been
/// released is consumed; one that is still held is handled, and its key
/// joins the pending keys, the most recent press first.
pub open spec fn after_direct_passthrough(ledger: Ledger) -> Ledger {
    Ledger {
        history: Seq::new(
            ledger.history.len(),
            |i: int|
                if ledger.history[i].status == PressStatus::Unhandled {
                    ledger.history[i].with_status(
                        if ledger.history[i].keyup_time is Some {
                            PressStatus::Consumed
                        } else {
                            PressStatus::Handled
                        },
                    )
                } else {
                    ledger.history[i]
                },
        ),
        pending: ledger.pending + emitted_keys(
            ledger.history,
            newest_first(ledger.history, pick_unhandled_held()),
        ),
    }
}

/// Settles every press that is still unhandled: a released one is done
/// with, a held one is part of the next report.
pub fn direct_passthrough(state: &mut State)
    ensures
        final(state).ledger() == after_direct_passthrough(old(state).ledger()),
{
    let ghost h = state.history@;
    let ghost pick = pick_unhandled_held();
    let ghost target = after_direct_passthrough(old(state).ledger());
    let ghost mut done: Seq<int> = Seq::empty();
    let unhandled = state.view();
    let ghost listed = positions(unhandled@);
    let mut k: usize = unhandled.len();
    proof {
        lemma_oldest_first(h, pick_unhandled());
        assert(listed.take(k as int) =~= listed);
        assert forall|j: int|
            0 <= j < h.len() && (k > 0 ==> listed[k - 1] < j) implies target.history[j]
            == h[j] by {
            lemma_between_unhandled(h, k as int, j);
        }
    }
    while k > 0
        invariant
            k <= unhandled@.len(),
            listed == positions(unhandled@),
            listed == oldest_first(h, pick_unhandled()),
            forall|m: int|
                0 <= m < listed.len() ==> 0 <= #[trigger] listed[m] < h.len()
                    && h[listed[m]].status == PressStatus::Unhandled,
            h == old(state).history@,
            state.history@.len() == h.len(),
            pick == pick_unhandled_held(),
            target == after_direct_passthrough(old(state).ledger()),
            forall|j: int|
                0 <= j < h.len() ==> #[trigger] state.history@[j] == if k > 0 && j <= listed[k - 1] {
                    h[j]
                } else {
                    target.history[j]
                },
            done + last_first(h, listed.take(k as int), pick) == last_first(h, listed, pick),
            state.pressed@ == old(state).pressed@ + emitted_keys(h, done),
        decreases k,
    {
        k -= 1;
        let i: usize = unhandled[k];
        assert(listed.take(k + 1).drop_last() =~= listed.take(k as int));
        let mut e = state.history[i];
        if e.released() {
            e.consume();
        } else {
            e.handle();
            state.pressed.push(e.sim_keycode);
            proof {
                done = done.push(i as int);
            }
        }
        state.history.set(i, e);
        proof {
            assert forall|j: int| 0 <= j < h.len() implies #[trigger] state.history@[j] == if k > 0
                && j <= listed[k - 1] {
                h[j]
            } else {
                target.history[j]
            } by {
                if j < i && (k > 0 ==> listed[k - 1] < j) {
                    lemma_between_unhandled(h, k as int, j);
                }
                if k > 0 {
                    assert(listed[k - 1] < listed[k as int]) by {
                        lemma_oldest_first(h, pick_unhandled());
                    }
                }
            }
        }
    }
    proof {
        lemma_unhandled_suffice(h, pick);
    }
}

/// Turns the pending keys into a report and ends the pass.
pub fn direct_report(state: &mut State) -> (r: Result<Report, Fault>)
    ensures
        match Frame::build(old(state).ledger().pending) {
            Ok(frame) => r matches Ok(report) && report@ == frame,
            Err(fault) => r matches Err(f) && f == fault,
        },
        final(state).ledger() == old(state).ledger().reset(),
{
    state.report()
}

/// Whether there is an unhandled chord press at position `i` that has
/// waited too long.
pub open spec fn elapsed_at(
    history: Seq<PressEvent>,
    chord_keys: Seq<UsbKeycode>,
    max_wait_msecs: u64,
    now: u64,
    i: int,
) -> bool {
    0 <= i < history.len() && chord_candidate(history[i], chord_keys) && wait_elapsed(
        history[i],
        max_wait_msecs,
        now,
    )
}

/// Whether there is an unhandled chord press at position `i` that is held.
pub open spec fn held_at(history: Seq<PressEvent>, chord_keys: Seq<UsbKeycode>, i: int) -> bool {
    0 <= i < history.len() && chord_candidate(history[i], chord_keys)
        && history[i].keyup_time is None
}

/// Whether there is an unhandled chord press at position `i`.
pub open spec fn candidate_at(history: Seq<PressEvent>, chord_keys: Seq<UsbKeycode>, i: int) -> bool {
    0 <= i < history.len() && chord_candidate(history[i], chord_keys)
}

/// The rules of the chord filter, said of the presses themselves.
///
/// * Where a candidate has waited too long, the most recent such candidate
///   is consumed and no other: a tap is emitted alone.
/// * Else, where two candidates are held, the held candidates are consumed
///   and no others: keys that are down together are emitted together, and
///   none of them alone before.
/// * Else, where there are two candidates, all candidates are consumed.
/// * Else nothing is consumed: a lone candidate waits.
pub proof fn lemma_chord_rules(
    history: Seq<PressEvent>,
    chord_keys: Seq<UsbKeycode>,
    max_wait_msecs: u64,
    now: u64,
)
    ensures
        ({
            let consumed = chord_consumed(history, chord_keys, max_wait_msecs, now);
            let any_elapsed = exists|i: int|
                elapsed_at(history, chord_keys, max_wait_msecs, now, i);
            let two_held = exists|i: int, j: int|
                i < j && held_at(history, chord_keys, i) && held_at(history, chord_keys, j);
            let two_candidates = exists|i: int, j: int|
                i < j && candidate_at(history, chord_keys, i) && candidate_at(
                    history,
                    chord_keys,
                    j,
                );
            if any_elapsed {
                &&& consumed.len() == 1
                &&& elapsed_at(history, chord_keys, max_wait_msecs, now, consumed[0])
                &&& forall|j: int|
                    consumed[0] < j ==> !elapsed_at(history, chord_keys, max_wait_msecs, now, j)
            } else if two_held {
                forall|i: int| consumed.contains(i) <==> held_at(history, chord_keys, i)
            } else if two_candidates {
                forall|i: int| consumed.contains(i) <==> candidate_at(history, chord_keys, i)
            } else {
                consumed.len() == 0
            }
        }),
{
    let p_held = pick_held(chord_keys);
    let p_released = pick_released(chord_keys);
    let p_elapsed = pick_elapsed(chord_keys, max_wait_msecs, now);
    let held = newest_first(history, p_held);
    let released = newest_first(history, p_released);
    let elapsed = newest_first(history, p_elapsed);
    let consumed = chord_consumed(history, chord_keys, max_wait_msecs, now);
    lemma_newest_first(history, p_held);
    lemma_newest_first(history, p_released);
    lemma_newest_first(history, p_elapsed);
    let any_elapsed = exists|i: int| elapsed_at(history, chord_keys, max_wait_msecs, now, i);
    let two_held = exists|i: int, j: int|
        i < j && held_at(history, chord_keys, i) && held_at(history, chord_keys, j);
    let two_candidates = exists|i: int, j: int|
        i < j && candidate_at(history, chord_keys, i) && candidate_at(history, chord_keys, j);
    assert(any_elapsed <==> elapsed.len() > 0) by {
        if any_elapsed {
            let i = choose|i: int| elapsed_at(history, chord_keys, max_wait_msecs, now, i);
            assert(elapsed.contains(i));
        }
        if elapsed.len() > 0 {
            assert(elapsed_at(history, chord_keys, max_wait_msecs, now, elapsed[0]));
        }
    }
    assert(two_held <==> held.len() > 1) by {
        if two_held {
            let (i, j) = choose|i: int, j: int|
                i < j && held_at(history, chord_keys, i) && held_at(history, chord_keys, j);
            assert(held.contains(i) && held.contains(j));
        }
        if held.len() > 1 {
            assert(held_at(history, chord_keys, held[1]) && held_at(history, chord_keys, held[0]));
        }
    }
    if any_elapsed {
        assert forall|j: int| consumed[0] < j implies !elapsed_at(
            history,
            chord_keys,
            max_wait_msecs,
            now,
            j,
        ) by {
            if elapsed_at(history, chord_keys, max_wait_msecs, now, j) {
                assert(elapsed.contains(j));
            }
        }
    } else if !two_held {
        assert(two_candidates <==> held.len() + released.len() > 1) by {
            if two_candidates {
                let (i, j) = choose|i: int, j: int|
                    i < j && candidate_at(history, chord_keys, i) && candidate_at(
                        history,
                        chord_keys,
                        j,
                    );
                assert(held.contains(i) || released.contains(i));
                assert(held.contains(j) || released.contains(j));
            }
            if held.len() + released.len() > 1 {
                if held.len() == 1 {
                    assert(candidate_at(history, chord_keys, held[0]));
                    assert(candidate_at(history, chord_keys, released[0]));
                } else {
                    assert(candidate_at(history, chord_keys, released[0]));
                    assert(candidate_at(history, chord_keys, released[1]));
                }
            }
        }
        if two_candidates {
            assert forall|i: int| consumed.contains(i) <==> candidate_at(
                history,
                chord_keys,
                i,
            ) by {
                if candidate_at(history, chord_keys, i) {
                    if history[i].keyup_time is None {
                        assert(held.contains(i));
                        let k = choose|k: int| 0 <= k < held.len() && held[k] == i;
                        assert(consumed[k] == i);
                    } else {
                        assert(released.contains(i));
                        let k = choose|k: int| 0 <= k < released.len() && released[k] == i;
                        assert(consumed[held.len() + k] == i);
                    }
                }
            }
        }
    }
}

/// The same presses, with nothing changed about any of them but the status,
/// and that only where it was unhandled.
pub open spec fn settles(before: Seq<PressEvent>, after: Seq<PressEvent>) -> bool {
    &&& after.len() == before.len()
    &&& forall|i: int|
        0 <= i < before.len() ==> (#[trigger] after[i]) == before[i].with_status(after[i].status)
    &&& forall|i: int|
        0 <= i < before.len() && before[i].status != PressStatus::Unhandled ==> (
        #[trigger] after[i]) == before[i]
}

/// The chord filter settles presses and does nothing else to the history:
/// a press that is consumed stays consumed, one that is handled stays
/// handled for the rest of the pass, no key or time is changed, and the
/// presses of other keys are left alone.
pub proof fn lemma_chording_settles(
    ledger: Ledger,
    chord_keys: Seq<UsbKeycode>,
    max_wait_msecs: u64,
    now: u64,
)
    ensures
        settles(
            ledger.history,
            after_relaxed_chording(ledger, chord_keys, max_wait_msecs, now).history,
        ),
        forall|i: int|
            0 <= i < ledger.history.len() && !chord_keys.contains(ledger.history[i].usb_keycode)
                ==> #[trigger] after_relaxed_chording(
                ledger,
                chord_keys,
                max_wait_msecs,
                now,
            ).history[i] == ledger.history[i],
{
}

/// The passthrough filter settles presses and does nothing else to the
/// history, and it leaves no press unhandled.
pub proof fn lemma_passthrough_settles(ledger: Ledger)
    ensures
        settles(ledger.history, after_direct_passthrough(ledger).history),
        forall|i: int|
            0 <= i < ledger.history.len() ==> (#[trigger] after_direct_passthrough(
                ledger,
            ).history[i]).status != PressStatus::Unhandled,
{
}

/// The keys that a filter adds to the pending keys are emitted keys of
/// presses that it has settled in the same step: the chord filter adds those
/// of the presses it consumes, the passthrough filter those of the presses
/// it finds held.
pub proof fn lemma_filters_emit_what_they_settle(
    ledger: Ledger,
    chord_keys: Seq<UsbKeycode>,
    max_wait_msecs: u64,
    now: u64,
)
    ensures
        ({
            let after = after_relaxed_chording(ledger, chord_keys, max_wait_msecs, now);
            let consumed = chord_consumed(ledger.history, chord_keys, max_wait_msecs, now);
            &&& after.pending == ledger.pending + emitted_keys(ledger.history, consumed)
            &&& forall|k: int|
                0 <= k < consumed.len() ==> 0 <= #[trigger] consumed[k] < ledger.history.len()
                    && chord_candidate(ledger.history[consumed[k]], chord_keys)
                    && after.history[consumed[k]].status == PressStatus::Consumed
            &&& forall|j: int, k: int|
                0 <= j < k < consumed.len() ==> consumed[j] != consumed[k]
            &&& forall|i: int|
                0 <= i < ledger.history.len() && after.history[i].status == PressStatus::Consumed
                    && ledger.history[i].status != PressStatus::Consumed ==> consumed.contains(i)
        }),
        ({
            let after = after_direct_passthrough(ledger);
            let held = newest_first(ledger.history, pick_unhandled_held());
            &&& after.pending == ledger.pending + emitted_keys(ledger.history, held)
            &&& forall|k: int|
                0 <= k < held.len() ==> 0 <= #[trigger] held[k] < ledger.history.len()
                    && ledger.history[held[k]].status == PressStatus::Unhandled
                    && after.history[held[k]].status == PressStatus::Handled
            &&& forall|j: int, k: int| 0 <= j < k < held.len() ==> held[j] > held[k]
        }),
{
    let h = ledger.history;
    lemma_newest_first(h, pick_held(chord_keys));
    lemma_newest_first(h, pick_released(chord_keys));
    lemma_newest_first(h, pick_elapsed(chord_keys, max_wait_msecs, now));
    lemma_newest_first(h, pick_unhandled_held());
}

/// One step of a pass. The steps of a pass are fixed when the relay is set
/// up and run in their order, each on what the one before it has left.
#[derive(Debug)]
pub enum Filter {
    /// Tells chords of the given keys from single taps.
    RelaxedChording { chord_keys: Vec<UsbKeycode>, max_wait_msecs: u64 },
    /// Settles whatever is still unhandled.
    DirectPassthrough,
    /// Emits the report of the pending keys and ends the pass.
    DirectReport,
}

/// What a filter has emitted, as a mathematical value.
pub open spec fn shown(emitted: Result<Report, Fault>) -> Result<Frame, Fault> {
    match emitted {
        Ok(report) => Ok(report@),
        Err(fault) => Err(fault),
    }
}

/// What filters have emitted, as mathematical values.
pub open spec fn all_shown(emitted: Seq<Result<Report, Fault>>) -> Seq<Result<Frame, Fault>> {
    emitted.map_values(|r: Result<Report, Fault>| shown(r))
}

/// What a filter may have emitted, as a mathematical value.
pub open spec fn shown_if_any(emitted: Option<Result<Report, Fault>>) -> Option<Result<Frame, Fault>> {
    match emitted {
        Some(r) => Some(shown(r)),
        None => None,
    }
}

impl Filter {
    /// The ledger that this filter leaves behind.
    pub open spec fn next(self, ledger: Ledger, now: u64) -> Ledger {
        match self {
            Filter::RelaxedChording { chord_keys, max_wait_msecs } => after_relaxed_chording(
                ledger,
                chord_keys@,
                max_wait_msecs,
                now,
            ),
            Filter::DirectPassthrough => after_direct_passthrough(ledger),
            Filter::DirectReport => ledger.reset(),
        }
    }

    /// What this filter emits, if it is one that emits.
    pub open spec fn emits(self, ledger: Ledger) -> Option<Result<Frame, Fault>> {
        match self {
            Filter::DirectReport => Some(Frame::build(ledger.pending)),
            _ => None,
        }
    }

    /// Runs this filter on the ledger at the time `now`, in microseconds.
    pub fn apply(&self, state: &mut State, now: u64) -> (emitted: Option<Result<Report, Fault>>)
        ensures
            final(state).ledger() == self.next(old(state).ledger(), now),
            shown_if_any(emitted) == self.emits(old(state).ledger()),
    {
        match self {
            Filter::RelaxedChording { chord_keys, max_wait_msecs } => {
                relaxed_chording(state, chord_keys, *max_wait_msecs, now);
                None
            },
            Filter::DirectPassthrough => {
                direct_passthrough(state);
                None
            },
            Filter::DirectReport => Some(direct_report(state)),
        }
    }
}

/// The ledger after the filters have run in their order.
pub open spec fn pass_ledger(filters: Seq<Filter>, ledger: Ledger, now: u64) -> Ledger
    decreases filters.len(),
{
    if filters.len() == 0 {
        ledger
    } else {
        filters.last().next(pass_ledger(filters.drop_last(), ledger, now), now)
    }
}

/// What the filters emit as they run in their order.
pub open spec fn pass_reports(filters: Seq<Filter>, ledger: Ledger, now: u64) -> Seq<
    Result<Frame, Fault>,
>
    decreases filters.len(),
{
    if filters.len() == 0 {
        Seq::empty()
    } else {
        let earlier = pass_reports(filters.drop_last(), ledger, now);
        match filters.last().emits(pass_ledger(filters.drop_last(), ledger, now)) {
            Some(emitted) => earlier.push(emitted),
            None => earlier,
        }
    }
}

/// A pass keeps the ledger in order: the presses stay the same but for
/// their status unless the history is dropped, no key is held twice after
/// it if none was before, and a pass that ends with the report leaves no
/// pending keys and no handled press behind.
pub proof fn lemma_pass(filters: Seq<Filter>, ledger: Ledger, now: u64)
    ensures
        ledger.held_once() ==> pass_ledger(filters, ledger, now).held_once(),
        pass_ledger(filters, ledger, now).history.len() == 0 || pass_ledger(
            filters,
            ledger,
            now,
        ).history.len() == ledger.history.len(),
        filters.len() > 0 && filters.last() is DirectReport ==> {
            &&& pass_ledger(filters, ledger, now).pending.len() == 0
            &&& forall|i: int|
                0 <= i < pass_ledger(filters, ledger, now).history.len() ==> (
                #[trigger] pass_ledger(filters, ledger, now).history[i]).status
                    != PressStatus::Handled
        },
    decreases filters.len(),
{
    if filters.len() > 0 {
        let before = pass_ledger(filters.drop_last(), ledger, now);
        lemma_pass(filters.drop_last(), ledger, now);
        lemma_reset_history(before);
        match filters.last() {
            Filter::RelaxedChording { chord_keys, max_wait_msecs } => {
                lemma_chording_settles(before, chord_keys@, max_wait_msecs, now);
            },
            Filter::DirectPassthrough => {
                lemma_passthrough_settles(before);
            },
            Filter::DirectReport => {},
        }
    }
}

impl State {
    /// Runs one pass: every filter once, in order, at the time `now` in
    /// microseconds. Returns what the filters have emitted, in order.
    pub fn update(&mut self, filters: &Vec<Filter>, now: u64) -> (emitted: Vec<Result<Report, Fault>>)
        ensures
            final(self).ledger() == pass_ledger(filters@, old(self).ledger(), now),
            all_shown(emitted@) == pass_reports(filters@, old(self).ledger(), now),
    {
        let ghost start = self.ledger();
        let mut emitted: Vec<Result<Report, Fault>> = Vec::new();
        let mut i: usize = 0;
        while i < filters.len()
            invariant
                i <= filters@.len(),
                start == old(self).ledger(),
                self.ledger() == pass_ledger(filters@.take(i as int), start, now),
                all_shown(emitted@) == pass_reports(filters@.take(i as int), start, now),
            decreases filters.len() - i,
        {
            assert(filters@.take(i + 1).drop_last() =~= filters@.take(i as int));
            if let Some(r) = filters[i].apply(self, now) {
                emitted.push(r);
            }
            i += 1;
        }
        assert(filters@.take(i as int) =~= filters@);
        emitted
    }
}

} // verus!
