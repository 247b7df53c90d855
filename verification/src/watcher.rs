//! Debouncing of filesystem change notifications.
//!
//! The host watches the desktop-entry search paths and feeds every raw
//! create/modify/remove notification, with a monotonic timestamp, into a
//! [`Debouncer`].  At most one [`Event`] comes out per debounce window:
//! a notification emits exactly when a full window has passed since the
//! last emission, and bursts inside a window are swallowed — no past
//! notification is replayed when the window reopens.

use vstd::prelude::*;

verus! {

/// Debounce window for filesystem change notifications, in milliseconds.
pub const DEBOUNCE_MS: u64 = 3000;

/// The zero-payload signal that the on-disk entry set may have changed.
#[derive(Clone, Copy, Debug, PartialEq, Eq, Structural)]
pub enum Event {
    Changed,
}

/// The debounce state machine: the timestamp of the last emission.
#[derive(Debug)]
pub struct Debouncer {
    last_emit_ms: u64,
}

/// Whether a notification at `now` emits, given the last emission time.
pub open spec fn should_emit(last: u64, now: u64) -> bool {
    now >= last + DEBOUNCE_MS
}

/// How many events a timestamp sequence produces, starting from a given
/// last-emission time.
pub open spec fn emissions(last: u64, ts: Seq<u64>) -> nat
    decreases ts.len(),
{
    if ts.len() == 0 {
        0
    } else if should_emit(last, ts[0]) {
        1 + emissions(ts[0], ts.drop_first())
    } else {
        emissions(last, ts.drop_first())
    }
}

impl Debouncer {
    pub closed spec fn spec_last_emit(&self) -> u64 {
        self.last_emit_ms
    }

    /// Starts a debounce window at `now_ms`: nothing emits before one
    /// full window has passed, as if an emission had just happened.
    pub fn new(now_ms: u64) -> (d: Debouncer)
        ensures
            d.spec_last_emit() == now_ms,
    {
        Debouncer { last_emit_ms: now_ms }
    }

    /// Feeds one raw notification with its timestamp; returns the event
    /// to forward, if any.  The clock must be monotonic.
    pub fn observe(&mut self, now_ms: u64) -> (emitted: Option<Event>)
        requires
            now_ms >= old(self).spec_last_emit(),
        ensures
            emitted is Some <==> should_emit(old(self).spec_last_emit(), now_ms),
            final(self).spec_last_emit() == if should_emit(old(self).spec_last_emit(), now_ms) {
                now_ms
            } else {
                old(self).spec_last_emit()
            },
    {
        if now_ms - self.last_emit_ms >= DEBOUNCE_MS {
            self.last_emit_ms = now_ms;
            Option::Some(Event::Changed)
        } else {
            Option::None
        }
    }
}

/// No notification inside a window emits.
proof fn lemma_emissions_quiet(last: u64, ts: Seq<u64>)
    requires
        forall|i: int| 0 <= i < ts.len() ==> #[trigger] ts[i] < last + DEBOUNCE_MS,
    ensures
        emissions(last, ts) == 0,
    decreases ts.len(),
{
    if ts.len() > 0 {
        assert forall|i: int| 0 <= i < ts.drop_first().len() implies #[trigger] ts.drop_first()[i]
            < last + DEBOUNCE_MS by {
            assert(ts.drop_first()[i] == ts[i + 1]);
        }
        lemma_emissions_quiet(last, ts.drop_first());
    }
}

/// Debounce, first half: a burst of notifications whose timestamps all
/// fall within one window produces at most one event, whatever state
/// the debouncer is in.
pub proof fn lemma_debounce_burst(last: u64, ts: Seq<u64>)
    requires
        forall|i: int, j: int| 0 <= i < j < ts.len() ==> #[trigger] ts[i] <= #[trigger] ts[j],
        forall|i: int| 0 <= i < ts.len() ==> #[trigger] ts[i] < ts[0] + DEBOUNCE_MS,
    ensures
        emissions(last, ts) <= 1,
    decreases ts.len(),
{
    if ts.len() == 0 {
    } else {
        let rest = ts.drop_first();
        assert forall|i: int, j: int| 0 <= i < j < rest.len() implies #[trigger] rest[i]
            <= #[trigger] rest[j] by {
            assert(rest[i] == ts[i + 1]);
            assert(rest[j] == ts[j + 1]);
        }
        if should_emit(last, ts[0]) {
            assert forall|i: int| 0 <= i < rest.len() implies #[trigger] rest[i] < ts[0]
                + DEBOUNCE_MS by {
                assert(rest[i] == ts[i + 1]);
            }
            lemma_emissions_quiet(ts[0], rest);
        } else {
            if rest.len() > 0 {
                assert forall|i: int| 0 <= i < rest.len() implies #[trigger] rest[i] < rest[0]
                    + DEBOUNCE_MS by {
                    assert(rest[i] == ts[i + 1]);
                    assert(rest[0] == ts[1]);
                    assert(ts[0] <= ts[1]);
                }
                lemma_debounce_burst(last, rest);
            }
        }
    }
}

/// Debounce, second half: two notifications more than a window apart —
/// the first itself a window after the last emission — emit exactly two
/// events.
pub proof fn lemma_debounce_spaced(last: u64, t1: u64, t2: u64)
    requires
        t1 >= last + DEBOUNCE_MS,
        t2 >= t1 + DEBOUNCE_MS,
    ensures
        emissions(last, seq![t1, t2]) == 2,
{
    let ts = seq![t1, t2];
    assert(ts.len() == 2);
    assert(ts[0] == t1);
    assert(should_emit(last, t1));
    assert(ts.drop_first() =~= seq![t2]);
    assert(seq![t2][0] == t2);
    assert(should_emit(t1, t2));
    assert(seq![t2].drop_first() =~= Seq::<u64>::empty());
    assert(emissions(t2, Seq::<u64>::empty()) == 0);
    assert(emissions(t1, seq![t2]) == 1);
    assert(emissions(last, ts) == 1 + emissions(t1, ts.drop_first()));
}

} // verus!
