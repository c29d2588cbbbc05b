//! Debouncing of filesystem change events: a burst of raw events
//! within one window collapses into a single reload signal.

use vstd::prelude::*;

verus! {

/// The debouncer: remembers when it last let a signal through.
#[derive(Clone, Copy, PartialEq, Eq, Structural, Debug)]
pub struct Debouncer {
    /// Length of the quiet window, in milliseconds; always nonzero.
    pub window_ms: u64,
    /// Time of the last emitted signal, if any.
    pub last_emit: Option<u64>,
}

impl Debouncer {
    /// The window must be nonzero (and so bounded below); it is what
    /// guarantees coalescing at all.
    pub open spec fn wf(self) -> bool {
        self.window_ms >= 1
    }

    /// Whether an event at `now` passes through: the first event always
    /// does, a later one only when the window since the last emitted
    /// signal has fully elapsed.
    pub open spec fn spec_emits(self, now: u64) -> bool {
        match self.last_emit {
            Option::None => true,
            Option::Some(t) => now >= t + self.window_ms,
        }
    }

    /// The debouncer state after an event at `now`.
    pub open spec fn spec_after(self, now: u64) -> Debouncer {
        if self.spec_emits(now) {
            Debouncer { window_ms: self.window_ms, last_emit: Option::Some(now) }
        } else {
            self
        }
    }

    pub fn new(window_ms: u64) -> (r: Debouncer)
        requires
            window_ms >= 1,
        ensures
            r.wf(),
            r.window_ms == window_ms,
            r.last_emit is None,
    {
        Debouncer { window_ms, last_emit: Option::None }
    }

    /// Feeds one raw filesystem event, stamped `now_ms`, through the
    /// debouncer; returns whether a reload signal is emitted.
    pub fn on_event(&mut self, now_ms: u64) -> (emit: bool)
        requires
            old(self).wf(),
        ensures
            final(self).wf(),
            emit == old(self).spec_emits(now_ms),
            *final(self) == old(self).spec_after(now_ms),
    {
        match self.last_emit {
            Option::None => {
                self.last_emit = Option::Some(now_ms);
                true
            },
            Option::Some(t) => {
                if t <= now_ms && now_ms - t >= self.window_ms {
                    self.last_emit = Option::Some(now_ms);
                    true
                } else {
                    false
                }
            },
        }
    }
}

/// How many of the events in `ts` pass through the debouncer, fed in
/// order.
pub open spec fn emit_count(d: Debouncer, ts: Seq<u64>) -> nat
    decreases ts.len(),
{
    if ts.len() == 0 {
        0
    } else {
        (if d.spec_emits(ts[0]) {
            1nat
        } else {
            0nat
        }) + emit_count(d.spec_after(ts[0]), ts.drop_first())
    }
}

/// After a signal at time `m`, events strictly inside the window emit
/// nothing at all.
pub proof fn lemma_window_suppresses(d: Debouncer, ts: Seq<u64>, m: u64)
    requires
        d.wf(),
        d.last_emit == Option::Some(m),
        forall|i: int| 0 <= i < ts.len() ==> ts[i] < m + d.window_ms,
    ensures
        emit_count(d, ts) == 0,
    decreases ts.len(),
{
    if ts.len() > 0 {
        assert(!d.spec_emits(ts[0]));
        assert(forall|i: int|
            0 <= i < ts.drop_first().len() ==> ts.drop_first()[i] == ts[i + 1]);
        lemma_window_suppresses(d, ts.drop_first(), m);
    }
}

/// Debounce: however many filesystem events arrive within one window,
/// at most one reload signal comes out.
pub proof fn lemma_debounce_burst(d: Debouncer, ts: Seq<u64>, t0: u64)
    requires
        d.wf(),
        forall|i: int| 0 <= i < ts.len() ==> t0 <= ts[i] && ts[i] < t0 + d.window_ms,
    ensures
        emit_count(d, ts) <= 1,
    decreases ts.len(),
{
    if ts.len() > 0 {
        assert(forall|i: int|
            0 <= i < ts.drop_first().len() ==> ts.drop_first()[i] == ts[i + 1]);
        if d.spec_emits(ts[0]) {
            let d1 = d.spec_after(ts[0]);
            assert(d1.last_emit == Option::Some(ts[0]));
            assert(forall|i: int|
                0 <= i < ts.drop_first().len() ==> ts.drop_first()[i] < ts[0] + d1.window_ms);
            lemma_window_suppresses(d1, ts.drop_first(), ts[0]);
        } else {
            lemma_debounce_burst(d, ts.drop_first(), t0);
        }
    }
}

} // verus!
