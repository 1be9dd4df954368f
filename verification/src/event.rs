//! Event fan-out debouncing. One event at a time arrives from the OS
//! collaborators; a held event is only broadcast when a different event
//! displaces it or when the 100 ms idle timer fires, so a burst of
//! identical events collapses into a single broadcast.

use vstd::prelude::*;

verus! {

/// How long the debouncer holds an event before an idle flush, in
/// milliseconds.
pub const DEBOUNCE_FLUSH_MS: u64 = 100;

/// An event from the OS collaborators.
#[derive(Debug, Clone, Copy, PartialEq, Eq, Structural)]
pub enum SystemEvent {
    ClipboardUpdated,
    PowerStatusUpdated,
    TrayMenuClicked(u16),
}

/// What receiving `e` in state `pending` does: the new state and the
/// event to broadcast now, if any.
pub open spec fn step_recv(pending: Option<SystemEvent>, e: SystemEvent) -> (
    Option<SystemEvent>,
    Option<SystemEvent>,
) {
    match pending {
        None => (Some(e), None),
        Some(p) => if p == e {
            (Some(p), None)
        } else {
            (Some(e), Some(p))
        },
    }
}

/// What the idle timeout does: flush the held event, if any.
pub open spec fn step_timeout(pending: Option<SystemEvent>) -> (
    Option<SystemEvent>,
    Option<SystemEvent>,
) {
    match pending {
        None => (None, None),
        Some(p) => (None, Some(p)),
    }
}

/// A run of receives: the final state and every event broadcast on the
/// way, in order.
pub open spec fn run_recv(pending: Option<SystemEvent>, events: Seq<SystemEvent>) -> (
    Option<SystemEvent>,
    Seq<SystemEvent>,
)
    decreases events.len(),
{
    if events.len() == 0 {
        (pending, Seq::<SystemEvent>::empty())
    } else {
        let first = step_recv(pending, events[0]);
        let rest = run_recv(first.0, events.drop_first());
        (
            rest.0,
            match first.1 {
                Some(x) => seq![x] + rest.1,
                None => rest.1,
            },
        )
    }
}

/// The debouncer: holds at most one event awaiting its flush.
#[derive(Debug)]
pub struct EventDebouncer {
    pub pending: Option<SystemEvent>,
}

impl EventDebouncer {
    pub fn new() -> (r: EventDebouncer)
        ensures
            r.pending is None,
    {
        EventDebouncer { pending: None }
    }

    /// Whether an event is held, i.e. whether the caller should arm the
    /// idle timer.
    pub fn has_pending(&self) -> (r: bool)
        ensures
            r == (self.pending is Some),
    {
        self.pending.is_some()
    }

    /// Takes one received event; returns the event to broadcast now, if
    /// any: a repeated event is swallowed, a different one displaces
    /// and flushes the held one.
    pub fn on_event(&mut self, e: SystemEvent) -> (r: Option<SystemEvent>)
        ensures
            (final(self).pending, r) == step_recv(old(self).pending, e),
    {
        match self.pending {
            None => {
                self.pending = Some(e);
                None
            },
            Some(p) => {
                if p == e {
                    None
                } else {
                    self.pending = Some(e);
                    Some(p)
                }
            },
        }
    }

    /// Takes the idle timeout; returns the held event to broadcast, if
    /// any.
    pub fn on_timeout(&mut self) -> (r: Option<SystemEvent>)
        ensures
            (final(self).pending, r) == step_timeout(old(self).pending),
    {
        let r = self.pending;
        self.pending = None;
        r
    }
}

proof fn lemma_run_identical_holding(e: SystemEvent, events: Seq<SystemEvent>)
    requires
        forall|i: int| 0 <= i < events.len() ==> events[i] == e,
    ensures
        run_recv(Some(e), events) == (Some(e), Seq::<SystemEvent>::empty()),
    decreases events.len(),
{
    if events.len() == 0 {
    } else {
        assert(events[0] == e);
        assert(forall|i: int|
            0 <= i < events.drop_first().len() ==> #[trigger] events.drop_first()[i] == events[i
                + 1]);
        lemma_run_identical_holding(e, events.drop_first());
    }
}

/// Debounce idempotence: starting empty, a run of any number of
/// identical events broadcasts nothing and leaves that one event held,
/// and the trailing idle flush then broadcasts it exactly once.
pub proof fn lemma_debounce_identical_run(e: SystemEvent, events: Seq<SystemEvent>)
    requires
        events.len() >= 1,
        forall|i: int| 0 <= i < events.len() ==> events[i] == e,
    ensures
        run_recv(None, events) == (Some(e), Seq::<SystemEvent>::empty()),
        step_timeout(run_recv(None, events).0) == (None::<SystemEvent>, Some(e)),
{
    assert(events[0] == e);
    assert(forall|i: int|
        0 <= i < events.drop_first().len() ==> #[trigger] events.drop_first()[i] == events[i + 1]);
    lemma_run_identical_holding(e, events.drop_first());
}

} // verus!
