//! When to write: the autosave clock as a state machine over an
//! injected `now` (milliseconds on a monotonic clock). Edits are
//! written once they have been quiet for [`QUIET`] with no gesture in
//! flight; a failed flush retries after [`RETRY`]; a suspended gate (an
//! unresolved external change) stops the clock entirely until the
//! user decides.

use vstd::prelude::*;

verus! {

/// Quiet period between the last edit and its write, in milliseconds.
pub const QUIET: u64 = 600;

/// Backoff before a failed write is retried, in milliseconds.
pub const RETRY: u64 = 5000;

/// Whether anything needs writing.
#[derive(Clone, Copy, Debug, PartialEq, Eq, Structural)]
pub enum Pending {
    Nothing,
    Edits,
}

/// Whether the user is mid-gesture (a drag, a held pointer button).
#[derive(Clone, Copy, Debug, PartialEq, Eq, Structural)]
pub enum Activity {
    Idle,
    Busy,
}

/// Whether writing is allowed at all.
#[derive(Clone, Copy, Debug, PartialEq, Eq, Structural)]
pub enum Gate {
    Open,
    /// An external change is unresolved; nothing is written until the
    /// user chooses.
    Suspended,
}

/// What the clock says this tick.
#[derive(Clone, Copy, Debug, PartialEq, Eq, Structural)]
pub enum Verdict {
    /// Nothing to do.
    Idle,
    /// Look again after this many milliseconds.
    Wait(u64),
    /// Write the dirty documents now.
    Flush,
}

/// The state shown in the status bar.
#[derive(Clone, Copy, Debug, PartialEq, Eq, Structural)]
pub enum AutosaveState {
    Saved,
    Unsaved,
    /// A write is due or being retried.
    Saving,
    Suspended,
}

impl AutosaveState {
    /// The status bar's words for the state.
    pub fn label(self) -> (text: &'static str)
        ensures
            text@ == match self {
                AutosaveState::Saved => "saved"@,
                AutosaveState::Unsaved => "unsaved"@,
                AutosaveState::Saving => "saving…"@,
                AutosaveState::Suspended => "suspended: external change"@,
            },
    {
        match self {
            AutosaveState::Saved => "saved",
            AutosaveState::Unsaved => "unsaved",
            AutosaveState::Saving => "saving…",
            AutosaveState::Suspended => "suspended: external change",
        }
    }
}

/// The clock's hidden state: idle, counting down a quiet period, or
/// waiting out a retry backoff.
#[derive(Clone, Copy, Debug, PartialEq, Eq, Structural)]
pub enum Timer {
    Idle,
    Quiet { deadline: u64 },
    Retry { at: u64 },
}

/// The moment a running timer is due.
pub open spec fn due_of(timer: Timer) -> int {
    match timer {
        Timer::Idle => 0,
        Timer::Quiet { deadline } => deadline as int,
        Timer::Retry { at } => at as int,
    }
}

/// The timer after one tick.
pub open spec fn next_timer(timer: Timer, pending: Pending, activity: Activity, gate: Gate, now: u64) -> Timer {
    if gate == Gate::Suspended || pending == Pending::Nothing {
        Timer::Idle
    } else {
        match timer {
            Timer::Idle => Timer::Quiet { deadline: (now + QUIET) as u64 },
            _ => if activity == Activity::Busy {
                match timer {
                    Timer::Retry { at } if at > now + QUIET => Timer::Retry { at },
                    _ => Timer::Quiet { deadline: (now + QUIET) as u64 },
                }
            } else {
                timer
            },
        }
    }
}

/// What one tick says.
pub open spec fn verdict_of(timer: Timer, pending: Pending, activity: Activity, gate: Gate, now: u64) -> Verdict {
    if gate == Gate::Suspended || pending == Pending::Nothing {
        Verdict::Idle
    } else if timer == Timer::Idle {
        Verdict::Wait(QUIET)
    } else {
        let due = if activity == Activity::Busy {
            if now + QUIET > due_of(timer) {
                now + QUIET
            } else {
                due_of(timer)
            }
        } else {
            due_of(timer)
        };
        if now < due {
            Verdict::Wait((due - now) as u64)
        } else {
            Verdict::Flush
        }
    }
}

/// What the status bar shows.
pub open spec fn state_of(timer: Timer, pending: Pending, gate: Gate) -> AutosaveState {
    if pending == Pending::Nothing {
        AutosaveState::Saved
    } else if gate == Gate::Suspended {
        AutosaveState::Suspended
    } else if timer is Retry {
        AutosaveState::Saving
    } else {
        AutosaveState::Unsaved
    }
}

/// The clock.
#[derive(Clone, Copy, Debug, PartialEq, Eq, Structural)]
pub struct Autosave {
    timer: Timer,
}

impl View for Autosave {
    type V = Timer;

    closed spec fn view(&self) -> Timer {
        self.timer
    }
}

impl Default for Autosave {
    fn default() -> (clock: Self)
        ensures
            clock@ == Timer::Idle,
    {
        Autosave { timer: Timer::Idle }
    }
}

impl Autosave {
    /// One tick at `now`.
    pub fn observe(&mut self, pending: Pending, activity: Activity, gate: Gate, now: u64) -> (verdict: Verdict)
        requires
            gate == Gate::Open && pending == Pending::Edits ==> now + QUIET <= u64::MAX,
        ensures
            verdict == verdict_of(old(self)@, pending, activity, gate, now),
            final(self)@ == next_timer(old(self)@, pending, activity, gate, now),
            gate == Gate::Suspended || pending == Pending::Nothing ==> verdict == Verdict::Idle && final(self)@
                == Timer::Idle,
            activity == Activity::Busy ==> verdict != Verdict::Flush && (verdict == Verdict::Idle || (verdict is Wait
                && verdict->0 >= QUIET)),
    {
        if gate == Gate::Suspended || pending == Pending::Nothing {
            self.timer = Timer::Idle;
            return Verdict::Idle;
        }
        let due = match self.timer {
            Timer::Idle => {
                self.timer = Timer::Quiet { deadline: now + QUIET };
                return Verdict::Wait(QUIET);
            },
            Timer::Quiet { deadline } => deadline,
            Timer::Retry { at } => at,
        };
        let due = match activity {
            Activity::Busy => {
                let pushed = now + QUIET;
                self.timer = match self.timer {
                    Timer::Retry { at } => if at > pushed {
                        Timer::Retry { at }
                    } else {
                        Timer::Quiet { deadline: pushed }
                    },
                    _ => Timer::Quiet { deadline: pushed },
                };
                if pushed > due {
                    pushed
                } else {
                    due
                }
            },
            Activity::Idle => due,
        };
        if now < due {
            Verdict::Wait(due - now)
        } else {
            Verdict::Flush
        }
    }

    /// The flush landed; the clock idles until the next edit.
    pub fn flushed(&mut self)
        ensures
            final(self)@ == Timer::Idle,
    {
        self.timer = Timer::Idle;
    }

    /// The flush failed at `now`; retry after [`RETRY`], returned for
    /// the caller's repaint request.
    pub fn flush_failed(&mut self, now: u64) -> (wait: u64)
        requires
            now + RETRY <= u64::MAX,
        ensures
            wait == RETRY,
            final(self)@ == (Timer::Retry { at: (now + RETRY) as u64 }),
    {
        self.timer = Timer::Retry { at: now + RETRY };
        RETRY
    }

    /// The status-bar state for this tick's inputs.
    pub fn state(&self, pending: Pending, gate: Gate) -> (shown: AutosaveState)
        ensures
            shown == state_of(self@, pending, gate),
    {
        match (gate, pending, self.timer) {
            (_, Pending::Nothing, _) => AutosaveState::Saved,
            (Gate::Suspended, Pending::Edits, _) => AutosaveState::Suspended,
            (Gate::Open, Pending::Edits, Timer::Retry { .. }) => AutosaveState::Saving,
            (Gate::Open, Pending::Edits, _) => AutosaveState::Unsaved,
        }
    }
}

/// Nothing is written while an external change is unresolved or
/// nothing is dirty, and the clock then forgets any countdown: once the
/// gate reopens with edits, the quiet period starts afresh.
pub proof fn law_suspended_or_clean_never_writes(
    timer: Timer,
    pending: Pending,
    activity: Activity,
    gate: Gate,
    now: u64,
    reopened: Activity,
    later: u64,
)
    requires
        gate == Gate::Suspended || pending == Pending::Nothing,
    ensures
        verdict_of(timer, pending, activity, gate, now) == Verdict::Idle,
        next_timer(timer, pending, activity, gate, now) == Timer::Idle,
        verdict_of(next_timer(timer, pending, activity, gate, now), Pending::Edits, reopened, Gate::Open, later)
            == Verdict::Wait(QUIET),
{
}

/// Nothing is written during a gesture: the clock either has nothing to
/// do or waits at least the quiet period.
pub proof fn law_no_write_mid_gesture(timer: Timer, pending: Pending, gate: Gate, now: u64)
    ensures
        verdict_of(timer, pending, Activity::Busy, gate, now) != Verdict::Flush,
        verdict_of(timer, pending, Activity::Busy, gate, now) == Verdict::Idle || exists|d: u64|
            verdict_of(timer, pending, Activity::Busy, gate, now) == Verdict::Wait(d) && d >= QUIET,
{
    let v = verdict_of(timer, pending, Activity::Busy, gate, now);
    if v is Wait {
        assert(v == Verdict::Wait(v->0));
    }
}

/// A promised wait is kept: when a tick says to wait `d`, a tick `d`
/// later with no gesture in flight (and nothing else in between) writes.
pub proof fn law_a_promised_wait_is_kept(timer: Timer, activity: Activity, now: u64, d: u64, later: u64)
    requires
        now + QUIET <= u64::MAX,
        verdict_of(timer, Pending::Edits, activity, Gate::Open, now) == Verdict::Wait(d),
        later == now + d,
    ensures
        verdict_of(next_timer(timer, Pending::Edits, activity, Gate::Open, now), Pending::Edits, Activity::Idle, Gate::Open, later)
            == Verdict::Flush,
{
}

/// A landed flush restarts the clock: with edits again the status reads
/// unsaved, and the next tick starts the quiet period.
pub proof fn law_a_flush_restarts_the_clock(activity: Activity, now: u64)
    ensures
        state_of(Timer::Idle, Pending::Edits, Gate::Open) == AutosaveState::Unsaved,
        verdict_of(Timer::Idle, Pending::Edits, activity, Gate::Open, now) == Verdict::Wait(QUIET),
{
}

/// The first tick after an edit starts the quiet period and writes
/// nothing; the write comes once the quiet period has run out with no
/// gesture in flight.
pub proof fn law_edits_wait_out_the_quiet_period(pending: Pending, activity: Activity, now: u64, later: u64)
    requires
        pending == Pending::Edits,
        now + QUIET <= u64::MAX,
    ensures
        verdict_of(Timer::Idle, pending, activity, Gate::Open, now) == Verdict::Wait(QUIET),
        later < now + QUIET ==> verdict_of(
            next_timer(Timer::Idle, pending, activity, Gate::Open, now),
            pending,
            Activity::Idle,
            Gate::Open,
            later,
        ) != Verdict::Flush,
        later >= now + QUIET ==> verdict_of(
            next_timer(Timer::Idle, pending, activity, Gate::Open, now),
            pending,
            Activity::Idle,
            Gate::Open,
            later,
        ) == Verdict::Flush,
{
}

/// A gesture never brings a retry forward: the backoff it was waiting
/// out still holds.
pub proof fn law_gesture_never_shortens_a_backoff(at: u64, pending: Pending, now: u64)
    requires
        pending == Pending::Edits,
        now + QUIET <= u64::MAX,
    ensures
        due_of(next_timer(Timer::Retry { at }, pending, Activity::Busy, Gate::Open, now)) >= at,
        verdict_of(Timer::Retry { at }, pending, Activity::Busy, Gate::Open, now) == Verdict::Wait(
            (if now + QUIET > at { now + QUIET - now } else { at - now }) as u64,
        ),
{
}

/// A failed write reads "saving" until it lands or the edits go away.
pub proof fn law_a_retry_reads_saving(at: u64)
    ensures
        state_of(Timer::Retry { at }, Pending::Edits, Gate::Open) == AutosaveState::Saving,
        state_of(Timer::Retry { at }, Pending::Nothing, Gate::Open) == AutosaveState::Saved,
{
}

/// Whether any document holds unsaved edits.
pub fn pending_of(edits: &Vec<crate::documents::Edits>) -> (pending: Pending)
    ensures
        pending == if exists|i: int| 0 <= i < edits@.len() && edits@[i] == crate::documents::Edits::Unsaved {
            Pending::Edits
        } else {
            Pending::Nothing
        },
{
    let mut i: usize = 0;
    while i < edits.len()
        invariant
            i <= edits@.len(),
            forall|j: int| 0 <= j < i ==> edits@[j] != crate::documents::Edits::Unsaved,
        decreases edits.len() - i,
    {
        if edits[i] == crate::documents::Edits::Unsaved {
            return Pending::Edits;
        }
        i = i + 1;
    }
    Pending::Nothing
}

/// Writing is allowed only while no external change awaits the user's
/// decision.
pub fn gate_of(unresolved_conflicts: usize) -> (gate: Gate)
    ensures
        gate == if unresolved_conflicts == 0 { Gate::Open } else { Gate::Suspended },
{
    if unresolved_conflicts == 0 {
        Gate::Open
    } else {
        Gate::Suspended
    }
}

/// The user is mid-gesture while a drag is in flight or a pointer
/// button is held.
pub fn activity_of(dragging: bool, pointer_down: bool) -> (activity: Activity)
    ensures
        activity == if dragging || pointer_down { Activity::Busy } else { Activity::Idle },
{
    if dragging || pointer_down {
        Activity::Busy
    } else {
        Activity::Idle
    }
}

} // verus!
