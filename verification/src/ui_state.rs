//! View state that survives a restart — the store pane's mode, the
//! bucket in view, the search bar and the table's sort — kept in one
//! small self-describing JSON file. It is a convenience, never data: a
//! file with a foreign tag or a newer version is ignored.
//!
//! Writes are debounced: the live state is compared with what is on
//! disk every frame, and a difference is written once it has held
//! still for [`QUIET`], so typing into the search bar does not hit the
//! disk per keystroke. The clock is a monotonic count of milliseconds
//! the caller reads; the caller performs the write the debounce asks
//! for.

use vstd::prelude::*;

verus! {

/// The `format` tag every view-state file carries.
pub const FORMAT_TAG: &'static str = "grimvault-ui-state";

/// The newest document version this build reads and the one it writes.
pub const FORMAT_VERSION: u32 = 1;

/// How long, in milliseconds, the state must hold still before it is
/// written.
pub const QUIET: u64 = 1000;

/// Whether a file with these identity tags is one this build reads.
pub open spec fn readable_tags(format: Seq<char>, version: u32) -> bool {
    format == FORMAT_TAG@ && version <= FORMAT_VERSION
}

/// Whether a file with these identity tags is one this build reads:
/// this format, at a version no newer than this build's.
pub fn accepts(format: &str, version: u32) -> (ok: bool)
    ensures
        ok == readable_tags(format@, version),
{
    let tag = FORMAT_TAG;
    let n = tag.unicode_len();
    if format.unicode_len() != n {
        return false;
    }
    let mut i: usize = 0;
    while i < n
        invariant
            n == tag@.len(),
            n == format@.len(),
            tag == FORMAT_TAG,
            i <= n,
            forall|j: int| 0 <= j < i ==> format@[j] == tag@[j],
        decreases n - i,
    {
        if format.get_char(i) != tag.get_char(i) {
            return false;
        }
        i = i + 1;
    }
    proof {
        assert(format@ =~= FORMAT_TAG@);
    }
    version <= FORMAT_VERSION
}

/// What the debounce decided this frame.
#[derive(Clone, Copy, Debug, PartialEq, Eq, Structural)]
pub enum Debounced {
    /// The live state is what is on disk: nothing to do.
    Idle,
    /// A change is pending: look again after this many milliseconds.
    Wait(u64),
    /// A change has held still long enough: write it now.
    Write,
}

/// The pending-change clock: when the live state first diverged from
/// what is on disk.
#[derive(Clone, Copy, Debug, PartialEq, Eq, Structural)]
pub struct Debounce {
    pub pending_since: Option<u64>,
}

/// What a frame decides, and when the pending change was first seen
/// afterwards, from when it was first seen before (`pending_since`),
/// whether the live state differs from what is on disk, and the clock.
pub open spec fn debounce_step(pending_since: Option<u64>, changed: bool, now: u64) -> (Debounced, Option<u64>) {
    if !changed {
        (Debounced::Idle, None)
    } else {
        let since = match pending_since {
            Some(t) => t,
            None => now,
        };
        let elapsed: int = if now >= since {
            now - since
        } else {
            0
        };
        if elapsed < QUIET {
            (Debounced::Wait((QUIET - elapsed) as u64), Some(since))
        } else {
            (Debounced::Write, None)
        }
    }
}

impl Debounce {
    /// Nothing pending.
    pub fn new() -> (debounce: Debounce)
        ensures
            debounce.pending_since is None,
    {
        Debounce { pending_since: None }
    }

    /// Feeds this frame: `changed` says whether the live state differs
    /// from what is on disk, `now` is the clock. A change is written
    /// once it has held still for [`QUIET`]; until then the wait
    /// remaining is returned. A write, and a return to what is on
    /// disk, clear the clock.
    pub fn observe(&mut self, changed: bool, now: u64) -> (step: Debounced)
        ensures
            (step, final(self).pending_since) == debounce_step(old(self).pending_since, changed, now),
    {
        if !changed {
            self.pending_since = None;
            return Debounced::Idle;
        }
        let since = match self.pending_since {
            Some(t) => t,
            None => now,
        };
        self.pending_since = Some(since);
        let elapsed = if now >= since {
            now - since
        } else {
            0
        };
        if elapsed < QUIET {
            return Debounced::Wait(QUIET - elapsed);
        }
        self.pending_since = None;
        Debounced::Write
    }

    /// The exit path: whether a pending change is to be written now,
    /// without waiting; the clock clears either way.
    pub fn flush(&mut self, changed: bool) -> (write: bool)
        ensures
            write == changed,
            final(self).pending_since is None,
    {
        self.pending_since = None;
        changed
    }
}

/// A change is never written the frame it is first seen, nor before it
/// has held still for [`QUIET`] since; a wait never exceeds [`QUIET`];
/// and a change that held still that long is written.
pub proof fn law_a_change_is_written_only_after_it_holds_still(pending_since: Option<u64>, now: u64)
    ensures
        debounce_step(None, true, now).0 == Debounced::Wait(QUIET),
        debounce_step(pending_since, true, now).0 == Debounced::Write ==> (pending_since matches Some(since)
            && since + QUIET <= now),
        debounce_step(pending_since, true, now).0 matches Debounced::Wait(left) ==> 0 < left <= QUIET,
        (pending_since matches Some(since) && since + QUIET <= now) ==> debounce_step(pending_since, true, now).0
            == Debounced::Write,
{
}

} // verus!
