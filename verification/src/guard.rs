//! The shell's decisions around the open documents: which changes on
//! disk are believed this frame, which of the documents they touch are
//! reloaded and which raise a conflict instead, which documents an
//! autosave writes, and the conflict list that suspends saving until
//! the user decides. Reading, writing and reloading the files are the
//! caller's.

use vstd::prelude::*;
use crate::documents::{Doc, Edits, FileStamp};
use crate::paths::{key_of, path_key};
use crate::watch::{Observation, Poll, RefreshTracker, held_for, observation_of};
use crate::autosave::{Activity, AutosaveState, Gate, Pending, Timer, Verdict, state_of, verdict_of};

verus! {

/// One open document as the guard watches it: where it lives and the
/// stamp this app holds for it.
#[derive(Clone, Debug, PartialEq, Eq)]
pub struct Watched {
    pub doc: Doc,
    pub path: String,
    pub stamp: Option<FileStamp>,
}

/// One observation the guard makes: a document, its path, the stamp
/// seen there, and the stamp held for it.
pub type Sighting = (Doc, Seq<char>, Option<FileStamp>, Option<FileStamp>);

/// The observations one polled path yields: one for each watched
/// document at that path (by components), in the documents' order.
pub open spec fn path_sightings(path: Seq<char>, seen: Option<FileStamp>, watched: Seq<Watched>) -> Seq<Sighting>
    decreases watched.len(),
{
    if watched.len() == 0 {
        Seq::empty()
    } else {
        let before = path_sightings(path, seen, watched.drop_last());
        let w = watched.last();
        if path_key(w.path@) == path_key(path) {
            before.push((w.doc, path, seen, w.stamp))
        } else {
            before
        }
    }
}

/// The observations one poll yields, path by path.
pub open spec fn poll_sightings(stamps: Seq<(String, Option<FileStamp>)>, watched: Seq<Watched>) -> Seq<Sighting>
    decreases stamps.len(),
{
    if stamps.len() == 0 {
        Seq::empty()
    } else {
        poll_sightings(stamps.drop_last(), watched) + path_sightings(stamps.last().0@, stamps.last().1, watched)
    }
}

/// The observations the polls yield, oldest poll first.
pub open spec fn sightings(polls: Seq<Poll>, watched: Seq<Watched>) -> Seq<Sighting>
    decreases polls.len(),
{
    if polls.len() == 0 {
        Seq::empty()
    } else {
        sightings(polls.drop_last(), watched) + poll_sightings(polls.last().stamps@, watched)
    }
}

/// What the tracker holds after one observation, and what it made of
/// it.
pub open spec fn observed(held: Map<Seq<char>, FileStamp>, s: Sighting) -> (Map<Seq<char>, FileStamp>, Observation) {
    let key = path_key(s.1);
    let seen_as = observation_of(held_for(held, key), s.2, s.3);
    let after = match seen_as {
        Observation::Settling => held.insert(key, s.2.unwrap()),
        Observation::Settled => held,
        _ => held.remove(key),
    };
    (after, seen_as)
}

/// The tracker after the observations, and the documents a believed
/// change was seen for, each once, in the order first believed.
pub open spec fn judged(held: Map<Seq<char>, FileStamp>, seen: Seq<Sighting>) -> (Map<Seq<char>, FileStamp>, Seq<Doc>)
    decreases seen.len(),
{
    if seen.len() == 0 {
        (held, Seq::empty())
    } else {
        let (before, settled) = judged(held, seen.drop_last());
        let s = seen.last();
        let (after, seen_as) = observed(before, s);
        if seen_as == Observation::Settled && !settled.contains(s.0) {
            (after, settled.push(s.0))
        } else {
            (after, settled)
        }
    }
}

/// Feeds one observation to the tracker, noting a believed change.
fn sight(tracker: &mut RefreshTracker, settled: &mut Vec<Doc>, doc: Doc, path: &str, seen: Option<FileStamp>, ours: Option<FileStamp>)
    requires
        old(tracker).wf(),
    ensures
        final(tracker).wf(),
        (final(tracker)@, final(settled)@) == ({
            let (after, seen_as) = observed(old(tracker)@, (doc, path@, seen, ours));
            if seen_as == Observation::Settled && !old(settled)@.contains(doc) {
                (after, old(settled)@.push(doc))
            } else {
                (after, old(settled)@)
            }
        }),
{
    let seen_as = tracker.observe(path, seen, ours);
    if seen_as == Observation::Settled {
        let mut known = false;
        let mut i: usize = 0;
        while i < settled.len()
            invariant
                i <= settled@.len(),
                known == exists|j: int| 0 <= j < i && settled@[j] == doc,
            decreases settled.len() - i,
        {
            if settled[i] == doc {
                known = true;
            }
            i = i + 1;
        }
        proof {
            assert(known == settled@.contains(doc));
        }
        if !known {
            settled.push(doc);
        }
    }
}

/// The documents whose change on disk is believed this frame: every
/// queued poll is evidence, each of its paths observed for every
/// watched document at that path, in order. Nothing moves under a
/// gesture: while `busy`, the polls are dropped unseen.
pub fn believed_changes(tracker: &mut RefreshTracker, watched: &Vec<Watched>, polls: &Vec<Poll>, busy: bool) -> (settled: Vec<Doc>)
    requires
        old(tracker).wf(),
    ensures
        final(tracker).wf(),
        busy ==> settled@.len() == 0 && final(tracker)@ == old(tracker)@,
        !busy ==> (final(tracker)@, settled@) == judged(old(tracker)@, sightings(polls@, watched@)),
{
    let mut settled: Vec<Doc> = Vec::new();
    if busy || polls.len() == 0 {
        return settled;
    }
    let ghost start = tracker@;
    let mut p: usize = 0;
    while p < polls.len()
        invariant
            tracker.wf(),
            p <= polls@.len(),
            (tracker@, settled@) == judged(start, sightings(polls@.take(p as int), watched@)),
        decreases polls.len() - p,
    {
        let stamps = &polls[p].stamps;
        let ghost done = sightings(polls@.take(p as int), watched@);
        proof {
            assert(polls@.take(p as int + 1).drop_last() == polls@.take(p as int));
        }
        let mut q: usize = 0;
        while q < stamps.len()
            invariant
                tracker.wf(),
                q <= stamps@.len(),
                (tracker@, settled@) == judged(start, done + poll_sightings(stamps@.take(q as int), watched@)),
            decreases stamps.len() - q,
        {
            let path = stamps[q].0.as_str();
            let seen = stamps[q].1;
            let ghost upto = done + poll_sightings(stamps@.take(q as int), watched@);
            proof {
                assert(stamps@.take(q as int + 1).drop_last() == stamps@.take(q as int));
            }
            let mut w: usize = 0;
            while w < watched.len()
                invariant
                    tracker.wf(),
                    w <= watched@.len(),
                    (tracker@, settled@) == judged(start, upto + path_sightings(path@, seen, watched@.take(w as int))),
                decreases watched.len() - w,
            {
                let ghost before = upto + path_sightings(path@, seen, watched@.take(w as int));
                proof {
                    assert(watched@.take(w as int + 1).drop_last() == watched@.take(w as int));
                }
                if same_path(watched[w].path.as_str(), path) {
                    sight(tracker, &mut settled, watched[w].doc, path, seen, watched[w].stamp);
                    proof {
                        let s: Sighting = (watched@[w as int].doc, path@, seen, watched@[w as int].stamp);
                        assert(upto + path_sightings(path@, seen, watched@.take(w as int + 1)) == before.push(s));
                        assert(before.push(s).drop_last() == before);
                    }
                } else {
                    proof {
                        assert(upto + path_sightings(path@, seen, watched@.take(w as int + 1)) == before);
                    }
                }
                w = w + 1;
            }
            proof {
                assert(watched@.take(watched@.len() as int) == watched@);
                assert(done + poll_sightings(stamps@.take(q as int + 1), watched@) == upto + path_sightings(
                    path@,
                    seen,
                    watched@,
                ));
            }
            q = q + 1;
        }
        proof {
            assert(stamps@.take(stamps@.len() as int) == stamps@);
        }
        p = p + 1;
    }
    proof {
        assert(polls@.take(polls@.len() as int) == polls@);
    }
    settled
}

/// The documents believed changed are each named once, and each was
/// observed at least once.
pub proof fn law_a_believed_document_is_named_once(held: Map<Seq<char>, FileStamp>, seen: Seq<Sighting>)
    ensures
        judged(held, seen).1.no_duplicates(),
        forall|d: Doc| #[trigger] judged(held, seen).1.contains(d) ==> exists|i: int| 0 <= i < seen.len() && seen[i].0 == d,
    decreases seen.len(),
{
    if seen.len() > 0 {
        let front = seen.drop_last();
        law_a_believed_document_is_named_once(held, front);
        let (before, settled) = judged(held, front);
        let s = seen.last();
        let (after, seen_as) = observed(before, s);
        if seen_as == Observation::Settled && !settled.contains(s.0) {
            assert forall|a: int, b: int| 0 <= a < b < settled.len() + 1 implies settled.push(s.0)[a] != settled.push(
                s.0,
            )[b] by {
                if b == settled.len() {
                    assert(settled.push(s.0)[a] == settled[a]);
                }
            }
        }
        assert forall|d: Doc| #[trigger] judged(held, seen).1.contains(d) implies exists|i: int|
            0 <= i < seen.len() && seen[i].0 == d by {
            if settled.contains(d) {
                let i = choose|i: int| 0 <= i < front.len() && front[i].0 == d;
                assert(seen[i] == front[i]);
            } else {
                assert(seen[seen.len() - 1].0 == d);
            }
        }
    }
}

/// Whether two paths name the same file, compared by components.
fn same_path(a: &str, b: &str) -> (same: bool)
    ensures
        same == (path_key(a@) == path_key(b@)),
{
    let left = key_of(a);
    let right = key_of(b);
    let n = left.as_str().unicode_len();
    if n != right.as_str().unicode_len() {
        return false;
    }
    let mut i: usize = 0;
    while i < n
        invariant
            left@ == path_key(a@),
            right@ == path_key(b@),
            n == left@.len(),
            n == right@.len(),
            i <= n,
            forall|j: int| 0 <= j < i ==> left@[j] == right@[j],
        decreases n - i,
    {
        if left.as_str().get_char(i) != right.as_str().get_char(i) {
            proof {
                assert(left@[i as int] != right@[i as int]);
            }
            return false;
        }
        i = i + 1;
    }
    proof {
        assert(left@ =~= right@);
    }
    true
}

/// The conflict list after `doc` is raised: unchanged when it is
/// already there, else with `doc` last.
pub open spec fn raised_conflict(conflicts: Seq<Doc>, doc: Doc) -> Seq<Doc> {
    if conflicts.contains(doc) {
        conflicts
    } else {
        conflicts.push(doc)
    }
}

/// Raises a conflict for `doc`: saving stays suspended until the user
/// decides about every document on the list.
pub fn push_conflict(conflicts: &mut Vec<Doc>, doc: Doc)
    ensures
        final(conflicts)@ == raised_conflict(old(conflicts)@, doc),
{
    let mut i: usize = 0;
    while i < conflicts.len()
        invariant
            i <= conflicts@.len(),
            forall|j: int| 0 <= j < i ==> conflicts@[j] != doc,
        decreases conflicts.len() - i,
    {
        if conflicts[i] == doc {
            return;
        }
        i = i + 1;
    }
    conflicts.push(doc);
}

/// What the believed changes call for, given whether each document
/// holds unsaved edits: a clean one is reloaded, a dirty one raises a
/// conflict instead — edits are never discarded without the user.
pub open spec fn triaged(settled: Seq<Doc>, dirty: Seq<bool>, conflicts: Seq<Doc>) -> (Seq<Doc>, Seq<Doc>)
    decreases settled.len(),
{
    if settled.len() == 0 {
        (Seq::empty(), conflicts)
    } else {
        let (reload, raised) = triaged(settled.drop_last(), dirty, conflicts);
        if dirty[settled.len() - 1] {
            (reload, raised_conflict(raised, settled.last()))
        } else {
            (reload.push(settled.last()), raised)
        }
    }
}

/// Splits the believed changes: `dirty[i]` says whether `settled[i]`
/// holds unsaved edits. The clean documents come back, in order, to be
/// reloaded; the dirty ones are raised as conflicts.
pub fn triage(settled: &Vec<Doc>, dirty: &Vec<bool>, conflicts: &mut Vec<Doc>) -> (reload: Vec<Doc>)
    requires
        dirty@.len() == settled@.len(),
    ensures
        (reload@, final(conflicts)@) == triaged(settled@, dirty@, old(conflicts)@),
        forall|i: int| 0 <= i < settled@.len() && !dirty@[i] ==> reload@.contains(#[trigger] settled@[i]),
        forall|d: Doc| #[trigger] reload@.contains(d) ==> exists|i: int|
            0 <= i < settled@.len() && settled@[i] == d && !dirty@[i],
{
    proof {
        law_every_believed_change_is_acted_on(settled@, dirty@, conflicts@);
    }
    let ghost start = conflicts@;
    let mut reload: Vec<Doc> = Vec::new();
    let mut i: usize = 0;
    while i < settled.len()
        invariant
            dirty@.len() == settled@.len(),
            i <= settled@.len(),
            (reload@, conflicts@) == triaged(settled@.take(i as int), dirty@, start),
        decreases settled.len() - i,
    {
        proof {
            assert(settled@.take(i as int + 1).drop_last() == settled@.take(i as int));
        }
        if dirty[i] {
            push_conflict(conflicts, settled[i]);
        } else {
            reload.push(settled[i]);
        }
        i = i + 1;
    }
    proof {
        assert(settled@.take(settled@.len() as int) == settled@);
    }
    reload
}

/// Every believed change is acted on: each clean document is reloaded —
/// in the order the changes were believed — and, with the documents
/// named once, nothing else is; each dirty one is raised instead.
pub proof fn law_every_believed_change_is_acted_on(settled: Seq<Doc>, dirty: Seq<bool>, conflicts: Seq<Doc>)
    requires
        dirty.len() >= settled.len(),
    ensures
        forall|i: int|
            0 <= i < settled.len() && !dirty[i] ==> triaged(settled, dirty, conflicts).0.contains(#[trigger] settled[i]),
        forall|i: int, j: int|
            0 <= i < j < settled.len() && !dirty[i] && !dirty[j] && settled.no_duplicates() ==> {
                let reload = triaged(settled, dirty, conflicts).0;
                exists|a: int, b: int|
                    0 <= a < b < reload.len() && reload[a] == settled[i] && reload[b] == settled[j]
            },
        forall|d: Doc| #[trigger] triaged(settled, dirty, conflicts).0.contains(d) ==> exists|i: int|
            0 <= i < settled.len() && settled[i] == d && !dirty[i],
        triaged(settled, dirty, conflicts).0.len() <= settled.len(),
    decreases settled.len(),
{
    if settled.len() > 0 {
        let front = settled.drop_last();
        law_every_believed_change_is_acted_on(front, dirty, conflicts);
        let (reload, raised) = triaged(front, dirty, conflicts);
        let n = settled.len() - 1;
        let last = settled.last();
        let now = triaged(settled, dirty, conflicts).0;
        assert forall|i: int| 0 <= i < settled.len() && !dirty[i] implies now.contains(#[trigger] settled[i]) by {
            if i < n {
                assert(settled[i] == front[i]);
                assert(reload.contains(front[i]));
                let k = choose|k: int| 0 <= k < reload.len() && reload[k] == front[i];
                assert(now[k] == reload[k]);
            } else {
                assert(now[now.len() - 1] == last);
            }
        }
        assert forall|i: int, j: int|
            0 <= i < j < settled.len() && !dirty[i] && !dirty[j] && settled.no_duplicates() implies exists|a: int, b: int|
            0 <= a < b < now.len() && now[a] == settled[i] && now[b] == settled[j] by {
            assert(settled[i] == front[i]);
            if j < n {
                assert(settled[j] == front[j]);
                assert(front.no_duplicates());
                let (a, b) = choose|a: int, b: int|
                    0 <= a < b < reload.len() && reload[a] == front[i] && reload[b] == front[j];
                assert(now[a] == reload[a] && now[b] == reload[b]);
            } else {
                assert(reload.contains(front[i]));
                let a = choose|a: int| 0 <= a < reload.len() && reload[a] == front[i];
                assert(now[a] == reload[a]);
                assert(now[reload.len() as int] == last);
            }
        }
        assert forall|d: Doc| #[trigger] now.contains(d) implies exists|i: int|
            0 <= i < settled.len() && settled[i] == d && !dirty[i] by {
            let k = choose|k: int| 0 <= k < now.len() && now[k] == d;
            if k < reload.len() {
                assert(now[k] == reload[k]);
                assert(reload.contains(d));
                let i = choose|i: int| 0 <= i < front.len() && front[i] == d && !dirty[i];
                assert(settled[i] == front[i]);
            } else {
                assert(d == last && !dirty[n]);
            }
        }
    }
}

/// A believed change never discards edits: every document reloaded was
/// clean, and every dirty one ends up on the conflict list; the list
/// never names a document twice.
pub proof fn law_a_believed_change_never_discards_edits(settled: Seq<Doc>, dirty: Seq<bool>, conflicts: Seq<Doc>)
    requires
        dirty.len() >= settled.len(),
        conflicts.no_duplicates(),
    ensures
        forall|d: Doc| #[trigger] triaged(settled, dirty, conflicts).0.contains(d) ==> exists|i: int|
            0 <= i < settled.len() && settled[i] == d && !dirty[i],
        forall|i: int| 0 <= i < settled.len() && dirty[i] ==> triaged(settled, dirty, conflicts).1.contains(
            #[trigger] settled[i],
        ),
        triaged(settled, dirty, conflicts).1.no_duplicates(),
        forall|d: Doc| conflicts.contains(d) ==> #[trigger] triaged(settled, dirty, conflicts).1.contains(d),
    decreases settled.len(),
{
    if settled.len() > 0 {
        let front = settled.drop_last();
        law_a_believed_change_never_discards_edits(front, dirty, conflicts);
        let (reload, raised) = triaged(front, dirty, conflicts);
        let last = settled.last();
        let n = settled.len() - 1;
        assert forall|d: Doc| #[trigger] triaged(settled, dirty, conflicts).0.contains(d) implies exists|i: int|
            0 <= i < settled.len() && settled[i] == d && !dirty[i] by {
            if reload.contains(d) {
                let i = choose|i: int| 0 <= i < front.len() && front[i] == d && !dirty[i];
                assert(settled[i] == front[i]);
            } else {
                assert(d == last && !dirty[n]);
            }
        }
        assert forall|i: int| 0 <= i < settled.len() && dirty[i] implies triaged(settled, dirty, conflicts).1.contains(
            #[trigger] settled[i],
        ) by {
            if i < n {
                assert(settled[i] == front[i]);
                assert(raised.contains(front[i]));
                if dirty[n] && !raised.contains(last) {
                    let j = choose|j: int| 0 <= j < raised.len() && raised[j] == front[i];
                    assert(raised.push(last)[j] == front[i]);
                }
            } else if !raised.contains(last) {
                assert(raised.push(last)[raised.len() as int] == last);
            }
        }
        if dirty[n] && !raised.contains(last) {
            assert forall|a: int, b: int| 0 <= a < b < raised.len() + 1 implies raised.push(last)[a] != raised.push(
                last,
            )[b] by {
                if b == raised.len() {
                    assert(raised.push(last)[a] == raised[a]);
                }
            }
        }
        assert forall|d: Doc| conflicts.contains(d) implies #[trigger] triaged(settled, dirty, conflicts).1.contains(
            d,
        ) by {
            assert(raised.contains(d));
            if dirty[n] && !raised.contains(last) {
                let j = choose|j: int| 0 <= j < raised.len() && raised[j] == d;
                assert(raised.push(last)[j] == d);
            }
        }
    }
}

/// A change on disk under unsaved edits suspends autosave and asks:
/// the document lands on the conflict list, and while the list is not
/// empty autosave stays closed: the clock writes nothing and the status
/// reads suspended.
pub proof fn law_a_change_under_unsaved_edits_suspends_autosave(
    settled: Seq<Doc>,
    dirty: Seq<bool>,
    conflicts: Seq<Doc>,
    i: int,
    timer: Timer,
    activity: Activity,
    now: u64,
)
    requires
        dirty.len() >= settled.len(),
        0 <= i < settled.len(),
        dirty[i],
        conflicts.no_duplicates(),
    ensures
        triaged(settled, dirty, conflicts).1.contains(settled[i]),
        ({
            let raised = triaged(settled, dirty, conflicts).1;
            let gate = if raised.len() == 0 {
                Gate::Open
            } else {
                Gate::Suspended
            };
            &&& gate == Gate::Suspended
            &&& verdict_of(timer, Pending::Edits, activity, gate, now) == Verdict::Idle
            &&& state_of(timer, Pending::Edits, gate) == AutosaveState::Suspended
        }),
{
    law_a_believed_change_never_discards_edits(settled, dirty, conflicts);
    assert(triaged(settled, dirty, conflicts).1.contains(settled[i]));
}

/// The documents an autosave writes, in write order: those holding
/// unsaved edits (`unsaved[i]` for `order[i]`).
pub fn due_for_saving(order: &Vec<Doc>, unsaved: &Vec<Edits>) -> (due: Vec<Doc>)
    requires
        unsaved@.len() == order@.len(),
    ensures
        due@ == crate::layers::kept(order@, unsaved@.map_values(|e: Edits| e == Edits::Unsaved)),
{
    let ghost flags = unsaved@.map_values(|e: Edits| e == Edits::Unsaved);
    let mut due: Vec<Doc> = Vec::new();
    let mut i: usize = 0;
    while i < order.len()
        invariant
            unsaved@.len() == order@.len(),
            flags == unsaved@.map_values(|e: Edits| e == Edits::Unsaved),
            i <= order@.len(),
            due@ == crate::layers::kept(order@.take(i as int), flags),
        decreases order.len() - i,
    {
        proof {
            assert(order@.take(i as int + 1).drop_last() == order@.take(i as int));
            assert(order@.take(i as int + 1).last() == order@[i as int]);
        }
        if unsaved[i] == Edits::Unsaved {
            due.push(order[i]);
        }
        i = i + 1;
    }
    proof {
        assert(order@.take(order@.len() as int) == order@);
    }
    due
}

} // verus!
