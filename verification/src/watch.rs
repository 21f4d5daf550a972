//! The external-change guard's judgement: a change on disk is
//! *believed* only once the same stamp has been observed on two
//! consecutive polls, so a save the game is still writing (over SMB,
//! from another machine) is never acted on half-done. The polling
//! itself — a thread that stats the open files — is the caller's; it
//! hands every observation to [`RefreshTracker::observe`].

use vstd::prelude::*;
use crate::documents::FileStamp;
use crate::paths::{key_of, path_key};

verus! {

/// Poll cadence, in milliseconds.
pub const WATCH_INTERVAL: u64 = 2000;

/// What one poll observation means.
#[derive(Clone, Copy, Debug, PartialEq, Eq, Structural)]
pub enum Observation {
    /// The file matches what this app last read or wrote.
    Unchanged,
    /// The file could not be stat'ed; nothing is concluded.
    Unreachable,
    /// The file differs, seen once; wait for corroboration.
    Settling,
    /// The file differs and has held still: act on it.
    Settled,
}

/// One round of stats: each watched path with its stamp, `None` where
/// it could not be stat'ed.
#[derive(Clone, Debug, PartialEq, Eq)]
pub struct Poll {
    pub stamps: Vec<(String, Option<FileStamp>)>,
}

/// No path is held twice.
pub open spec fn keys_unique(s: Seq<(String, FileStamp)>) -> bool {
    forall|i: int, j: int|
        #![trigger s[i], s[j]]
        0 <= i < s.len() && 0 <= j < s.len() && i != j ==> s[i].0@ != s[j].0@
}

/// Whether `s` holds an entry for `k`.
pub open spec fn holds_key(s: Seq<(String, FileStamp)>, k: Seq<char>) -> bool {
    exists|i: int| 0 <= i < s.len() && (#[trigger] s[i]).0@ == k
}

/// The entries as a map from a path's key (see
/// [`crate::paths::path_key`]) to the stamp awaiting corroboration.
pub open spec fn as_map(s: Seq<(String, FileStamp)>) -> Map<Seq<char>, FileStamp> {
    Map::new(
        |k: Seq<char>| holds_key(s, k),
        |k: Seq<char>| s[choose|i: int| 0 <= i < s.len() && (#[trigger] s[i]).0@ == k].1,
    )
}

proof fn lemma_entry(s: Seq<(String, FileStamp)>, i: int)
    requires
        keys_unique(s),
        0 <= i < s.len(),
    ensures
        as_map(s).contains_key(s[i].0@),
        as_map(s)[s[i].0@] == s[i].1,
{
    let k = s[i].0@;
    assert(holds_key(s, k));
    let j = choose|j: int| 0 <= j < s.len() && (#[trigger] s[j]).0@ == k;
    assert(s[j].0@ == k);
    if j != i {
        assert(s[i].0@ != s[j].0@);
    }
}

/// Two-poll corroboration per path; two spellings of one path (`/a//b`
/// and `/a/b`) are one path.
#[derive(Debug)]
pub struct RefreshTracker {
    pending: Vec<(String, FileStamp)>,
}

impl View for RefreshTracker {
    type V = Map<Seq<char>, FileStamp>;

    closed spec fn view(&self) -> Map<Seq<char>, FileStamp> {
        as_map(self.pending@)
    }
}

impl Default for RefreshTracker {
    fn default() -> (tracker: Self)
        ensures
            tracker@ == Map::<Seq<char>, FileStamp>::empty(),
            tracker.wf(),
    {
        let tracker = RefreshTracker { pending: Vec::new() };
        proof {
            assert(as_map(tracker.pending@) =~= Map::<Seq<char>, FileStamp>::empty());
        }
        tracker
    }
}

/// The verdict on one observation of a path, `held` being the stamp
/// seen at that path's previous poll, if it is still awaiting
/// corroboration.
pub open spec fn observation_of(held: Option<FileStamp>, seen: Option<FileStamp>, ours: Option<FileStamp>) -> Observation {
    match seen {
        None => Observation::Unreachable,
        Some(stamp) => if seen == ours {
            Observation::Unchanged
        } else if held == Some(stamp) {
            Observation::Settled
        } else {
            Observation::Settling
        },
    }
}

/// What is held for a path, if anything.
pub open spec fn held_for(m: Map<Seq<char>, FileStamp>, k: Seq<char>) -> Option<FileStamp> {
    if m.contains_key(k) {
        Some(m[k])
    } else {
        None
    }
}

impl RefreshTracker {
    /// The invariant the operations keep.
    pub closed spec fn wf(&self) -> bool {
        keys_unique(self.pending@)
    }

    /// The position of `key`'s entry.
    fn find(&self, key: &String) -> (at: Option<usize>)
        requires
            self.wf(),
        ensures
            match at {
                Some(i) => i < self.pending@.len() && self.pending@[i as int].0@ == key@,
                None => !holds_key(self.pending@, key@),
            },
    {
        let mut i: usize = 0;
        while i < self.pending.len()
            invariant
                i <= self.pending@.len(),
                forall|j: int| 0 <= j < i ==> (#[trigger] self.pending@[j]).0@ != key@,
            decreases self.pending.len() - i,
        {
            if self.pending[i].0 == *key {
                return Some(i);
            }
            i = i + 1;
        }
        None
    }

    /// Drops what is held for `key`.
    fn drop_key(&mut self, key: &String)
        requires
            old(self).wf(),
        ensures
            final(self).wf(),
            final(self)@ == old(self)@.remove(key@),
    {
        if let Some(i) = self.find(key) {
            let ghost before = self.pending@;
            self.pending.remove(i);
            proof {
                let after = self.pending@;
                assert(after == before.remove(i as int));
                assert forall|a: int, b: int|
                    #![trigger after[a], after[b]]
                    0 <= a < after.len() && 0 <= b < after.len() && a != b implies after[a].0@
                    != after[b].0@ by {
                    let a0 = if a < i { a } else { a + 1 };
                    let b0 = if b < i { b } else { b + 1 };
                    assert(after[a] == before[a0] && after[b] == before[b0]);
                    assert(before[a0].0@ != before[b0].0@);
                }
                assert forall|k: Seq<char>| as_map(after).contains_key(k) <==> as_map(
                    before,
                ).remove(key@).contains_key(k) by {
                    if holds_key(after, k) {
                        let a = choose|a: int| 0 <= a < after.len() && (#[trigger] after[a]).0@ == k;
                        let a0 = if a < i { a } else { a + 1 };
                        assert(before[a0] == after[a]);
                        assert(k != key@) by {
                            assert(a0 != i);
                            assert(before[a0].0@ != before[i as int].0@);
                        }
                    }
                    if holds_key(before, k) && k != key@ {
                        let b = choose|b: int| 0 <= b < before.len() && (#[trigger] before[b]).0@ == k;
                        assert(b != i);
                        let a = if b < i { b } else { b - 1 };
                        assert(after[a] == before[b]);
                    }
                }
                assert forall|k: Seq<char>| #[trigger] as_map(after).contains_key(k) implies as_map(after)[k]
                    == as_map(before)[k] by {
                    let a = choose|a: int| 0 <= a < after.len() && (#[trigger] after[a]).0@ == k;
                    let a0 = if a < i { a } else { a + 1 };
                    assert(before[a0] == after[a]);
                    lemma_entry(after, a);
                    lemma_entry(before, a0);
                }
                assert(as_map(after) =~= as_map(before).remove(key@));
            }
        } else {
            proof {
                assert(self.pending@ == old(self).pending@);
                assert(as_map(self.pending@) =~= as_map(self.pending@).remove(key@));
            }
        }
    }

    /// Holds `stamp` for `key`.
    fn hold(&mut self, key: String, stamp: FileStamp)
        requires
            old(self).wf(),
        ensures
            final(self).wf(),
            final(self)@ == old(self)@.insert(key@, stamp),
    {
        let ghost before = self.pending@;
        let ghost k0 = key@;
        match self.find(&key) {
            Some(i) => {
                self.pending.set(i, (key, stamp));
                proof {
                    let after = self.pending@;
                    assert(after == before.update(i as int, after[i as int]));
                    assert forall|a: int, b: int|
                        #![trigger after[a], after[b]]
                        0 <= a < after.len() && 0 <= b < after.len() && a != b implies after[a].0@
                        != after[b].0@ by {
                        assert(after[a].0@ == before[a].0@);
                        assert(after[b].0@ == before[b].0@);
                    }
                    assert forall|k: Seq<char>| as_map(after).contains_key(k) <==> as_map(
                        before,
                    ).insert(k0, stamp).contains_key(k) by {
                        if holds_key(after, k) {
                            let a = choose|a: int| 0 <= a < after.len() && (#[trigger] after[a]).0@ == k;
                            assert(after[a].0@ == before[a].0@);
                        }
                        if holds_key(before, k) {
                            let b = choose|b: int| 0 <= b < before.len() && (#[trigger] before[b]).0@ == k;
                            assert(after[b].0@ == before[b].0@);
                        }
                        if k == k0 {
                            assert(after[i as int].0@ == k0);
                        }
                    }
                    assert forall|k: Seq<char>| #[trigger] as_map(after).contains_key(k) implies as_map(after)[k]
                        == as_map(before).insert(k0, stamp)[k] by {
                        let a = choose|a: int| 0 <= a < after.len() && (#[trigger] after[a]).0@ == k;
                        lemma_entry(after, a);
                        if a == i {
                        } else {
                            assert(after[a] == before[a]);
                            lemma_entry(before, a);
                        }
                    }
                    assert(as_map(after) =~= as_map(before).insert(k0, stamp));
                }
            },
            None => {
                self.pending.push((key, stamp));
                proof {
                    let after = self.pending@;
                    assert(after == before.push(after[after.len() - 1]));
                    assert forall|a: int, b: int|
                        #![trigger after[a], after[b]]
                        0 <= a < after.len() && 0 <= b < after.len() && a != b implies after[a].0@
                        != after[b].0@ by {
                        if a == before.len() {
                            assert(after[b] == before[b]);
                        } else if b == before.len() {
                            assert(after[a] == before[a]);
                        } else {
                            assert(after[a] == before[a] && after[b] == before[b]);
                        }
                    }
                    assert forall|k: Seq<char>| as_map(after).contains_key(k) <==> as_map(
                        before,
                    ).insert(k0, stamp).contains_key(k) by {
                        if holds_key(after, k) {
                            let a = choose|a: int| 0 <= a < after.len() && (#[trigger] after[a]).0@ == k;
                            if a < before.len() {
                                assert(after[a] == before[a]);
                            }
                        }
                        if holds_key(before, k) {
                            let b = choose|b: int| 0 <= b < before.len() && (#[trigger] before[b]).0@ == k;
                            assert(after[b] == before[b]);
                        }
                        if k == k0 {
                            assert(after[before.len() as int].0@ == k0);
                        }
                    }
                    assert forall|k: Seq<char>| #[trigger] as_map(after).contains_key(k) implies as_map(after)[k]
                        == as_map(before).insert(k0, stamp)[k] by {
                        let a = choose|a: int| 0 <= a < after.len() && (#[trigger] after[a]).0@ == k;
                        lemma_entry(after, a);
                        if a < before.len() {
                            assert(after[a] == before[a]);
                            lemma_entry(before, a);
                        }
                    }
                    assert(as_map(after) =~= as_map(before).insert(k0, stamp));
                }
            },
        }
    }

    /// The stamp held for `key`, if any.
    fn held(&self, key: &String) -> (held: Option<FileStamp>)
        requires
            self.wf(),
        ensures
            held == held_for(self@, key@),
    {
        match self.find(key) {
            Some(i) => {
                proof {
                    lemma_entry(self.pending@, i as int);
                }
                Some(self.pending[i].1)
            },
            None => None,
        }
    }

    /// Feeds one observation of `path` — `seen` is its stamp now,
    /// `None` when it could not be stat'ed — against `ours`, the stamp
    /// this app holds for it. A change is believed (`Settled`) only
    /// when the previous poll saw the very same stamp.
    pub fn observe(&mut self, path: &str, seen: Option<FileStamp>, ours: Option<FileStamp>) -> (seen_as: Observation)
        requires
            old(self).wf(),
        ensures
            final(self).wf(),
            seen_as == observation_of(held_for(old(self)@, path_key(path@)), seen, ours),
            final(self)@ == match seen_as {
                Observation::Settling => old(self)@.insert(path_key(path@), seen.unwrap()),
                Observation::Settled => old(self)@,
                _ => old(self)@.remove(path_key(path@)),
            },
    {
        let key = key_of(path);
        match seen {
            None => {
                self.drop_key(&key);
                Observation::Unreachable
            },
            Some(stamp) => {
                if seen == ours {
                    self.drop_key(&key);
                    return Observation::Unchanged;
                }
                if self.held(&key) == Some(stamp) {
                    return Observation::Settled;
                }
                self.hold(key, stamp);
                Observation::Settling
            },
        }
    }

    /// Drops what was seen of `path`, for a file just (re)opened or
    /// deliberately adopted.
    pub fn forget(&mut self, path: &str)
        requires
            old(self).wf(),
        ensures
            final(self).wf(),
            final(self)@ == old(self)@.remove(path_key(path@)),
    {
        let key = key_of(path);
        self.drop_key(&key);
    }
}

/// Corroboration: a stamp seen for the first time (or after a poll that
/// saw the file unchanged or unreachable) is never acted on; the same
/// stamp seen again on the next poll is.
pub proof fn law_a_change_is_believed_on_the_second_identical_poll(
    m: Map<Seq<char>, FileStamp>,
    path: Seq<char>,
    stamp: FileStamp,
    ours: Option<FileStamp>,
)
    requires
        Some(stamp) != ours,
        !m.contains_key(path),
    ensures
        observation_of(held_for(m, path), Some(stamp), ours) == Observation::Settling,
        observation_of(held_for(m.insert(path, stamp), path), Some(stamp), ours)
            == Observation::Settled,
{
}

/// A stamp that moves between polls keeps the change settling.
pub proof fn law_a_moving_file_keeps_settling(
    m: Map<Seq<char>, FileStamp>,
    path: Seq<char>,
    first: FileStamp,
    second: FileStamp,
    ours: Option<FileStamp>,
)
    requires
        first != second,
        Some(second) != ours,
    ensures
        observation_of(held_for(m.insert(path, first), path), Some(second), ours)
            == Observation::Settling,
{
}

} // verus!
