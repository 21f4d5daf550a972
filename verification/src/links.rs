//! Which documents an unsaved edit binds together. A move, a socket
//! fill, a bulk move or an auto-move edits two documents in one
//! gesture — the item leaves one file and lands in another — but the
//! external-change guard decides per document. A link records the
//! pairing while either side is unsaved, so a decision about one
//! reaches both ends; it settles when a side is written or reloaded,
//! since the halves are then no longer a pending pair.

use vstd::prelude::*;
use vstd::set_lib::*;
use crate::documents::Doc;

verus! {

/// Whether `pairs` holds the unordered pair `{x, y}`.
pub open spec fn joined(pairs: Seq<(Doc, Doc)>, x: Doc, y: Doc) -> bool {
    exists|i: int|
        0 <= i < pairs.len() && ((#[trigger] pairs[i]).0 == x && pairs[i].1 == y || pairs[i].0 == y
            && pairs[i].1 == x)
}

/// The links' invariant: no document is linked to itself and every
/// pair is held once, in whichever orientation.
pub open spec fn pairs_wf(pairs: Seq<(Doc, Doc)>) -> bool {
    &&& forall|i: int| 0 <= i < pairs.len() ==> (#[trigger] pairs[i]).0 != pairs[i].1
    &&& forall|i: int, j: int|
        #![trigger pairs[i], pairs[j]]
        0 <= i < j < pairs.len() ==> !(pairs[i].0 == pairs[j].0 && pairs[i].1 == pairs[j].1
            || pairs[i].0 == pairs[j].1 && pairs[i].1 == pairs[j].0)
}

/// `reached` is closed under the links: a pair has both ends in it or
/// neither.
pub open spec fn closed_under(pairs: Seq<(Doc, Doc)>, reached: Seq<Doc>) -> bool {
    forall|i: int|
        0 <= i < pairs.len() ==> (reached.contains((#[trigger] pairs[i]).0) <==> reached.contains(
            pairs[i].1,
        ))
}

/// The pairs that do not touch `doc`.
pub open spec fn untouched_by(pairs: Seq<(Doc, Doc)>, doc: Doc) -> Seq<(Doc, Doc)> {
    pairs.filter(misses(doc))
}

/// Whether a pair does not touch `doc`.
pub open spec fn misses(doc: Doc) -> spec_fn((Doc, Doc)) -> bool {
    |p: (Doc, Doc)| p.0 != doc && p.1 != doc
}

/// Unordered pairs of documents with a pending two-document edit
/// between them.
#[derive(Clone, Debug)]
pub struct Links {
    pairs: Vec<(Doc, Doc)>,
}

impl View for Links {
    type V = Seq<(Doc, Doc)>;

    closed spec fn view(&self) -> Seq<(Doc, Doc)> {
        self.pairs@
    }
}

impl Default for Links {
    fn default() -> (links: Self)
        ensures
            links@ == Seq::<(Doc, Doc)>::empty(),
    {
        Links { pairs: Vec::new() }
    }
}

/// Whether `docs` holds `doc`.
fn holds(docs: &Vec<Doc>, doc: Doc) -> (found: bool)
    ensures
        found == docs@.contains(doc),
{
    let mut i: usize = 0;
    while i < docs.len()
        invariant
            i <= docs.len(),
            forall|j: int| 0 <= j < i ==> docs@[j] != doc,
        decreases docs.len() - i,
    {
        if docs[i] == doc {
            return true;
        }
        i = i + 1;
    }
    false
}

/// The ends of the pairs, first ends then second ends.
pub open spec fn ends(pairs: Seq<(Doc, Doc)>) -> Seq<Doc> {
    pairs.map_values(|p: (Doc, Doc)| p.0) + pairs.map_values(|p: (Doc, Doc)| p.1)
}

/// A sequence without repeats drawn from `universe` is no longer than
/// it.
proof fn lemma_distinct_within(s: Seq<Doc>, universe: Seq<Doc>)
    requires
        s.no_duplicates(),
        forall|i: int| 0 <= i < s.len() ==> universe.contains(#[trigger] s[i]),
    ensures
        s.len() <= universe.len(),
{
    broadcast use vstd::seq_lib::seq_to_set_is_finite;
    s.unique_seq_to_set();
    universe.lemma_cardinality_of_set();
    assert(s.to_set().subset_of(universe.to_set())) by {
        assert forall|d: Doc| s.to_set().contains(d) implies universe.to_set().contains(d) by {
            let k = choose|k: int| 0 <= k < s.len() && s[k] == d;
            assert(universe.contains(s[k]));
        }
    }
    lemma_len_subset(s.to_set(), universe.to_set());
}

impl Links {
    /// The invariant the operations keep.
    pub open spec fn wf(&self) -> bool {
        pairs_wf(self@)
    }

    /// The pairs held, oldest first.
    pub fn pairs(&self) -> (pairs: Vec<(Doc, Doc)>)
        ensures
            pairs@ == self@,
    {
        let mut copy: Vec<(Doc, Doc)> = Vec::new();
        let mut i: usize = 0;
        while i < self.pairs.len()
            invariant
                i <= self.pairs@.len(),
                copy@ == self.pairs@.take(i as int),
            decreases self.pairs.len() - i,
        {
            copy.push(self.pairs[i]);
            proof {
                assert(copy@ == self.pairs@.take(i as int + 1));
            }
            i = i + 1;
        }
        proof {
            assert(self.pairs@.take(self.pairs@.len() as int) == self.pairs@);
        }
        copy
    }

    /// Binds `a` and `b`; a document is never linked to itself, and a
    /// pair is held once however many edits made it.
    pub fn link(&mut self, a: Doc, b: Doc)
        requires
            old(self).wf(),
        ensures
            final(self).wf(),
            final(self)@ == if a != b && !joined(old(self)@, a, b) {
                old(self)@.push((a, b))
            } else {
                old(self)@
            },
    {
        if a != b && !self.joins(a, b) {
            self.pairs.push((a, b));
            proof {
                let s = self.pairs@;
                assert forall|i: int, j: int| 0 <= i < j < s.len() implies !(s[i].0 == s[j].0
                    && s[i].1 == s[j].1 || s[i].0 == s[j].1 && s[i].1 == s[j].0) by {
                    if j == s.len() - 1 {
                        if s[i].0 == s[j].0 && s[i].1 == s[j].1 || s[i].0 == s[j].1 && s[i].1
                            == s[j].0 {
                            assert(old(self)@[i] == s[i]);
                            assert(joined(old(self)@, a, b));
                        }
                    }
                }
            }
        }
    }

    /// `doc`'s unsaved edits are gone — written, or discarded by a
    /// reload — so no pending pair reaches through it any more.
    pub fn settled(&mut self, doc: Doc)
        requires
            old(self).wf(),
        ensures
            final(self).wf(),
            final(self)@ == untouched_by(old(self)@, doc),
    {
        let ghost before = self.pairs@;
        let ghost keep = misses(doc);
        let mut kept: Vec<(Doc, Doc)> = Vec::new();
        let mut i: usize = 0;
        while i < self.pairs.len()
            invariant
                self.pairs@ == before,
                keep == misses(doc),
                i <= before.len(),
                kept@ == before.take(i as int).filter(keep),
            decreases before.len() - i,
        {
            let pair = self.pairs[i];
            if pair.0 != doc && pair.1 != doc {
                kept.push(pair);
            }
            proof {
                let t = before.take(i as int + 1);
                assert(t.drop_last() == before.take(i as int));
                assert(t.last() == pair);
                reveal(Seq::filter);
                assert(keep(pair) == (pair.0 != doc && pair.1 != doc));
                assert(kept@ == t.filter(keep));
            }
            i = i + 1;
        }
        proof {
            assert(before.take(before.len() as int) == before);
            let s = kept@;
            before.lemma_filter_len(keep);
            assert forall|x: int, y: int| 0 <= x < y < s.len() implies !(s[x].0 == s[y].0 && s[x].1
                == s[y].1 || s[x].0 == s[y].1 && s[x].1 == s[y].0) by {
                lemma_filter_order(before, keep, x, y);
            }
            assert forall|x: int| 0 <= x < s.len() implies (#[trigger] s[x]).0 != s[x].1 by {
                assert(s.contains(s[x]));
                before.lemma_filter_contains_rev(keep, s[x]);
                let i = choose|i: int| 0 <= i < before.len() && before[i] == s[x];
                assert(before[i].0 != before[i].1);
            }
        }
        self.pairs = kept;
    }

    /// Whether `a` and `b` are already bound.
    fn joins(&self, a: Doc, b: Doc) -> (found: bool)
        ensures
            found == joined(self@, a, b),
    {
        let mut i: usize = 0;
        while i < self.pairs.len()
            invariant
                i <= self.pairs.len(),
                forall|j: int|
                    0 <= j < i ==> !(self.pairs@[j].0 == a && self.pairs@[j].1 == b
                        || self.pairs@[j].0 == b && self.pairs@[j].1 == a),
            decreases self.pairs.len() - i,
        {
            let (x, y) = self.pairs[i];
            if (x == a && y == b) || (x == b && y == a) {
                return true;
            }
            i = i + 1;
        }
        false
    }

    /// Every document a pending edit binds to one of `docs`, directly
    /// or through further links, without `docs` themselves; in the
    /// order they are reached. Each one found is bound to one of
    /// `docs` or to one found before it, none repeats or is one of
    /// `docs`, and together with `docs` they leave no link half
    /// inside.
    pub fn bound_to(&self, docs: &Vec<Doc>) -> (bound: Vec<Doc>)
        ensures
            bound@.no_duplicates(),
            forall|k: int| 0 <= k < bound@.len() ==> !docs@.contains(#[trigger] bound@[k]),
            reached_in_turn(self@, docs@, bound@),
            closed_under(self@, docs@ + bound@),
            bound@ == reach_order(self@, docs@),
            forall|d: Doc|
                #![trigger bound@.contains(d)]
                bound@.contains(d) <==> (connects(self@, docs@, d) && !docs@.contains(d)),
    {
        let ghost pairs = self.pairs@;
        let ghost universe = ends(pairs);
        let ghost fuel: nat = (docs@.len() + 2 * pairs.len()) as nat;
        let ghost result = explore(pairs, docs@, 0, fuel);
        let mut reached: Vec<Doc> = docs.clone();
        let mut bound: Vec<Doc> = Vec::new();
        let mut index: usize = 0;
        proof {
            assert(reached@ == docs@ + bound@);
            reveal(fresh_within);
            reveal(derived);
            reveal(processed);
        }
        while index < reached.len()
            invariant
                pairs == self.pairs@,
                universe == ends(pairs),
                reached@ == docs@ + bound@,
                index <= reached@.len(),
                fresh_within(docs@, bound@, universe),
                derived(pairs, docs@, bound@),
                processed(pairs, reached@, index as int),
                fuel == docs@.len() + 2 * pairs.len(),
                universe.len() == 2 * pairs.len(),
                result == explore(pairs, docs@, 0, fuel),
                index <= fuel,
                explore(pairs, reached@, index as int, (fuel - index) as nat) == result,
            decreases docs@.len() + universe.len() - index,
        {
            proof {
                reveal(fresh_within);
                lemma_distinct_within(bound@, universe);
                reveal(scanned);
            }
            let current = reached[index];
            let ghost start = reached@;
            proof {
                assert(bound@.len() <= universe.len());
                assert(index < fuel);
                assert(explore(pairs, start, index as int, (fuel - index) as nat) == explore(
                    pairs,
                    scan_links(pairs, start, current, pairs.len() as int),
                    index + 1,
                    (fuel - index - 1) as nat,
                ));
            }
            let mut p: usize = 0;
            while p < self.pairs.len()
                invariant
                    pairs == self.pairs@,
                    universe == ends(pairs),
                    reached@ == docs@ + bound@,
                    index < reached@.len(),
                    current == reached@[index as int],
                    p <= pairs.len(),
                    fresh_within(docs@, bound@, universe),
                    derived(pairs, docs@, bound@),
                    processed(pairs, reached@, index as int),
                    scanned(pairs, reached@, current, p as int),
                    reached@ == scan_links(pairs, start, current, p as int),
                    fuel == docs@.len() + 2 * pairs.len(),
                    universe.len() == 2 * pairs.len(),
                    result == explore(pairs, docs@, 0, fuel),
                    index < fuel,
                    explore(pairs, scan_links(pairs, start, current, pairs.len() as int), index + 1, (fuel - index
                        - 1) as nat) == result,
                decreases pairs.len() - p,
            {
                let (a, b) = self.pairs[p];
                proof {
                    assert(pairs[p as int] == (a, b));
                }
                if a == current || b == current {
                    let other = if a == current {
                        b
                    } else {
                        a
                    };
                    if !holds(&reached, other) {
                        let ghost old_bound = bound@;
                        proof {
                            lemma_other_end(pairs, p as int, current, other);
                            lemma_grow(pairs, universe, docs@, old_bound, index as int, p as int, current, other);
                        }
                        reached.push(other);
                        bound.push(other);
                        proof {
                            assert(reached@ == docs@ + bound@);
                            assert(reached@[reached@.len() - 1] == other);
                        }
                    }
                }
                proof {
                    assert(reached@[index as int] == current);
                    lemma_scan_step(pairs, reached@, current, p as int);
                }
                p = p + 1;
            }
            proof {
                lemma_finish_current(pairs, reached@, index as int, current);
            }
            index = index + 1;
        }
        proof {
            reveal(fresh_within);
            reveal(derived);
            lemma_processed_closed(pairs, reached@);
            assert(result == reached@);
            assert(reached@.skip(docs@.len() as int) =~= bound@);
            assert forall|d: Doc| #[trigger] bound@.contains(d) <==> (connects(self@, docs@, d) && !docs@.contains(d)) by {
                law_what_is_reached_is_what_a_chain_of_links_leads_to(self@, docs@, bound@, d);
                if bound@.contains(d) {
                    let k = choose|k: int| 0 <= k < bound@.len() && bound@[k] == d;
                    assert((docs@ + bound@)[docs@.len() + k] == d);
                }
                if (docs@ + bound@).contains(d) && !docs@.contains(d) {
                    let k = choose|k: int| 0 <= k < (docs@ + bound@).len() && (docs@ + bound@)[k] == d;
                    if k < docs@.len() {
                        assert(docs@[k] == d);
                    } else {
                        assert(bound@[k - docs@.len()] == d);
                    }
                }
            }
        }
        bound
    }
}

/// `reached` after the first `p` links are looked at from `current`:
/// each link touching it adds its other end, unless already reached.
pub open spec fn scan_links(pairs: Seq<(Doc, Doc)>, reached: Seq<Doc>, current: Doc, p: int) -> Seq<Doc>
    decreases p,
{
    if p <= 0 {
        reached
    } else {
        let r = scan_links(pairs, reached, current, p - 1);
        let pair = pairs[p - 1];
        if pair.0 == current || pair.1 == current {
            let other = if pair.0 == current {
                pair.1
            } else {
                pair.0
            };
            if r.contains(other) {
                r
            } else {
                r.push(other)
            }
        } else {
            r
        }
    }
}

/// Breadth-first search from `reached[index]` on: each reached document
/// in turn has every link looked at, in the links' order.
pub open spec fn explore(pairs: Seq<(Doc, Doc)>, reached: Seq<Doc>, index: int, fuel: nat) -> Seq<Doc>
    decreases fuel,
{
    if fuel == 0 || index < 0 || index >= reached.len() {
        reached
    } else {
        explore(pairs, scan_links(pairs, reached, reached[index], pairs.len() as int), index + 1, (fuel - 1) as nat)
    }
}

/// The documents reached from `docs` breadth-first, each in the turn it
/// is first met, without `docs` themselves.
pub open spec fn reach_order(pairs: Seq<(Doc, Doc)>, docs: Seq<Doc>) -> Seq<Doc> {
    explore(pairs, docs, 0, (docs.len() + 2 * pairs.len()) as nat).skip(docs.len() as int)
}

/// Every element of `bound` is new (not in `docs`, no repeats) and an
/// end of some link.
#[verifier::opaque]
spec fn fresh_within(docs: Seq<Doc>, bound: Seq<Doc>, universe: Seq<Doc>) -> bool {
    &&& bound.no_duplicates()
    &&& forall|k: int| 0 <= k < bound.len() ==> !docs.contains(#[trigger] bound[k])
    &&& forall|k: int| 0 <= k < bound.len() ==> universe.contains(#[trigger] bound[k])
}

/// `d` is linked to one of the first `limit` elements of `reached`.
pub open spec fn partner_before(pairs: Seq<(Doc, Doc)>, reached: Seq<Doc>, limit: int, d: Doc) -> bool {
    exists|j: int| 0 <= j < limit && joined(pairs, d, #[trigger] reached[j])
}

/// Each element of `bound` is linked to one of `docs` or to an
/// element of `bound` before it.
pub open spec fn reached_in_turn(pairs: Seq<(Doc, Doc)>, docs: Seq<Doc>, bound: Seq<Doc>) -> bool {
    forall|k: int|
        0 <= k < bound.len() ==> partner_before(pairs, docs + bound, docs.len() + k, #[trigger] bound[k])
}

/// [`reached_in_turn`], hidden from the loops.
#[verifier::opaque]
spec fn derived(pairs: Seq<(Doc, Doc)>, docs: Seq<Doc>, bound: Seq<Doc>) -> bool {
    reached_in_turn(pairs, docs, bound)
}

/// A partner among the first `limit` elements stays one when the
/// sequence grows behind them.
proof fn lemma_partner_kept(pairs: Seq<(Doc, Doc)>, r1: Seq<Doc>, r2: Seq<Doc>, limit: int, d: Doc)
    requires
        partner_before(pairs, r1, limit, d),
        limit <= r1.len(),
        limit <= r2.len(),
        forall|j: int| 0 <= j < limit ==> r1[j] == r2[j],
    ensures
        partner_before(pairs, r2, limit, d),
{
    let j = choose|j: int| 0 <= j < limit && joined(pairs, d, #[trigger] r1[j]);
    assert(r2[j] == r1[j]);
}

/// The first `index` reached documents have every partner reached.
#[verifier::opaque]
spec fn processed(pairs: Seq<(Doc, Doc)>, reached: Seq<Doc>, index: int) -> bool {
    forall|j: int, p: int|
        #![trigger pairs[p], reached[j]]
        0 <= j < index && 0 <= p < pairs.len() ==> (pairs[p].0 == reached[j] ==> reached.contains(
            pairs[p].1,
        )) && (pairs[p].1 == reached[j] ==> reached.contains(pairs[p].0))
}

/// The first `p` links touching `current` have their other end reached.
#[verifier::opaque]
spec fn scanned(pairs: Seq<(Doc, Doc)>, reached: Seq<Doc>, current: Doc, p: int) -> bool {
    forall|q: int|
        0 <= q < p ==> ((#[trigger] pairs[q]).0 == current ==> reached.contains(pairs[q].1)) && (
        pairs[q].1 == current ==> reached.contains(pairs[q].0))
}

proof fn lemma_other_end(pairs: Seq<(Doc, Doc)>, p: int, current: Doc, other: Doc)
    requires
        0 <= p < pairs.len(),
        pairs[p].0 == current && other == pairs[p].1 || pairs[p].1 == current && other
            == pairs[p].0,
    ensures
        joined(pairs, other, current),
        ends(pairs).contains(other),
{
    let universe = ends(pairs);
    if pairs[p].0 == current && other == pairs[p].1 {
        assert(pairs.map_values(|x: (Doc, Doc)| x.1)[p] == other);
        assert(universe[pairs.len() + p] == other);
    } else {
        assert(pairs.map_values(|x: (Doc, Doc)| x.0)[p] == other);
        assert(universe[p] == other);
    }
}

/// Reaching `other`, a partner of the `index`-th reached document not
/// reached yet, keeps every invariant.
proof fn lemma_grow(
    pairs: Seq<(Doc, Doc)>,
    universe: Seq<Doc>,
    docs: Seq<Doc>,
    bound: Seq<Doc>,
    index: int,
    p: int,
    current: Doc,
    other: Doc,
)
    requires
        0 <= index < docs.len() + bound.len(),
        current == (docs + bound)[index],
        joined(pairs, other, current),
        universe.contains(other),
        !(docs + bound).contains(other),
        fresh_within(docs, bound, universe),
        derived(pairs, docs, bound),
        processed(pairs, docs + bound, index),
        scanned(pairs, docs + bound, current, p),
    ensures
        fresh_within(docs, bound.push(other), universe),
        derived(pairs, docs, bound.push(other)),
        processed(pairs, docs + bound.push(other), index),
        scanned(pairs, docs + bound.push(other), current, p),
{
    lemma_grow_fresh(universe, docs, bound, other);
    lemma_grow_derived(pairs, docs, bound, index, current, other);
    lemma_grow_keeps_contains(docs, bound, other);
    lemma_grow_processed(pairs, docs, bound, index, other);
    lemma_grow_scanned(pairs, docs, bound, current, p, other);
}

proof fn lemma_grow_keeps_contains(docs: Seq<Doc>, bound: Seq<Doc>, other: Doc)
    ensures
        forall|d: Doc| (docs + bound).contains(d) ==> #[trigger] (docs + bound.push(other)).contains(d),
        docs + bound.push(other) == (docs + bound).push(other),
{
    let old_reached = docs + bound;
    let reached = docs + bound.push(other);
    assert(reached == old_reached.push(other));
    assert forall|d: Doc| old_reached.contains(d) implies #[trigger] reached.contains(d) by {
        let i = choose|i: int| 0 <= i < old_reached.len() && old_reached[i] == d;
        assert(reached[i] == d);
    }
}

proof fn lemma_grow_fresh(universe: Seq<Doc>, docs: Seq<Doc>, bound: Seq<Doc>, other: Doc)
    requires
        universe.contains(other),
        !(docs + bound).contains(other),
        fresh_within(docs, bound, universe),
    ensures
        fresh_within(docs, bound.push(other), universe),
{
    reveal(fresh_within);
    let old_reached = docs + bound;
    let nb = bound.push(other);
    assert(!docs.contains(other)) by {
        if docs.contains(other) {
            let i = choose|i: int| 0 <= i < docs.len() && docs[i] == other;
            assert(old_reached[i] == other);
        }
    }
    assert(!bound.contains(other)) by {
        if bound.contains(other) {
            let i = choose|i: int| 0 <= i < bound.len() && bound[i] == other;
            assert(old_reached[docs.len() + i] == other);
        }
    }
    assert(nb.no_duplicates());
}

proof fn lemma_grow_derived(
    pairs: Seq<(Doc, Doc)>,
    docs: Seq<Doc>,
    bound: Seq<Doc>,
    index: int,
    current: Doc,
    other: Doc,
)
    requires
        0 <= index < docs.len() + bound.len(),
        current == (docs + bound)[index],
        joined(pairs, other, current),
        derived(pairs, docs, bound),
    ensures
        derived(pairs, docs, bound.push(other)),
{
    reveal(derived);
    let nb = bound.push(other);
    let r1 = docs + bound;
    let r2 = docs + nb;
    assert forall|j: int| 0 <= j < r1.len() implies r1[j] == r2[j] by {}
    assert forall|k: int| 0 <= k < nb.len() implies partner_before(
        pairs,
        r2,
        docs.len() + k,
        #[trigger] nb[k],
    ) by {
        if k < bound.len() {
            assert(nb[k] == bound[k]);
            assert(partner_before(pairs, r1, docs.len() + k, bound[k]));
            lemma_partner_kept(pairs, r1, r2, docs.len() + k, bound[k]);
        } else {
            assert(nb[k] == other);
            assert(r2[index] == current);
            assert(joined(pairs, other, r2[index]));
        }
    }
}

proof fn lemma_grow_processed(
    pairs: Seq<(Doc, Doc)>,
    docs: Seq<Doc>,
    bound: Seq<Doc>,
    index: int,
    other: Doc,
)
    requires
        0 <= index <= docs.len() + bound.len(),
        processed(pairs, docs + bound, index),
        forall|d: Doc| (docs + bound).contains(d) ==> #[trigger] (docs + bound.push(other)).contains(d),
        docs + bound.push(other) == (docs + bound).push(other),
    ensures
        processed(pairs, docs + bound.push(other), index),
{
    reveal(processed);
    let old_reached = docs + bound;
    let reached = docs + bound.push(other);
    assert forall|j: int, q: int|
        #![trigger pairs[q], reached[j]]
        0 <= j < index && 0 <= q < pairs.len() implies (pairs[q].0 == reached[j]
        ==> reached.contains(pairs[q].1)) && (pairs[q].1 == reached[j] ==> reached.contains(
        pairs[q].0,
    )) by {
        assert(reached[j] == old_reached[j]);
        assert(pairs[q] == pairs[q]);
    }
}

proof fn lemma_grow_scanned(
    pairs: Seq<(Doc, Doc)>,
    docs: Seq<Doc>,
    bound: Seq<Doc>,
    current: Doc,
    p: int,
    other: Doc,
)
    requires
        scanned(pairs, docs + bound, current, p),
        forall|d: Doc| (docs + bound).contains(d) ==> #[trigger] (docs + bound.push(other)).contains(d),
    ensures
        scanned(pairs, docs + bound.push(other), current, p),
{
    reveal(scanned);
    let reached = docs + bound.push(other);
    assert forall|q: int| 0 <= q < p implies ((#[trigger] pairs[q]).0 == current
        ==> reached.contains(pairs[q].1)) && (pairs[q].1 == current ==> reached.contains(
        pairs[q].0,
    )) by {
        assert(pairs[q] == pairs[q]);
    }
}


/// One more link looked at from `current`.
proof fn lemma_scan_step(pairs: Seq<(Doc, Doc)>, reached: Seq<Doc>, current: Doc, p: int)
    requires
        0 <= p < pairs.len(),
        scanned(pairs, reached, current, p),
        pairs[p].0 == current ==> reached.contains(pairs[p].1),
        pairs[p].1 == current ==> reached.contains(pairs[p].0),
    ensures
        scanned(pairs, reached, current, p + 1),
{
    reveal(scanned);
}

/// A document whose every link has been looked at is processed.
proof fn lemma_finish_current(pairs: Seq<(Doc, Doc)>, reached: Seq<Doc>, index: int, current: Doc)
    requires
        0 <= index < reached.len(),
        current == reached[index],
        processed(pairs, reached, index),
        scanned(pairs, reached, current, pairs.len() as int),
    ensures
        processed(pairs, reached, index + 1),
{
    reveal(processed);
    reveal(scanned);
    assert forall|j: int, q: int|
        #![trigger pairs[q], reached[j]]
        0 <= j < index + 1 && 0 <= q < pairs.len() implies (pairs[q].0 == reached[j]
        ==> reached.contains(pairs[q].1)) && (pairs[q].1 == reached[j] ==> reached.contains(
        pairs[q].0,
    )) by {
        if j == index {
            assert(pairs[q] == pairs[q]);
        }
    }
}

/// When everything reached is processed, no link is half inside.
proof fn lemma_processed_closed(pairs: Seq<(Doc, Doc)>, reached: Seq<Doc>)
    requires
        processed(pairs, reached, reached.len() as int),
    ensures
        closed_under(pairs, reached),
{
    reveal(processed);
    assert forall|i: int| 0 <= i < pairs.len() implies (reached.contains((#[trigger] pairs[i]).0)
        <==> reached.contains(pairs[i].1)) by {
        if reached.contains(pairs[i].0) {
            let j = choose|j: int| 0 <= j < reached.len() && reached[j] == pairs[i].0;
            assert(reached[j] == reached[j]);
        }
        if reached.contains(pairs[i].1) {
            let j = choose|j: int| 0 <= j < reached.len() && reached[j] == pairs[i].1;
            assert(reached[j] == reached[j]);
        }
    }
}


/// Filtering keeps order: two kept elements come from two positions
/// in the same order, so distinct positions of the result hold
/// distinct pairs of the source.
proof fn lemma_filter_order(
    s: Seq<(Doc, Doc)>,
    keep: spec_fn((Doc, Doc)) -> bool,
    x: int,
    y: int,
)
    requires
        pairs_wf(s),
        0 <= x < y < s.filter(keep).len(),
    ensures
        !(s.filter(keep)[x].0 == s.filter(keep)[y].0 && s.filter(keep)[x].1 == s.filter(keep)[y].1
            || s.filter(keep)[x].0 == s.filter(keep)[y].1 && s.filter(keep)[x].1 == s.filter(
            keep,
        )[y].0),
    decreases s.len(),
{
    reveal_with_fuel(Seq::<_>::filter, 1);
    if s.len() > 0 {
        let init = s.drop_last();
        assert(pairs_wf(init)) by {
            assert forall|i: int| 0 <= i < init.len() implies (#[trigger] init[i]).0 != init[i].1 by {
                assert(init[i] == s[i]);
            }
            assert forall|i: int, j: int| #![trigger init[i], init[j]] 0 <= i < j < init.len() implies !(init[i].0
                == init[j].0 && init[i].1 == init[j].1 || init[i].0 == init[j].1
                && init[i].1 == init[j].0) by {
                assert(init[i] == s[i] && init[j] == s[j]);
            }
        }
        init.lemma_filter_len(keep);
        s.lemma_filter_len(keep);
        if keep(s.last()) && y == s.filter(keep).len() - 1 {
            let f = s.filter(keep);
            assert(f == init.filter(keep).push(s.last()));
            assert(f[x] == init.filter(keep)[x]);
            assert(init.filter(keep).contains(f[x]));
            init.lemma_filter_contains_rev(keep, f[x]);
            let i = choose|i: int| 0 <= i < init.len() && init[i] == init.filter(keep)[x];
            assert(s[i] == f[x]);
            assert(s[s.len() - 1] == f[y]);
        } else if keep(s.last()) {
            lemma_filter_order(init, keep, x, y);
        } else {
            lemma_filter_order(init, keep, x, y);
        }
    }
}

/// Step `i` of `path` follows a link.
pub open spec fn step(pairs: Seq<(Doc, Doc)>, path: Seq<Doc>, i: int) -> bool {
    joined(pairs, path[i], path[i + 1])
}

/// `path` walks the links: each document on it is linked to the next.
pub open spec fn walks(pairs: Seq<(Doc, Doc)>, path: Seq<Doc>) -> bool {
    forall|i: int| 0 <= i < path.len() - 1 ==> #[trigger] step(pairs, path, i)
}

/// A chain of links leads from one of `docs` to `d`.
pub open spec fn connects(pairs: Seq<(Doc, Doc)>, docs: Seq<Doc>, d: Doc) -> bool {
    exists|path: Seq<Doc>|
        #[trigger] walks(pairs, path) && path.len() > 0 && docs.contains(path[0]) && path.last() == d
}

/// Every document of `docs + bound` is reached from `docs` by a chain
/// of links, when each of `bound` is linked to one before it.
proof fn lemma_reached_is_connected(pairs: Seq<(Doc, Doc)>, docs: Seq<Doc>, bound: Seq<Doc>, k: int)
    requires
        reached_in_turn(pairs, docs, bound),
        0 <= k < docs.len() + bound.len(),
    ensures
        connects(pairs, docs, (docs + bound)[k]),
    decreases k,
{
    let reached = docs + bound;
    if k < docs.len() {
        let path = seq![docs[k]];
        assert(walks(pairs, path));
        assert(docs.contains(path[0]));
        assert(reached[k] == docs[k]);
    } else {
        let b = k - docs.len();
        assert(reached[k] == bound[b]);
        assert(partner_before(pairs, reached, docs.len() + b, bound[b]));
        let j = choose|j: int| 0 <= j < docs.len() + b && joined(pairs, bound[b], #[trigger] reached[j]);
        lemma_reached_is_connected(pairs, docs, bound, j);
        let before = choose|path: Seq<Doc>|
            #[trigger] walks(pairs, path) && path.len() > 0 && docs.contains(path[0]) && path.last() == reached[j];
        let path = before.push(bound[b]);
        assert forall|i: int| 0 <= i < path.len() - 1 implies #[trigger] step(pairs, path, i) by {
            if i < before.len() - 1 {
                assert(step(pairs, before, i));
                assert(path[i] == before[i] && path[i + 1] == before[i + 1]);
            } else {
                assert(path[i] == reached[j]);
                assert(path[i + 1] == bound[b]);
                let m = choose|m: int|
                    0 <= m < pairs.len() && ((#[trigger] pairs[m]).0 == bound[b] && pairs[m].1 == reached[j]
                        || pairs[m].0 == reached[j] && pairs[m].1 == bound[b]);
                assert(joined(pairs, reached[j], bound[b]));
            }
        }
        assert(walks(pairs, path));
        assert(path[0] == before[0]);
    }
}

/// A chain of links from one of `docs` stays inside a set that holds
/// `docs` and is closed under the links.
proof fn lemma_chains_stay_inside(pairs: Seq<(Doc, Doc)>, docs: Seq<Doc>, reached: Seq<Doc>, path: Seq<Doc>)
    requires
        closed_under(pairs, reached),
        forall|d: Doc| docs.contains(d) ==> reached.contains(d),
        walks(pairs, path),
        path.len() > 0,
        docs.contains(path[0]),
    ensures
        reached.contains(path.last()),
    decreases path.len(),
{
    if path.len() > 1 {
        let front = path.drop_last();
        assert forall|i: int| 0 <= i < front.len() - 1 implies #[trigger] step(pairs, front, i) by {
            assert(step(pairs, path, i));
        }
        lemma_chains_stay_inside(pairs, docs, reached, front);
        let n = path.len() - 2;
        assert(step(pairs, path, n));
        assert(front.last() == path[n]);
        let m = choose|m: int|
            0 <= m < pairs.len() && ((#[trigger] pairs[m]).0 == path[n] && pairs[m].1 == path[n + 1]
                || pairs[m].0 == path[n + 1] && pairs[m].1 == path[n]);
        assert(reached.contains(pairs[m].0) <==> reached.contains(pairs[m].1));
    }
}

/// What the breadth-first reach finds, with `docs`, is exactly the
/// documents a chain of links leads to from `docs`.
pub proof fn law_what_is_reached_is_what_a_chain_of_links_leads_to(pairs: Seq<(Doc, Doc)>, docs: Seq<Doc>, bound: Seq<Doc>, d: Doc)
    requires
        reached_in_turn(pairs, docs, bound),
        closed_under(pairs, docs + bound),
    ensures
        (docs + bound).contains(d) <==> connects(pairs, docs, d),
{
    let reached = docs + bound;
    if reached.contains(d) {
        let k = choose|k: int| 0 <= k < reached.len() && reached[k] == d;
        lemma_reached_is_connected(pairs, docs, bound, k);
    }
    if connects(pairs, docs, d) {
        let path = choose|path: Seq<Doc>|
            #[trigger] walks(pairs, path) && path.len() > 0 && docs.contains(path[0]) && path.last() == d;
        assert forall|x: Doc| docs.contains(x) implies reached.contains(x) by {
            let i = choose|i: int| 0 <= i < docs.len() && docs[i] == x;
            assert(reached[i] == docs[i]);
        }
        lemma_chains_stay_inside(pairs, docs, reached, path);
    }
}

/// A document bound to another binds it back: asking about either
/// reaches the other.
pub proof fn law_links_are_symmetric(pairs: Seq<(Doc, Doc)>, a: Doc, b: Doc)
    ensures
        joined(pairs, a, b) == joined(pairs, b, a),
{
}

} // verus!
