//! The store's search surfaces as far as they decide anything: which
//! rows a query keeps, the lines under the bars that say what a filter
//! hid, the ascension and
//! socket choices' labels, and the table's sort — which column, which
//! way, and what a header click does to it.

use vstd::prelude::*;
use crate::text::{decimal, decimal_text};

verus! {

/// What the filter did, for the line under the bucket bar.
pub open spec fn summary_line(shown: nat, total: nat, unresolved: nat) -> Seq<char> {
    if total <= shown {
        decimal(total) + " shown"@
    } else if unresolved == 0 {
        decimal(shown) + " of "@ + decimal(total) + " match"@
    } else {
        decimal(shown) + " of "@ + decimal(total) + " match · "@ + decimal(unresolved)
            + " hidden because a required facet could not be resolved for them"@
    }
}

/// What the filter did, for the line under the bucket bar: how many
/// of the bucket's items it kept, and how many it could not decide
/// about.
pub fn summary(shown: usize, total: usize, unresolved: usize) -> (text: String)
    ensures
        text@ == summary_line(shown as nat, total as nat, unresolved as nat),
{
    if total <= shown {
        decimal_text(total as u64).concat(" shown")
    } else if unresolved == 0 {
        let text = decimal_text(shown as u64).concat(" of ");
        let total_text = decimal_text(total as u64);
        text.concat(total_text.as_str()).concat(" match")
    } else {
        let text = decimal_text(shown as u64).concat(" of ");
        let total_text = decimal_text(total as u64);
        let text = text.concat(total_text.as_str()).concat(" match · ");
        let unresolved_text = decimal_text(unresolved as u64);
        text.concat(unresolved_text.as_str()).concat(
            " hidden because a required facet could not be resolved for them",
        )
    }
}

/// What the query says of one item: it matches, it is excluded, or a
/// required facet could not be decided for it.
#[derive(Clone, Copy, Debug, PartialEq, Eq, Structural)]
pub enum Verdict {
    Matches,
    Excluded,
    Unresolved,
}

/// The rows a query keeps: the position of every item it matches, in
/// store order.
pub open spec fn matching(verdicts: Seq<Verdict>) -> Seq<usize>
    decreases verdicts.len(),
{
    if verdicts.len() == 0 {
        Seq::empty()
    } else {
        let before = matching(verdicts.drop_last());
        if verdicts.last() == Verdict::Matches {
            before.push((verdicts.len() - 1) as usize)
        } else {
            before
        }
    }
}

/// How many items the query could not decide about.
pub open spec fn unresolved_count(verdicts: Seq<Verdict>) -> nat
    decreases verdicts.len(),
{
    if verdicts.len() == 0 {
        0
    } else {
        unresolved_count(verdicts.drop_last()) + if verdicts.last() == Verdict::Unresolved {
            1nat
        } else {
            0nat
        }
    }
}

/// The rows a query keeps are exactly the positions of the items it
/// matches, each once, in store order: a matching item is always shown,
/// nothing else is, and the rows only point into the store.
pub proof fn law_the_rows_are_exactly_the_matches(verdicts: Seq<Verdict>)
    requires
        verdicts.len() <= usize::MAX,
    ensures
        forall|k: int| 0 <= k < verdicts.len() ==> (matching(verdicts).contains(k as usize) <==> verdicts[k]
            == Verdict::Matches),
        forall|a: int| 0 <= a < matching(verdicts).len() ==> #[trigger] matching(verdicts)[a] < verdicts.len(),
        forall|a: int, b: int|
            0 <= a < b < matching(verdicts).len() ==> #[trigger] matching(verdicts)[a] < #[trigger] matching(
                verdicts,
            )[b],
    decreases verdicts.len(),
{
    if verdicts.len() > 0 {
        let front = verdicts.drop_last();
        law_the_rows_are_exactly_the_matches(front);
        let before = matching(front);
        let rows = matching(verdicts);
        let n = verdicts.len() - 1;
        assert forall|a: int| 0 <= a < rows.len() implies #[trigger] rows[a] < verdicts.len() by {
            if a < before.len() {
                assert(rows[a] == before[a]);
            }
        }
        assert((n as usize) as int == n);
        assert forall|a: int, b: int| 0 <= a < b < rows.len() implies #[trigger] rows[a] < #[trigger] rows[b] by {
            assert(rows[a] == before[a]);
            assert(before[a] < front.len());
            if b < before.len() {
                assert(rows[b] == before[b]);
            }
        }
        assert forall|k: int| 0 <= k < verdicts.len() implies (rows.contains(k as usize) <==> verdicts[k]
            == Verdict::Matches) by {
            if k < n {
                assert(verdicts[k] == front[k]);
                if before.contains(k as usize) {
                    let a = choose|a: int| 0 <= a < before.len() && before[a] == k as usize;
                    assert(rows[a] == before[a]);
                }
                if rows.contains(k as usize) {
                    let a = choose|a: int| 0 <= a < rows.len() && rows[a] == k as usize;
                    if a >= before.len() {
                        assert(rows[a] == n as usize);
                    }
                    assert(before[a] == k as usize);
                }
            } else {
                if verdicts[k] == Verdict::Matches {
                    assert(rows[before.len() as int] == n as usize);
                } else {
                    if rows.contains(k as usize) {
                        let a = choose|a: int| 0 <= a < rows.len() && rows[a] == k as usize;
                        assert(before[a] < front.len());
                    }
                }
            }
        }
    }
}

/// The rows a query keeps and the count of items it hid because it
/// could not decide about them.
pub struct Filtered {
    pub rows: Vec<usize>,
    pub unresolved: usize,
}

/// Filters the store by the query's verdict on each item (`verdicts`,
/// in store order): the matching items' positions become the rows, the
/// undecided ones are counted, the excluded ones just drop out. What is
/// shown and what is unresolved never add up to more than the store.
pub fn filter(verdicts: &Vec<Verdict>) -> (filtered: Filtered)
    ensures
        filtered.rows@ == matching(verdicts@),
        filtered.unresolved == unresolved_count(verdicts@),
        filtered.rows@.len() + filtered.unresolved <= verdicts@.len(),
        forall|k: int| 0 <= k < verdicts@.len() ==> (filtered.rows@.contains(k as usize) <==> verdicts@[k]
            == Verdict::Matches),
        forall|a: int, b: int|
            0 <= a < b < filtered.rows@.len() ==> #[trigger] filtered.rows@[a] < #[trigger] filtered.rows@[b],
        forall|a: int| 0 <= a < filtered.rows@.len() ==> #[trigger] filtered.rows@[a] < verdicts@.len(),
{
    let count = verdicts.len();
    proof {
        assert(verdicts@.len() == count);
        law_the_rows_are_exactly_the_matches(verdicts@);
    }
    let mut rows: Vec<usize> = Vec::new();
    let mut unresolved: usize = 0;
    let mut k: usize = 0;
    while k < verdicts.len()
        invariant
            k <= verdicts@.len(),
            rows@ == matching(verdicts@.take(k as int)),
            unresolved == unresolved_count(verdicts@.take(k as int)),
            rows@.len() + unresolved <= k,
        decreases verdicts.len() - k,
    {
        proof {
            assert(verdicts@.take(k as int + 1).drop_last() == verdicts@.take(k as int));
        }
        match verdicts[k] {
            Verdict::Matches => rows.push(k),
            Verdict::Excluded => {},
            Verdict::Unresolved => unresolved = unresolved + 1,
        }
        k = k + 1;
    }
    proof {
        assert(verdicts@.take(verdicts@.len() as int) == verdicts@);
    }
    Filtered { rows, unresolved }
}

/// The search view's line.
pub open spec fn search_summary_line(shown: nat, total: nat, unresolved: nat) -> Seq<char> {
    if unresolved == 0 {
        decimal(shown) + " of "@ + decimal(total) + " shown"@
    } else {
        decimal(shown) + " of "@ + decimal(total) + " shown · "@ + decimal(unresolved) + " unresolved"@
    }
}

/// The search view's line: what the table shows of the store and how
/// many items no constraint could be decided for.
pub fn search_summary(shown: usize, total: usize, unresolved: usize) -> (text: String)
    ensures
        text@ == search_summary_line(shown as nat, total as nat, unresolved as nat),
{
    let text = decimal_text(shown as u64).concat(" of ");
    let total_text = decimal_text(total as u64);
    if unresolved == 0 {
        text.concat(total_text.as_str()).concat(" shown")
    } else {
        let text = text.concat(total_text.as_str()).concat(" shown · ");
        let unresolved_text = decimal_text(unresolved as u64);
        text.concat(unresolved_text.as_str()).concat(" unresolved")
    }
}

/// Which items the ascension choice keeps.
#[derive(Clone, Copy, Debug, PartialEq, Eq, Structural)]
pub enum AscensionFilter {
    Any,
    Upgradeable,
    Ascended,
}

/// The label of an ascension choice.
pub open spec fn ascension_text(filter: AscensionFilter) -> Seq<char> {
    match filter {
        AscensionFilter::Any => "Any ascension"@,
        AscensionFilter::Upgradeable => "Upgradeable"@,
        AscensionFilter::Ascended => "Ascended"@,
    }
}

/// The label of an ascension choice.
pub fn ascension_label(filter: AscensionFilter) -> (text: &'static str)
    ensures
        text@ == ascension_text(filter),
{
    match filter {
        AscensionFilter::Any => "Any ascension",
        AscensionFilter::Upgradeable => "Upgradeable",
        AscensionFilter::Ascended => "Ascended",
    }
}

/// Which items the socket choice keeps.
#[derive(Clone, Copy, Debug, PartialEq, Eq, Structural)]
pub enum SocketFilter {
    Any,
    Socketed,
    Unsocketed,
}

/// The label of a socket choice.
pub open spec fn socket_text(filter: SocketFilter) -> Seq<char> {
    match filter {
        SocketFilter::Any => "Socketed or not"@,
        SocketFilter::Socketed => "With component"@,
        SocketFilter::Unsocketed => "Without component"@,
    }
}

/// The label of a socket choice.
pub fn socket_label(filter: SocketFilter) -> (text: &'static str)
    ensures
        text@ == socket_text(filter),
{
    match filter {
        SocketFilter::Any => "Socketed or not",
        SocketFilter::Socketed => "With component",
        SocketFilter::Unsocketed => "Without component",
    }
}

/// A column the table sorts by.
#[derive(Clone, Copy, Debug, PartialEq, Eq, Structural)]
pub enum SortKey {
    Name,
    Category,
    Rarity,
    Level,
}

/// Which way a column runs.
#[derive(Clone, Copy, Debug, PartialEq, Eq, Structural)]
pub enum SortDirection {
    Ascending,
    Descending,
}

/// The other way.
pub open spec fn flip(direction: SortDirection) -> SortDirection {
    match direction {
        SortDirection::Ascending => SortDirection::Descending,
        SortDirection::Descending => SortDirection::Ascending,
    }
}

impl SortDirection {
    /// The other way.
    pub fn flipped(self) -> (other: SortDirection)
        ensures
            other == flip(self),
    {
        match self {
            SortDirection::Ascending => SortDirection::Descending,
            SortDirection::Descending => SortDirection::Ascending,
        }
    }
}

/// The table's order.
#[derive(Clone, Copy, Debug, PartialEq, Eq, Structural)]
pub struct Sort {
    pub key: SortKey,
    pub direction: SortDirection,
}

/// The direction a column reads best in when first picked: names and
/// types A→Z, rarity and level highest first.
pub open spec fn natural(key: SortKey) -> SortDirection {
    match key {
        SortKey::Name | SortKey::Category => SortDirection::Ascending,
        SortKey::Rarity | SortKey::Level => SortDirection::Descending,
    }
}

/// The sort after a click on the header of `key`.
pub open spec fn after_click(sort: Sort, key: SortKey) -> Sort {
    if sort.key == key {
        Sort { key, direction: flip(sort.direction) }
    } else {
        Sort { key, direction: natural(key) }
    }
}

impl Sort {
    /// A column in the direction it reads best when first picked.
    pub fn on(key: SortKey) -> (sort: Sort)
        ensures
            sort == (Sort { key, direction: natural(key) }),
    {
        let direction = match key {
            SortKey::Name | SortKey::Category => SortDirection::Ascending,
            SortKey::Rarity | SortKey::Level => SortDirection::Descending,
        };
        Sort { key, direction }
    }

    /// A header click: the same column flips, another opens naturally.
    pub fn clicked(self, key: SortKey) -> (sort: Sort)
        ensures
            sort == after_click(self, key),
    {
        if self.key == key {
            Sort { key, direction: self.direction.flipped() }
        } else {
            Sort::on(key)
        }
    }
}

impl Default for Sort {
    /// By name, A→Z.
    fn default() -> (sort: Sort)
        ensures
            sort == (Sort { key: SortKey::Name, direction: SortDirection::Ascending }),
    {
        Sort::on(SortKey::Name)
    }
}

/// Clicking the same header twice restores the sort, and a click on
/// another header always opens that column in its natural direction.
pub proof fn law_two_clicks_on_a_header_restore_the_sort(sort: Sort, key: SortKey)
    ensures
        after_click(after_click(sort, sort.key), sort.key) == sort,
        key != sort.key ==> after_click(sort, key) == (Sort { key, direction: natural(key) }),
{
}

} // verus!
