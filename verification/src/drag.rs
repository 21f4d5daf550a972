//! Drag-and-drop as data: where a drag began, where it may land, what
//! move that means, and whether a footprint fits where it is dropped;
//! with the cell geometry the panes share — the cells an item covers,
//! which item covers a cell, and how far the items reach.

use vstd::prelude::*;

verus! {

/// A tab of the transfer stash, counting from zero.
#[derive(Clone, Copy, Debug, PartialEq, Eq, Structural)]
pub struct TabIndex(pub usize);

/// An item of a tab, in the tab's order.
#[derive(Clone, Copy, Debug, PartialEq, Eq, Structural)]
pub struct ItemIndex(pub usize);

/// A row of the component / crafting-material storage.
#[derive(Clone, Copy, Debug, PartialEq, Eq, Structural)]
pub struct ReagentIndex(pub usize);

/// An item of the vault store.
#[derive(Clone, Copy, Debug, PartialEq, Eq, Structural)]
pub struct StoredItemId(pub u64);

impl TabIndex {
    pub fn new(value: usize) -> (tab: TabIndex)
        ensures
            tab.0 == value,
    {
        TabIndex(value)
    }

    pub fn value(self) -> (value: usize)
        ensures
            value == self.0,
    {
        self.0
    }
}

impl ItemIndex {
    pub fn new(value: usize) -> (index: ItemIndex)
        ensures
            index.0 == value,
    {
        ItemIndex(value)
    }

    pub fn value(self) -> (value: usize)
        ensures
            value == self.0,
    {
        self.0
    }
}

impl ReagentIndex {
    pub fn new(value: usize) -> (index: ReagentIndex)
        ensures
            index.0 == value,
    {
        ReagentIndex(value)
    }

    pub fn value(self) -> (value: usize)
        ensures
            value == self.0,
    {
        self.0
    }
}

impl StoredItemId {
    pub fn new(value: u64) -> (id: StoredItemId)
        ensures
            id.0 == value,
    {
        StoredItemId(value)
    }

    pub fn value(self) -> (value: u64)
        ensures
            value == self.0,
    {
        self.0
    }
}

/// A cell of a grid: column `x`, row `y`.
#[derive(Clone, Copy, Debug, PartialEq, Eq, Structural)]
pub struct GridPos {
    pub x: i32,
    pub y: i32,
}

/// A run of cells: from column `x`, row `y`, `width` by `height`.
#[derive(Clone, Copy, Debug, PartialEq, Eq, Structural)]
pub struct CellRect {
    pub x: i32,
    pub y: i32,
    pub width: i32,
    pub height: i32,
}

/// How many cells an item spans.
#[derive(Clone, Copy, Debug, PartialEq, Eq, Structural)]
pub struct Footprint {
    pub width: i32,
    pub height: i32,
}

/// Which tab of the storage a record belongs to.
#[derive(Clone, Copy, Debug, PartialEq, Eq, Structural)]
pub enum ReagentKind {
    Component,
    CraftingMaterial,
}

/// Where a drag was lifted from.
#[derive(Clone, Copy, Debug, PartialEq, Eq, Structural)]
pub enum DragSource {
    Stash { tab: TabIndex, index: ItemIndex },
    Store(StoredItemId),
    /// A row of the storage; `count` is how many the drag carries (the
    /// whole entry, or the amount the user chose).
    Reagent { index: ReagentIndex, count: u32 },
}

/// Where the pointer is over this frame.
#[derive(Clone, Copy, Debug, PartialEq, Eq, Structural)]
pub enum DropTarget {
    /// A cell of a stash tab's grid.
    StashCell { tab: TabIndex, cell: GridPos },
    /// A tab's header: first fit in that tab.
    StashTab(TabIndex),
    /// The store pane: filed by type, no cells.
    Store,
    /// One of the storage's tabs: merged by record, no cells. The tab
    /// is only where the pointer is — the record decides the tab.
    Reagents(ReagentKind),
}

/// Whether a footprint can land at a cell.
#[derive(Clone, Copy, Debug, PartialEq, Eq, Structural)]
pub enum Fit {
    Fits,
    Blocked,
    /// The tab holds an item whose footprint is unknown, so nothing
    /// can be placed in it.
    Unresolvable,
}

/// The move a drop asks for.
#[derive(Clone, Copy, Debug, PartialEq, Eq, Structural)]
pub enum Move {
    Vault { tab: TabIndex, index: ItemIndex },
    PlaceAt { id: StoredItemId, tab: TabIndex, cell: GridPos },
    PlaceFirstFit { id: StoredItemId, tab: TabIndex },
    RearrangeAt { from: TabIndex, index: ItemIndex, to: TabIndex, cell: GridPos },
    RearrangeFirstFit { from: TabIndex, index: ItemIndex, to: TabIndex },
    /// Storage → store.
    VaultReagent { index: ReagentIndex, count: u32 },
    /// Store → storage.
    StoreReagent { id: StoredItemId },
    /// Stash → storage.
    StashReagent { tab: TabIndex, index: ItemIndex },
    /// Storage → stash at a cell.
    ReagentToStashAt { index: ReagentIndex, count: u32, tab: TabIndex, cell: GridPos },
    /// Storage → stash, first fit.
    ReagentToStashFirstFit { index: ReagentIndex, count: u32, tab: TabIndex },
    /// Dropped back where it already is.
    Stay,
}

/// The move a source dropped on a target asks for.
pub open spec fn planned(source: DragSource, target: DropTarget) -> Move {
    match source {
        DragSource::Stash { tab, index } => match target {
            DropTarget::Store => Move::Vault { tab, index },
            DropTarget::StashCell { tab: to, cell } => Move::RearrangeAt { from: tab, index, to, cell },
            DropTarget::StashTab(to) => if tab == to {
                Move::Stay
            } else {
                Move::RearrangeFirstFit { from: tab, index, to }
            },
            DropTarget::Reagents(_) => Move::StashReagent { tab, index },
        },
        DragSource::Store(id) => match target {
            DropTarget::StashCell { tab, cell } => Move::PlaceAt { id, tab, cell },
            DropTarget::StashTab(tab) => Move::PlaceFirstFit { id, tab },
            DropTarget::Store => Move::Stay,
            DropTarget::Reagents(_) => Move::StoreReagent { id },
        },
        DragSource::Reagent { index, count } => match target {
            DropTarget::Store => Move::VaultReagent { index, count },
            DropTarget::StashCell { tab, cell } => Move::ReagentToStashAt { index, count, tab, cell },
            DropTarget::StashTab(tab) => Move::ReagentToStashFirstFit { index, count, tab },
            DropTarget::Reagents(_) => Move::Stay,
        },
    }
}

/// A stash item dropped on the header of another stash tab goes to the
/// first free cells of that tab; dropped on its own tab's header it
/// stays where it is.
pub proof fn law_a_header_drop_rearranges_into_another_tab()
    ensures
        forall|from: TabIndex, index: ItemIndex, to: TabIndex|
            from != to ==> #[trigger] planned(DragSource::Stash { tab: from, index }, DropTarget::StashTab(to))
                == (Move::RearrangeFirstFit { from, index, to }),
        forall|tab: TabIndex, index: ItemIndex|
            #[trigger] planned(DragSource::Stash { tab, index }, DropTarget::StashTab(tab)) == Move::Stay,
{
}

/// What a drop of `source` on `target` decides.
pub fn plan(source: DragSource, target: DropTarget) -> (mv: Move)
    ensures
        mv == planned(source, target),
        forall|from: TabIndex, index: ItemIndex, to: TabIndex|
            source == (DragSource::Stash { tab: from, index }) && target == DropTarget::StashTab(to) ==> mv == (
            if from == to {
                Move::Stay
            } else {
                Move::RearrangeFirstFit { from, index, to }
            }),
{
    proof {
        law_a_header_drop_rearranges_into_another_tab();
    }
    match (source, target) {
        (DragSource::Stash { tab, index }, DropTarget::Store) => Move::Vault { tab, index },
        (DragSource::Stash { tab: from, index }, DropTarget::StashCell { tab: to, cell }) => {
            Move::RearrangeAt { from, index, to, cell }
        },
        (DragSource::Stash { tab: from, index }, DropTarget::StashTab(to)) => {
            if from == to {
                Move::Stay
            } else {
                Move::RearrangeFirstFit { from, index, to }
            }
        },
        (DragSource::Stash { tab, index }, DropTarget::Reagents(_)) => Move::StashReagent { tab, index },
        (DragSource::Store(id), DropTarget::StashCell { tab, cell }) => Move::PlaceAt { id, tab, cell },
        (DragSource::Store(id), DropTarget::StashTab(tab)) => Move::PlaceFirstFit { id, tab },
        (DragSource::Store(_), DropTarget::Store) => Move::Stay,
        (DragSource::Reagent { .. }, DropTarget::Reagents(_)) => Move::Stay,
        (DragSource::Store(id), DropTarget::Reagents(_)) => Move::StoreReagent { id },
        (DragSource::Reagent { index, count }, DropTarget::Store) => Move::VaultReagent { index, count },
        (DragSource::Reagent { index, count }, DropTarget::StashCell { tab, cell }) => {
            Move::ReagentToStashAt { index, count, tab, cell }
        },
        (DragSource::Reagent { index, count }, DropTarget::StashTab(tab)) => {
            Move::ReagentToStashFirstFit { index, count, tab }
        },
    }
}

/// What a double-click asks for.
pub open spec fn double_click_move(source: DragSource, current_tab: TabIndex) -> Move {
    match source {
        DragSource::Stash { tab, index } => Move::Vault { tab, index },
        DragSource::Store(id) => Move::PlaceFirstFit { id, tab: current_tab },
        DragSource::Reagent { index, count } => Move::VaultReagent { index, count },
    }
}

/// What a double-click asks for: a stash item or a storage row vaults,
/// a stored item takes the first fit in the current tab.
pub fn plan_double_click(source: DragSource, current_tab: TabIndex) -> (mv: Move)
    ensures
        mv == double_click_move(source, current_tab),
{
    match source {
        DragSource::Stash { tab, index } => Move::Vault { tab, index },
        DragSource::Store(id) => Move::PlaceFirstFit { id, tab: current_tab },
        DragSource::Reagent { index, count } => Move::VaultReagent { index, count },
    }
}

/// Whether two runs of cells share a cell.
pub open spec fn overlaps(a: CellRect, b: CellRect) -> bool {
    &&& a.x < b.x + b.width
    &&& b.x < a.x + a.width
    &&& a.y < b.y + b.height
    &&& b.y < a.y + a.height
}

/// Whether a run of cells lies inside a `cols` × `rows` grid.
pub open spec fn inside(rect: CellRect, cols: int, rows: int) -> bool {
    &&& 0 <= rect.x
    &&& 0 <= rect.y
    &&& rect.x + rect.width <= cols
    &&& rect.y + rect.height <= rows
}

/// Whether `candidate` can be placed among `occupied` in a `cols` ×
/// `rows` grid: inside it and sharing no cell with an occupant.
pub open spec fn fits_among(occupied: Seq<CellRect>, candidate: CellRect, cols: int, rows: int) -> bool {
    &&& inside(candidate, cols, rows)
    &&& forall|i: int| 0 <= i < occupied.len() ==> !overlaps(#[trigger] occupied[i], candidate)
}

fn overlap(a: CellRect, b: CellRect) -> (shared: bool)
    ensures
        shared == overlaps(a, b),
{
    let (ax, ay, aw, ah) = (a.x as i64, a.y as i64, a.width as i64, a.height as i64);
    let (bx, by, bw, bh) = (b.x as i64, b.y as i64, b.width as i64, b.height as i64);
    ax < bx + bw && bx < ax + aw && ay < by + bh && by < ay + ah
}

/// Whether `candidate` can be placed among `occupied` in a `cols` ×
/// `rows` grid.
pub fn fits(occupied: &Vec<CellRect>, candidate: CellRect, cols: i32, rows: i32) -> (fit: bool)
    ensures
        fit == fits_among(occupied@, candidate, cols as int, rows as int),
{
    let x = candidate.x as i64;
    let y = candidate.y as i64;
    if x < 0 || y < 0 || x + candidate.width as i64 > cols as i64 || y + candidate.height as i64 > rows as i64 {
        return false;
    }
    let mut i: usize = 0;
    while i < occupied.len()
        invariant
            i <= occupied@.len(),
            forall|j: int| 0 <= j < i ==> !overlaps(#[trigger] occupied@[j], candidate),
        decreases occupied.len() - i,
    {
        if overlap(occupied[i], candidate) {
            return false;
        }
        i = i + 1;
    }
    true
}

/// The cells an item at `pos` with `footprint` covers.
pub open spec fn cells_at(pos: GridPos, footprint: Footprint) -> CellRect {
    CellRect { x: pos.x, y: pos.y, width: footprint.width, height: footprint.height }
}

/// The cells an item at `pos` with `footprint` covers.
pub fn cells_of(pos: GridPos, footprint: Footprint) -> (cells: CellRect)
    ensures
        cells == cells_at(pos, footprint),
{
    CellRect { x: pos.x, y: pos.y, width: footprint.width, height: footprint.height }
}

/// Preview verdict for `footprint` at `cell` over a tab whose
/// occupants are `occupied` (the dragged item itself excluded by the
/// caller). `resolvable` is false when any occupant's footprint is
/// unknown.
pub fn fit_at(
    occupied: &Vec<CellRect>,
    resolvable: bool,
    footprint: Footprint,
    cell: GridPos,
    cols: i32,
    rows: i32,
) -> (fit: Fit)
    ensures
        fit == if !resolvable {
            Fit::Unresolvable
        } else if fits_among(occupied@, cells_at(cell, footprint), cols as int, rows as int) {
            Fit::Fits
        } else {
            Fit::Blocked
        },
{
    if !resolvable {
        return Fit::Unresolvable;
    }
    let candidate = CellRect { x: cell.x, y: cell.y, width: footprint.width, height: footprint.height };
    if fits(occupied, candidate, cols, rows) {
        Fit::Fits
    } else {
        Fit::Blocked
    }
}

/// Preview verdict for a drag over one of the storage's tabs: a stash
/// or store item lands if its record is storable (`kind` is its tab);
/// a storage row is already there.
pub fn fit_in_reagents(source: DragSource, kind: Option<ReagentKind>) -> (fit: Fit)
    ensures
        fit == match source {
            DragSource::Reagent { .. } => Fit::Blocked,
            _ => if kind is Some {
                Fit::Fits
            } else {
                Fit::Blocked
            },
        },
{
    match source {
        DragSource::Stash { .. } | DragSource::Store(_) => {
            if kind.is_some() {
                Fit::Fits
            } else {
                Fit::Blocked
            }
        },
        DragSource::Reagent { .. } => Fit::Blocked,
    }
}

/// Whether a footprint is the record's or a stand-in for one the
/// database could not supply.
#[derive(Clone, Copy, Debug, PartialEq, Eq, Structural)]
pub enum FootprintSource {
    Known,
    Assumed,
}

/// The footprint to paint with: the record's, or 1×1 when unknown so
/// the item is still visible (and marked).
pub fn footprint_or_unit(footprint: Option<Footprint>) -> (painted: (Footprint, FootprintSource))
    ensures
        painted == match footprint {
            Some(known) => (known, FootprintSource::Known),
            None => (Footprint { width: 1, height: 1 }, FootprintSource::Assumed),
        },
{
    match footprint {
        Some(known) => (known, FootprintSource::Known),
        None => (Footprint { width: 1, height: 1 }, FootprintSource::Assumed),
    }
}

/// Whether `rect` covers `cell`.
pub open spec fn covers(rect: CellRect, cell: GridPos) -> bool {
    &&& rect.x <= cell.x < rect.x + rect.width
    &&& rect.y <= cell.y < rect.y + rect.height
}

/// Whether a run's far edges are `i32`s.
pub open spec fn edges_fit(rect: CellRect) -> bool {
    &&& i32::MIN <= rect.x + rect.width <= i32::MAX
    &&& i32::MIN <= rect.y + rect.height <= i32::MAX
}

/// Index of the first occupant covering `cell`, if any.
pub fn occupant_at(occupants: &Vec<CellRect>, cell: GridPos) -> (found: Option<usize>)
    requires
        forall|i: int| 0 <= i < occupants@.len() ==> edges_fit(#[trigger] occupants@[i]),
    ensures
        match found {
            Some(k) => k < occupants@.len() && covers(occupants@[k as int], cell) && forall|j: int|
                0 <= j < k ==> !covers(#[trigger] occupants@[j], cell),
            None => forall|j: int| 0 <= j < occupants@.len() ==> !covers(#[trigger] occupants@[j], cell),
        },
{
    let mut i: usize = 0;
    while i < occupants.len()
        invariant
            i <= occupants@.len(),
            forall|j: int| 0 <= j < occupants@.len() ==> edges_fit(#[trigger] occupants@[j]),
            forall|j: int| 0 <= j < i ==> !covers(#[trigger] occupants@[j], cell),
        decreases occupants.len() - i,
    {
        let rect = occupants[i];
        proof {
            assert(edges_fit(occupants@[i as int]));
        }
        if cell.x >= rect.x && cell.x < rect.x + rect.width && cell.y >= rect.y && cell.y < rect.y + rect.height {
            return Some(i);
        }
        i = i + 1;
    }
    None
}

/// The far column edge of the first `k` runs, never below zero.
pub open spec fn reach_x(rects: Seq<CellRect>, k: int) -> int
    decreases k,
{
    if k <= 0 {
        0
    } else {
        let before = reach_x(rects, k - 1);
        let edge = rects[k - 1].x + rects[k - 1].width;
        if edge > before {
            edge
        } else {
            before
        }
    }
}

/// The far row edge of the first `k` runs, never below zero.
pub open spec fn reach_y(rects: Seq<CellRect>, k: int) -> int
    decreases k,
{
    if k <= 0 {
        0
    } else {
        let before = reach_y(rects, k - 1);
        let edge = rects[k - 1].y + rects[k - 1].height;
        if edge > before {
            edge
        } else {
            before
        }
    }
}

/// The far edge of the runs, for growing a container whose fixed size
/// the data exceeds: the largest column and row edge, `(0, 0)` for
/// none.
pub fn extent(cells: &Vec<CellRect>) -> (edge: (i32, i32))
    requires
        forall|i: int| 0 <= i < cells@.len() ==> edges_fit(#[trigger] cells@[i]),
    ensures
        edge.0 == reach_x(cells@, cells@.len() as int),
        edge.1 == reach_y(cells@, cells@.len() as int),
{
    let mut width: i32 = 0;
    let mut height: i32 = 0;
    let mut i: usize = 0;
    while i < cells.len()
        invariant
            i <= cells@.len(),
            forall|j: int| 0 <= j < cells@.len() ==> edges_fit(#[trigger] cells@[j]),
            width == reach_x(cells@, i as int),
            height == reach_y(cells@, i as int),
        decreases cells.len() - i,
    {
        let rect = cells[i];
        proof {
            assert(edges_fit(cells@[i as int]));
        }
        let x = rect.x + rect.width;
        let y = rect.y + rect.height;
        if x > width {
            width = x;
        }
        if y > height {
            height = y;
        }
        i = i + 1;
    }
    (width, height)
}

/// The far edge is at least every run's own far edge, and one of them
/// (or zero).
pub proof fn law_the_extent_reaches_every_run(rects: Seq<CellRect>, k: int)
    requires
        0 <= k <= rects.len(),
    ensures
        reach_x(rects, k) >= 0,
        reach_y(rects, k) >= 0,
        forall|i: int| 0 <= i < k ==> reach_x(rects, k) >= (#[trigger] rects[i]).x + rects[i].width,
        forall|i: int| 0 <= i < k ==> reach_y(rects, k) >= (#[trigger] rects[i]).y + rects[i].height,
        reach_x(rects, k) == 0 || exists|i: int| 0 <= i < k && reach_x(rects, k) == (#[trigger] rects[i]).x
            + rects[i].width,
        reach_y(rects, k) == 0 || exists|i: int| 0 <= i < k && reach_y(rects, k) == (#[trigger] rects[i]).y
            + rects[i].height,
    decreases k,
{
    if k > 0 {
        law_the_extent_reaches_every_run(rects, k - 1);
    }
}

/// A run that fits among others shares no cell with any of them, and
/// every cell it covers is inside the grid.
pub proof fn law_a_fitting_run_covers_only_free_cells(
    occupied: Seq<CellRect>,
    candidate: CellRect,
    cols: int,
    rows: int,
    cell: GridPos,
)
    requires
        fits_among(occupied, candidate, cols, rows),
        covers(candidate, cell),
    ensures
        0 <= cell.x < cols,
        0 <= cell.y < rows,
        forall|i: int| 0 <= i < occupied.len() ==> !covers(#[trigger] occupied[i], cell),
{
    assert forall|i: int| 0 <= i < occupied.len() implies !covers(#[trigger] occupied[i], cell) by {
        assert(!overlaps(occupied[i], candidate));
    }
}

/// Where a socketed part comes from: the store — a stack of one is
/// taken, a larger stack gives one up — or a row of the component
/// storage, which gives one up.
#[derive(Clone, Copy, Debug, PartialEq, Eq, Structural)]
pub enum PartSource {
    Store(StoredItemId),
    Reagent(ReagentIndex),
}

impl PartSource {
    /// The document the part leaves.
    pub fn doc(self) -> (doc: crate::documents::Doc)
        ensures
            doc == match self {
                PartSource::Store(_) => crate::documents::Doc::Store,
                PartSource::Reagent(_) => crate::documents::Doc::Reagents,
            },
    {
        match self {
            PartSource::Store(_) => crate::documents::Doc::Store,
            PartSource::Reagent(_) => crate::documents::Doc::Reagents,
        }
    }
}

} // verus!
