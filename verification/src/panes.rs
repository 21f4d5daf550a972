//! What the panes decide without painting: the game-side containers a
//! bulk operation names, how a confirmation settles, what a character
//! view opens on, how many of a storage row a drag carries, how large
//! a sack is drawn, and the labels the headers and buttons carry.

use vstd::prelude::*;
use crate::documents::{CharacterSlot, Doc, doc_label};
use crate::drag::{CellRect, ItemIndex, ReagentKind, TabIndex, edges_fit, extent, reach_x, reach_y};
use crate::shell::Mode;
use crate::text::{decimal, decimal_text, join2};

verus! {

/// A sack of a character's inventory, counting from zero.
#[derive(Clone, Copy, Debug, PartialEq, Eq, Structural)]
pub struct SackIndex(pub usize);

impl SackIndex {
    pub fn new(value: usize) -> (sack: SackIndex)
        ensures
            sack.0 == value,
    {
        SackIndex(value)
    }

    pub fn value(self) -> (value: usize)
        ensures
            value == self.0,
    {
        self.0
    }
}

/// A game-side container of items.
#[derive(Clone, Copy, Debug, PartialEq, Eq, Structural)]
pub enum Container {
    /// A tab of the transfer stash.
    TransferStash(TabIndex),
    /// A sack of a character's inventory.
    Sack { character: CharacterSlot, sack: SackIndex },
    /// A tab of a character's personal stash.
    CharacterStash { character: CharacterSlot, tab: TabIndex },
}

/// The document a container lives in.
pub open spec fn container_doc(container: Container) -> Doc {
    match container {
        Container::TransferStash(_) => Doc::Stash,
        Container::Sack { character, .. } => Doc::Character(character),
        Container::CharacterStash { character, .. } => Doc::Character(character),
    }
}

impl Container {
    /// The document this container lives in.
    pub fn doc(self) -> (doc: Doc)
        ensures
            doc == container_doc(self),
    {
        match self {
            Container::TransferStash(_) => Doc::Stash,
            Container::Sack { character, .. } => Doc::Character(character),
            Container::CharacterStash { character, .. } => Doc::Character(character),
        }
    }
}

/// A container as a confirmation names it, after the character `name`.
pub open spec fn container_title(container: Container, name: Seq<char>) -> Seq<char> {
    match container {
        Container::TransferStash(tab) => "transfer stash tab "@ + decimal(tab.0 as nat + 1),
        Container::Sack { sack, .. } => name + "'s sack "@ + decimal(sack.0 as nat + 1),
        Container::CharacterStash { tab, .. } => name + "'s stash "@ + decimal(tab.0 as nat + 1),
    }
}

/// The position a container counts from one at.
pub open spec fn container_position(container: Container) -> nat {
    match container {
        Container::TransferStash(tab) => tab.0 as nat,
        Container::Sack { sack, .. } => sack.0 as nat,
        Container::CharacterStash { tab, .. } => tab.0 as nat,
    }
}

/// A container as the confirmation names it: tabs and sacks count from
/// one.
pub fn container_name(container: Container, name: &str) -> (text: String)
    requires
        container_position(container) < u64::MAX,
    ensures
        text@ == container_title(container, name@),
{
    match container {
        Container::TransferStash(tab) => {
            let n = decimal_text(tab.value() as u64 + 1);
            join2("transfer stash tab ", n.as_str())
        },
        Container::Sack { sack, .. } => {
            let n = decimal_text(sack.value() as u64 + 1);
            join2(name, "'s sack ").concat(n.as_str())
        },
        Container::CharacterStash { tab, .. } => {
            let n = decimal_text(tab.value() as u64 + 1);
            join2(name, "'s stash ").concat(n.as_str())
        },
    }
}

/// What a container's header buttons ask for: every item into the
/// store — moved or copied — or the container emptied, which touches
/// no store.
#[derive(Clone, Copy, Debug, PartialEq, Eq, Structural)]
pub enum BulkOp {
    Transfer(Mode),
    Clear,
}

impl BulkOp {
    /// The verb as a toast reports it done.
    pub fn done(self) -> (text: &'static str)
        ensures
            text@ == match self {
                BulkOp::Transfer(Mode::Move) => "moved"@,
                BulkOp::Transfer(Mode::Copy) => "copied"@,
                BulkOp::Clear => "deleted"@,
            },
    {
        match self {
            BulkOp::Transfer(Mode::Move) => "moved",
            BulkOp::Transfer(Mode::Copy) => "copied",
            BulkOp::Clear => "deleted",
        }
    }

    /// The operation as a toast names it.
    pub fn describe(self) -> (text: &'static str)
        ensures
            text@ == match self {
                BulkOp::Transfer(Mode::Move) => "move all"@,
                BulkOp::Transfer(Mode::Copy) => "copy all"@,
                BulkOp::Clear => "delete all"@,
            },
    {
        match self {
            BulkOp::Transfer(Mode::Move) => "move all",
            BulkOp::Transfer(Mode::Copy) => "copy all",
            BulkOp::Clear => "delete all",
        }
    }
}

/// A bulk operation on one game-side container.
#[derive(Clone, Copy, Debug, PartialEq, Eq, Structural)]
pub struct BulkRequest {
    pub container: Container,
    pub op: BulkOp,
}

/// A "Delete all" awaiting the user's confirmation: the container and
/// how many items it held when asked.
#[derive(Clone, Copy, Debug, PartialEq, Eq, Structural)]
pub struct PendingClear {
    pub container: Container,
    pub count: usize,
}

/// Whether a confirmation is still up after this frame.
#[derive(Clone, Copy, Debug, PartialEq, Eq, Structural)]
pub enum Confirmation {
    Pending,
    Settled,
}

/// What the user did to a confirmation this frame.
#[derive(Clone, Copy, Debug, PartialEq, Eq, Structural)]
pub enum Answer {
    Confirmed,
    Cancelled,
    Waiting,
}

/// Whether a confirmation stays up and what it reports.
pub open spec fn settlement(answer: Answer, pending: PendingClear) -> (Confirmation, Option<BulkRequest>) {
    match answer {
        Answer::Confirmed => (
            Confirmation::Settled,
            Some(BulkRequest { container: pending.container, op: BulkOp::Clear }),
        ),
        Answer::Cancelled => (Confirmation::Settled, None),
        Answer::Waiting => (Confirmation::Pending, None),
    }
}

/// Whether the confirmation stays up and what it reports: only a
/// confirmed clear becomes a request, for the container it was asked
/// about.
pub fn settle_clear(answer: Answer, pending: PendingClear) -> (settled: (Confirmation, Option<BulkRequest>))
    ensures
        settled == settlement(answer, pending),
{
    match answer {
        Answer::Confirmed => (
            Confirmation::Settled,
            Some(BulkRequest { container: pending.container, op: BulkOp::Clear }),
        ),
        Answer::Cancelled => (Confirmation::Settled, None),
        Answer::Waiting => (Confirmation::Pending, None),
    }
}

/// Only a confirmed clear is reported, as a clear of the container
/// asked about; a confirmation stays up exactly while the user has not
/// answered.
pub proof fn law_only_a_confirmed_clear_is_reported(answer: Answer, pending: PendingClear)
    ensures
        settlement(answer, pending).1 is Some <==> answer == Answer::Confirmed,
        settlement(answer, pending).0 == Confirmation::Pending <==> answer == Answer::Waiting,
        settlement(answer, pending).1 matches Some(request) ==> request.op == BulkOp::Clear
            && request.container == pending.container,
{
}

/// How a grid takes part in drag-and-drop.
#[derive(Clone, Copy, Debug, PartialEq, Eq, Structural)]
pub enum Interaction {
    /// A writable container: a drag source and a drop target.
    Editable(Container),
    /// Hover and tooltips only.
    ReadOnly,
}

/// What the pointer did over a grid this frame, each position already
/// resolved to the entry (by its place in the grid's list) whose cells
/// cover it.
#[derive(Clone, Copy, Debug, PartialEq, Eq, Structural)]
pub struct GridPointer {
    /// A drag started this frame.
    pub drag_started: bool,
    /// The entry under the point where the press began.
    pub pressed: Option<usize>,
    pub double_clicked: bool,
    pub right_clicked: bool,
    pub clicked: bool,
    /// The entry under the hovering pointer.
    pub hovered: Option<usize>,
    /// The entry under the pointer that clicked.
    pub pointed: Option<usize>,
}

/// What a grid reports of its entries this frame, for the container it
/// shows: the item a drag lifts, and the items double-clicked,
/// right-clicked and clicked (selected), by their index in the
/// container.
#[derive(Clone, Copy, Debug, PartialEq, Eq, Structural)]
pub struct GridGestures {
    pub container: Container,
    pub begin: Option<ItemIndex>,
    pub double_click: Option<ItemIndex>,
    pub right_click: Option<ItemIndex>,
    pub select: Option<ItemIndex>,
}

/// The entry at `slot`, when the gesture happened, no drag is in
/// flight, and there is an entry there.
pub open spec fn picked(happened: bool, idle: bool, slot: Option<usize>, entries: Seq<ItemIndex>) -> Option<
    ItemIndex,
> {
    match slot {
        Some(k) => if happened && idle {
            Some(entries[k as int])
        } else {
            None
        },
        None => None,
    }
}

/// What a grid reports: nothing for a read-only grid, which only shows
/// tooltips; for an editable one, each gesture over an entry while no
/// drag is in flight — a started drag only when no other grid began one
/// this frame, on the entry where the press began.
pub open spec fn grid_gestures(
    interaction: Interaction,
    entries: Seq<ItemIndex>,
    pointer: GridPointer,
    in_flight: bool,
    begun_elsewhere: bool,
) -> Option<GridGestures> {
    match interaction {
        Interaction::ReadOnly => None,
        Interaction::Editable(container) => Some(
            GridGestures {
                container,
                begin: picked(pointer.drag_started && !begun_elsewhere, !in_flight, pointer.pressed, entries),
                double_click: picked(pointer.double_clicked, !in_flight, pointer.hovered, entries),
                right_click: picked(pointer.right_clicked, !in_flight, pointer.pointed, entries),
                select: picked(pointer.clicked, !in_flight, pointer.pointed, entries),
            },
        ),
    }
}

fn pick(happened: bool, idle: bool, slot: Option<usize>, entries: &Vec<ItemIndex>) -> (index: Option<ItemIndex>)
    requires
        slot matches Some(k) ==> k < entries@.len(),
    ensures
        index == picked(happened, idle, slot, entries@),
{
    match slot {
        Some(k) => if happened && idle {
            Some(entries[k])
        } else {
            None
        },
        None => None,
    }
}

/// What a grid reports of the pointer this frame (see
/// [`grid_gestures`]); `entries` are the items' indices in the order the
/// grid lists them, `in_flight` whether a drag is under way, and
/// `begun_elsewhere` whether another grid already began one this frame.
pub fn report_gestures(
    interaction: Interaction,
    entries: &Vec<ItemIndex>,
    pointer: GridPointer,
    in_flight: bool,
    begun_elsewhere: bool,
) -> (gestures: Option<GridGestures>)
    requires
        pointer.pressed matches Some(k) ==> k < entries@.len(),
        pointer.hovered matches Some(k) ==> k < entries@.len(),
        pointer.pointed matches Some(k) ==> k < entries@.len(),
    ensures
        gestures == grid_gestures(interaction, entries@, pointer, in_flight, begun_elsewhere),
        in_flight ==> (gestures matches Some(g) ==> g.begin is None && g.double_click is None
            && g.right_click is None && g.select is None),
{
    match interaction {
        Interaction::ReadOnly => None,
        Interaction::Editable(container) => Some(
            GridGestures {
                container,
                begin: pick(pointer.drag_started && !begun_elsewhere, !in_flight, pointer.pressed, entries),
                double_click: pick(pointer.double_clicked, !in_flight, pointer.hovered, entries),
                right_click: pick(pointer.right_clicked, !in_flight, pointer.pointed, entries),
                select: pick(pointer.clicked, !in_flight, pointer.pointed, entries),
            },
        ),
    }
}

/// How many of an entry a drag from the storage carries: the whole
/// entry unless `amount` is set and smaller.
pub fn drag_count(entry_count: u32, amount: u32) -> (count: u32)
    ensures
        count == if amount == 0 || amount > entry_count { entry_count } else { amount },
        count <= entry_count,
{
    if amount == 0 || amount > entry_count {
        entry_count
    } else {
        amount
    }
}

/// A fixed size as a cell count: zero when it is no `i32`.
pub open spec fn as_cells(n: u32) -> int {
    if n <= i32::MAX {
        n as int
    } else {
        0
    }
}

/// The larger of two counts.
pub open spec fn larger(a: int, b: int) -> int {
    if a >= b {
        a
    } else {
        b
    }
}

/// The rendered size of a sack: its fixed size `cols` × `rows`, grown
/// to the items' far edges rather than clipped.
pub fn sack_dims(cols: u32, rows: u32, cells: &Vec<CellRect>) -> (dims: (i32, i32))
    requires
        forall|i: int| 0 <= i < cells@.len() ==> edges_fit(#[trigger] cells@[i]),
    ensures
        dims.0 == larger(as_cells(cols), reach_x(cells@, cells@.len() as int)),
        dims.1 == larger(as_cells(rows), reach_y(cells@, cells@.len() as int)),
{
    let fixed_cols: i32 = if cols <= 0x7fff_ffff {
        cols as i32
    } else {
        0
    };
    let fixed_rows: i32 = if rows <= 0x7fff_ffff {
        rows as i32
    } else {
        0
    };
    let (used_cols, used_rows) = extent(cells);
    proof {
        crate::drag::law_the_extent_reaches_every_run(cells@, cells@.len() as int);
    }
    let width = if fixed_cols >= used_cols {
        fixed_cols
    } else {
        used_cols
    };
    let height = if fixed_rows >= used_rows {
        fixed_rows
    } else {
        used_rows
    };
    (width, height)
}

/// Which of a character's containers is showing.
#[derive(Clone, Copy, Debug, PartialEq, Eq, Structural)]
pub enum CharacterTab {
    Sack(usize),
    Equipped,
    Stash(usize),
}

/// A reset of a character's points.
#[derive(Clone, Copy, Debug, PartialEq, Eq, Structural)]
pub enum Reset {
    Attributes,
    Masteries,
}

/// What each reset does, for its button and its confirmation.
pub fn reset_explanation(reset: Reset) -> (text: &'static str)
    ensures
        text@ == match reset {
            Reset::Attributes => "Returns every spent attribute point to the pool and puts physique, cunning, and \
             spirit — with the health and energy they bought — back to their base values."@,
            Reset::Masteries => "Removes both masteries and every skill in them, returning the points, so both \
             masteries can be chosen again in-game. Devotions and item skills stay."@,
        },
{
    match reset {
        Reset::Attributes => "Returns every spent attribute point to the pool and puts physique, cunning, and \
             spirit — with the health and energy they bought — back to their base values.",
        Reset::Masteries => "Removes both masteries and every skill in them, returning the points, so both \
             masteries can be chosen again in-game. Devotions and item skills stay.",
    }
}

/// An edit awaiting the user's confirmation: a reset of the
/// character, or the emptying of one of its stash tabs.
#[derive(Clone, Copy, Debug, PartialEq, Eq, Structural)]
pub enum Confirm {
    Reset(Reset),
    Clear(PendingClear),
}

/// The picker's choice, the container tab, and the edit awaiting the
/// user's confirmation, if any.
#[derive(Clone, Copy, Debug, PartialEq, Eq, Structural)]
pub struct CharacterView {
    pub selected: usize,
    pub tab: CharacterTab,
    pub confirm: Option<Confirm>,
}

impl CharacterView {
    /// A fresh view with the picker on `slot` — the character the game
    /// wrote last — or on the first entry when there is none: the first
    /// sack showing, nothing awaiting confirmation.
    pub fn opening_on(slot: Option<CharacterSlot>) -> (view: CharacterView)
        ensures
            view == (CharacterView {
                selected: match slot {
                    Some(s) => s.0,
                    None => 0,
                },
                tab: CharacterTab::Sack(0),
                confirm: None,
            }),
    {
        let selected = match slot {
            Some(s) => s.value(),
            None => 0,
        };
        CharacterView { selected, tab: CharacterTab::Sack(0), confirm: None }
    }

    /// What the strip's selected tab is: the tab, under the character
    /// showing it.
    pub fn selection(self) -> (selection: (usize, CharacterTab))
        ensures
            selection == (self.selected, self.tab),
    {
        (self.selected, self.tab)
    }
}

impl Default for CharacterView {
    fn default() -> (view: CharacterView)
        ensures
            view == (CharacterView { selected: 0, tab: CharacterTab::Sack(0), confirm: None }),
    {
        CharacterView::opening_on(None)
    }
}

/// Which surface the store pane shows.
#[derive(Clone, Copy, Debug, PartialEq, Eq, Structural)]
pub enum StoreMode {
    Buckets,
    Search,
}

impl Default for StoreMode {
    fn default() -> (mode: StoreMode)
        ensures
            mode == StoreMode::Buckets,
    {
        StoreMode::Buckets
    }
}

/// Which surface the stash pane shows.
#[derive(Clone, Copy, Debug, PartialEq, Eq, Structural)]
pub enum Showing {
    Stash,
    Reagents(ReagentKind),
}

/// The stash pane's selection: the surface showing, the stash tab last
/// chosen, and how many a storage drag carries (0 for the whole
/// entry).
#[derive(Clone, Copy, Debug, PartialEq, Eq, Structural)]
pub struct StashView {
    pub tab: TabIndex,
    pub showing: Showing,
    pub reagent_amount: u32,
}

impl Default for StashView {
    fn default() -> (view: StashView)
        ensures
            view == (StashView { tab: TabIndex(0), showing: Showing::Stash, reagent_amount: 0 }),
    {
        StashView { tab: TabIndex::new(0), showing: Showing::Stash, reagent_amount: 0 }
    }
}

/// A stash tab's button: its own name, or "Tab n" counting from one,
/// and how many items it holds.
pub open spec fn stash_tab_text(slot: nat, button_name: Seq<char>, items: nat) -> Seq<char> {
    let name = if button_name.len() == 0 {
        "Tab "@ + decimal(slot + 1)
    } else {
        button_name
    };
    name + " ("@ + decimal(items) + ")"@
}

/// A stash tab's button label.
pub fn tab_label(slot: usize, button_name: &str, items: usize) -> (text: String)
    requires
        slot < u64::MAX,
    ensures
        text@ == stash_tab_text(slot as nat, button_name@, items as nat),
{
    let name = if button_name.unicode_len() == 0 {
        let n = decimal_text(slot as u64 + 1);
        join2("Tab ", n.as_str())
    } else {
        String::from_str(button_name)
    };
    let count = decimal_text(items as u64);
    name.concat(" (").concat(count.as_str()).concat(")")
}

/// Which end of an item's name an affix takes.
#[derive(Clone, Copy, Debug, PartialEq, Eq, Structural)]
pub enum Position {
    Prefix,
    Suffix,
}

/// The heading of the affix reference's column for a position.
pub fn position_label(position: Position) -> (text: &'static str)
    ensures
        text@ == match position {
            Position::Prefix => "Prefixes"@,
            Position::Suffix => "Suffixes"@,
        },
{
    match position {
        Position::Prefix => "Prefixes",
        Position::Suffix => "Suffixes",
    }
}

/// A document as the toasts and the conflict modal name it: a
/// character by its name when it has one (`name`), the rest by role.
pub open spec fn doc_title(doc: Doc, name: Option<Seq<char>>) -> Seq<char> {
    match doc {
        Doc::Character(_) => match name {
            Some(n) => "character "@ + n,
            None => doc_label(doc),
        },
        _ => doc_label(doc),
    }
}

/// A document as the toasts and the conflict modal name it.
pub fn doc_name(doc: Doc, name: Option<&str>) -> (text: String)
    requires
        doc matches Doc::Character(slot) ==> slot.0 < usize::MAX,
    ensures
        text@ == doc_title(
            doc,
            match name {
                Some(n) => Some(n@),
                None => None,
            },
        ),
{
    match (doc, name) {
        (Doc::Character(_), Some(n)) => join2("character ", n),
        _ => doc.label(),
    }
}

/// A container as the bulk toasts name it, its character by `name`.
pub open spec fn bulk_title(container: Container, name: Option<Seq<char>>) -> Seq<char> {
    match container {
        Container::TransferStash(tab) => "transfer stash tab "@ + decimal(tab.0 as nat + 1),
        Container::Sack { character, sack } => doc_title(Doc::Character(character), name) + " sack "@
            + decimal(sack.0 as nat + 1),
        Container::CharacterStash { character, tab } => doc_title(Doc::Character(character), name)
            + " stash tab "@ + decimal(tab.0 as nat + 1),
    }
}

/// A container as the bulk toasts name it.
pub fn container_label(container: Container, name: Option<&str>) -> (text: String)
    requires
        container_position(container) < u64::MAX,
        container matches Container::Sack { character, .. } ==> character.0 < usize::MAX,
        container matches Container::CharacterStash { character, .. } ==> character.0 < usize::MAX,
    ensures
        text@ == bulk_title(
            container,
            match name {
                Some(n) => Some(n@),
                None => None,
            },
        ),
{
    match container {
        Container::TransferStash(tab) => {
            let n = decimal_text(tab.value() as u64 + 1);
            join2("transfer stash tab ", n.as_str())
        },
        Container::Sack { character, sack } => {
            let n = decimal_text(sack.value() as u64 + 1);
            doc_name(Doc::Character(character), name).concat(" sack ").concat(n.as_str())
        },
        Container::CharacterStash { character, tab } => {
            let n = decimal_text(tab.value() as u64 + 1);
            doc_name(Doc::Character(character), name).concat(" stash tab ").concat(n.as_str())
        },
    }
}

} // verus!
