//! The end of a frame's drag-and-drop: a drag the panes began is
//! adopted only when none is in flight, double-clicks and right-clicks
//! act only then too, and on release the drag commits where it fits or
//! snaps back, saying why where the user needs to know; and while a
//! drag hovers a grid, whether it would fit at the cell under it.

use vstd::prelude::*;
use crate::drag::{
    CellRect, DragSource, DropTarget, Fit, Footprint, FootprintSource, GridPos, ItemIndex, Move, TabIndex, cells_at,
    fit_at, fits_among, plan, planned,
};
use crate::shell::Mode;

verus! {

/// An item of a stash tab's grid as the drop preview sees it.
#[derive(Clone, Copy, Debug, PartialEq, Eq, Structural)]
pub struct GridEntry {
    pub index: ItemIndex,
    pub cells: CellRect,
    pub footprint: FootprintSource,
}

/// The item of `tab` a drag has lifted out of the way: its own, when it
/// was lifted from that very tab and is being moved; none when it is
/// copied or comes from elsewhere.
pub open spec fn lifted_index(source: DragSource, mode: Mode, tab: TabIndex) -> Option<ItemIndex> {
    match (source, mode) {
        (DragSource::Stash { tab: from, index }, Mode::Move) => if from == tab {
            Some(index)
        } else {
            None
        },
        _ => None,
    }
}

/// The item of `tab` a drag has lifted out of the way (see
/// [`lifted_index`]).
pub fn lifted(source: DragSource, mode: Mode, tab: TabIndex) -> (index: Option<ItemIndex>)
    ensures
        index == lifted_index(source, mode, tab),
{
    match (source, mode) {
        (DragSource::Stash { tab: from, index }, Mode::Move) => if from == tab {
            Some(index)
        } else {
            None
        },
        _ => None,
    }
}

/// The entries other than the lifted one, in order.
pub open spec fn others(entries: Seq<GridEntry>, lifted: Option<ItemIndex>) -> Seq<GridEntry>
    decreases entries.len(),
{
    if entries.len() == 0 {
        Seq::empty()
    } else {
        let before = others(entries.drop_last(), lifted);
        if lifted == Some(entries.last().index) {
            before
        } else {
            before.push(entries.last())
        }
    }
}

/// The cells the entries cover.
pub open spec fn entry_cells(entries: Seq<GridEntry>) -> Seq<CellRect> {
    entries.map_values(|entry: GridEntry| entry.cells)
}

/// Whether every entry's footprint is known.
pub open spec fn all_known(entries: Seq<GridEntry>) -> bool {
    forall|i: int| 0 <= i < entries.len() ==> (#[trigger] entries[i]).footprint == FootprintSource::Known
}

/// The preview's verdict for a drag from `source` with `footprint`,
/// hovering `cell` of `tab` (a `cols` × `rows` grid holding `entries`):
/// the lifted item is out of the way; a grid where any other item's
/// footprint is unknown takes nothing; otherwise the footprint fits
/// inside the grid clear of every other item, or is blocked.
pub open spec fn preview(
    entries: Seq<GridEntry>,
    source: DragSource,
    mode: Mode,
    tab: TabIndex,
    footprint: Footprint,
    cell: GridPos,
    cols: int,
    rows: int,
) -> Fit {
    let rest = others(entries, lifted_index(source, mode, tab));
    if !all_known(rest) {
        Fit::Unresolvable
    } else if fits_among(entry_cells(rest), cells_at(cell, footprint), cols, rows) {
        Fit::Fits
    } else {
        Fit::Blocked
    }
}

/// The preview's verdict for a drag hovering a cell of a tab (see
/// [`preview`]).
pub fn preview_fit(
    entries: &Vec<GridEntry>,
    source: DragSource,
    mode: Mode,
    tab: TabIndex,
    footprint: Footprint,
    cell: GridPos,
    cols: i32,
    rows: i32,
) -> (fit: Fit)
    ensures
        fit == preview(entries@, source, mode, tab, footprint, cell, cols as int, rows as int),
{
    let out_of_the_way = lifted(source, mode, tab);
    let ghost rest = others(entries@, out_of_the_way);
    let mut kept: Vec<GridEntry> = Vec::new();
    let mut occupied: Vec<CellRect> = Vec::new();
    let mut resolvable = true;
    let mut k: usize = 0;
    while k < entries.len()
        invariant
            k <= entries@.len(),
            kept@ == others(entries@.take(k as int), out_of_the_way),
            occupied@ == entry_cells(kept@),
            resolvable == all_known(kept@),
        decreases entries.len() - k,
    {
        proof {
            assert(entries@.take(k as int + 1).drop_last() == entries@.take(k as int));
        }
        let entry = entries[k];
        let is_lifted = match out_of_the_way {
            Some(index) => index == entry.index,
            None => false,
        };
        if !is_lifted {
            let ghost before = kept@;
            kept.push(entry);
            occupied.push(entry.cells);
            proof {
                assert(occupied@ == entry_cells(kept@));
                if resolvable && entry.footprint == FootprintSource::Known {
                    assert forall|i: int| 0 <= i < kept@.len() implies (#[trigger] kept@[i]).footprint
                        == FootprintSource::Known by {
                        if i < before.len() {
                            assert(kept@[i] == before[i]);
                        }
                    }
                }
                if !resolvable {
                    let w = choose|i: int| 0 <= i < before.len() && (#[trigger] before[i]).footprint
                        != FootprintSource::Known;
                    assert(kept@[w] == before[w]);
                }
                if entry.footprint != FootprintSource::Known {
                    assert(kept@[kept@.len() - 1] == entry);
                }
            }
            resolvable = resolvable && entry.footprint == FootprintSource::Known;
        }
        k = k + 1;
    }
    proof {
        assert(entries@.take(entries@.len() as int) == entries@);
    }
    fit_at(&occupied, resolvable, footprint, cell, cols, rows)
}

/// Why a drop snapped back.
#[derive(Clone, Copy, Debug, PartialEq, Eq, Structural)]
pub enum Notice {
    /// The cell under the pointer is taken or too close to the edge.
    NoRoom,
    /// The grid holds an item whose footprint is unknown.
    UnknownFootprints,
    /// Only components and crafting materials go in the storage.
    OnlyReagents,
}

/// What a notice tells the user.
pub open spec fn notice_text(notice: Notice) -> Seq<char> {
    match notice {
        Notice::NoRoom => "no room at that cell; snapped back"@,
        Notice::UnknownFootprints => "that grid holds items with unknown footprints; nothing can be placed there"@,
        Notice::OnlyReagents => "only components and crafting materials go in the storage; snapped back"@,
    }
}

impl Notice {
    /// What the notice tells the user.
    pub fn text(self) -> (text: &'static str)
        ensures
            text@ == notice_text(self),
    {
        match self {
            Notice::NoRoom => {
                proof {
                    reveal_strlit("no room at that cell; snapped back");
                }
                "no room at that cell; snapped back"
            },
            Notice::UnknownFootprints => {
                proof {
                    reveal_strlit("that grid holds items with unknown footprints; nothing can be placed there");
                }
                "that grid holds items with unknown footprints; nothing can be placed there"
            },
            Notice::OnlyReagents => {
                proof {
                    reveal_strlit("only components and crafting materials go in the storage; snapped back");
                }
                "only components and crafting materials go in the storage; snapped back"
            },
        }
    }
}

/// What releasing a drag does.
#[derive(Clone, Copy, Debug, PartialEq, Eq, Structural)]
pub enum Release {
    /// The drop lands: the move it plans, in the mode the modifiers chose.
    Perform { mv: Move, mode: Mode },
    /// The drag snaps back with an informational toast.
    Info(Notice),
    /// The drag snaps back with an error toast.
    Error(Notice),
    /// The drag snaps back silently.
    Nothing,
}

/// What releasing a drag from `source` over `target`, where the
/// footprint `fit`s as given, does: a fit performs the move; a blocked
/// cell says there is no room; a cell of a grid with unknown footprints
/// is an error; a refused drop on the storage explains what goes there,
/// unless the drag came from the storage itself; a refused drop on a
/// tab's header or on the store snaps back silently.
pub open spec fn released(source: DragSource, target: DropTarget, fit: Fit, mode: Mode) -> Release {
    match (target, fit) {
        (_, Fit::Fits) => Release::Perform { mv: planned(source, target), mode },
        (DropTarget::StashCell { .. }, Fit::Blocked) => Release::Info(Notice::NoRoom),
        (DropTarget::StashCell { .. }, Fit::Unresolvable) => Release::Error(Notice::UnknownFootprints),
        (DropTarget::Reagents(_), _) => match source {
            DragSource::Reagent { .. } => Release::Nothing,
            _ => Release::Info(Notice::OnlyReagents),
        },
        (_, _) => Release::Nothing,
    }
}

/// What releasing a drag from `source` over `target` does (see
/// [`released`]).
pub fn on_release(source: DragSource, target: DropTarget, fit: Fit, mode: Mode) -> (release: Release)
    ensures
        release == released(source, target, fit, mode),
{
    match (target, fit) {
        (_, Fit::Fits) => Release::Perform { mv: plan(source, target), mode },
        (DropTarget::StashCell { .. }, Fit::Blocked) => Release::Info(Notice::NoRoom),
        (DropTarget::StashCell { .. }, Fit::Unresolvable) => Release::Error(Notice::UnknownFootprints),
        (DropTarget::Reagents(_), _) => match source {
            DragSource::Reagent { .. } => Release::Nothing,
            _ => Release::Info(Notice::OnlyReagents),
        },
        (_, _) => Release::Nothing,
    }
}

/// A drop that does not fit changes nothing: no move is performed, and
/// the drag snaps back.
pub proof fn law_a_drop_that_does_not_fit_changes_nothing(source: DragSource, target: DropTarget, fit: Fit, mode: Mode)
    requires
        fit != Fit::Fits,
    ensures
        !(released(source, target, fit, mode) is Perform),
{
}

/// The drag held after the panes report one begun this frame: the one
/// in flight stays; only when none is does the new one start.
pub fn adopt(in_flight: Option<DragSource>, begun: Option<DragSource>) -> (next: Option<DragSource>)
    ensures
        next == (if in_flight is Some {
            in_flight
        } else {
            begun
        }),
{
    match in_flight {
        Some(_) => in_flight,
        None => begun,
    }
}

/// A drop target under the pointer, and whether the dragged footprint
/// fits there.
#[derive(Clone, Copy, Debug, PartialEq, Eq, Structural)]
pub struct Candidate {
    pub target: DropTarget,
    pub fit: Fit,
}

/// What the panes reported this frame about drags and clicks.
#[derive(Clone, Copy, Debug, PartialEq, Eq, Structural)]
pub struct Gestures {
    /// The item double-clicked, if any.
    pub double_click: Option<DragSource>,
    /// The item right-clicked, if any.
    pub right_click: Option<DragSource>,
    /// A drag begun this frame, if any.
    pub begun: Option<DragSource>,
    /// Whether the pointer was released this frame.
    pub released: bool,
    /// The drop target under the pointer, if any.
    pub candidate: Option<Candidate>,
}

/// What the frame's end does with the gestures.
#[derive(Clone, Copy, Debug, PartialEq, Eq, Structural)]
pub struct FrameEnd {
    /// The double-click to act on: only while no drag is in flight.
    pub double_click: Option<DragSource>,
    /// The right-click to act on: only while no drag is in flight.
    pub right_click: Option<DragSource>,
    /// What the release does, when a drag was released over a target.
    pub release: Option<Release>,
    /// The drag in flight after this frame.
    pub drag: Option<DragSource>,
}

/// The frame's end as a function of the drag in flight and the
/// gestures: clicks act only with no drag in flight; a begun drag is
/// adopted only then; a held drag released over a target commits or
/// snaps back as [`released`] says, and a release always ends it.
pub open spec fn frame_end(in_flight: Option<DragSource>, gestures: Gestures, mode: Mode) -> FrameEnd {
    let idle = in_flight is None;
    let held = if idle {
        gestures.begun
    } else {
        in_flight
    };
    FrameEnd {
        double_click: if idle {
            gestures.double_click
        } else {
            None
        },
        right_click: if idle {
            gestures.right_click
        } else {
            None
        },
        release: match (held, gestures.candidate) {
            (Some(source), Some(candidate)) => if gestures.released {
                Some(released(source, candidate.target, candidate.fit, mode))
            } else {
                None
            },
            _ => None,
        },
        drag: if gestures.released {
            None
        } else {
            held
        },
    }
}

/// The frame's end (see [`frame_end`]); `mode` is what the modifiers
/// held at release ask for.
pub fn finish_frame(in_flight: Option<DragSource>, gestures: Gestures, mode: Mode) -> (end: FrameEnd)
    ensures
        end == frame_end(in_flight, gestures, mode),
        in_flight is Some ==> end.double_click is None && end.right_click is None,
        in_flight is Some && !gestures.released ==> end.drag == in_flight,
        gestures.released ==> end.drag is None,
{
    let idle = in_flight.is_none();
    let double_click = if idle {
        gestures.double_click
    } else {
        None
    };
    let right_click = if idle {
        gestures.right_click
    } else {
        None
    };
    let held = adopt(in_flight, gestures.begun);
    let release = match (held, gestures.candidate) {
        (Some(source), Some(candidate)) => if gestures.released {
            Some(on_release(source, candidate.target, candidate.fit, mode))
        } else {
            None
        },
        _ => None,
    };
    let drag = if gestures.released {
        None
    } else {
        held
    };
    FrameEnd { double_click, right_click, release, drag }
}

} // verus!
