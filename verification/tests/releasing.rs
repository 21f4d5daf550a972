use grimvault::panes::{report_gestures, Container, GridGestures, GridPointer, Interaction};
use grimvault::drag::{
    CellRect, DragSource, DropTarget, Fit, Footprint, FootprintSource, GridPos, ItemIndex, Move, ReagentIndex,
    ReagentKind, StoredItemId, TabIndex,
};
use grimvault::release::{
    adopt, finish_frame, lifted, on_release, preview_fit, Candidate, GridEntry, Gestures, Notice, Release,
};
use grimvault::shell::Mode;

fn stash(tab: usize, index: usize) -> DragSource {
    DragSource::Stash { tab: TabIndex::new(tab), index: ItemIndex::new(index) }
}

fn cell(tab: usize, x: i32, y: i32) -> DropTarget {
    DropTarget::StashCell { tab: TabIndex::new(tab), cell: GridPos { x, y } }
}

fn entry(index: usize, x: i32, y: i32, width: i32, height: i32, footprint: FootprintSource) -> GridEntry {
    GridEntry { index: ItemIndex::new(index), cells: CellRect { x, y, width, height }, footprint }
}

fn no_gestures() -> Gestures {
    Gestures { double_click: None, right_click: None, begun: None, released: false, candidate: None }
}

#[test]
fn a_fitting_drop_performs_its_planned_move_in_the_chosen_mode() {
    assert_eq!(
        on_release(stash(0, 3), cell(1, 2, 4), Fit::Fits, Mode::Copy),
        Release::Perform {
            mv: Move::RearrangeAt {
                from: TabIndex::new(0),
                index: ItemIndex::new(3),
                to: TabIndex::new(1),
                cell: GridPos { x: 2, y: 4 },
            },
            mode: Mode::Copy,
        }
    );
    assert_eq!(
        on_release(stash(2, 0), DropTarget::Store, Fit::Fits, Mode::Move),
        Release::Perform { mv: Move::Vault { tab: TabIndex::new(2), index: ItemIndex::new(0) }, mode: Mode::Move }
    );
}

#[test]
fn a_refused_drop_snaps_back_saying_why_where_it_matters() {
    let store = DragSource::Store(StoredItemId::new(7));
    let row = DragSource::Reagent { index: ReagentIndex::new(1), count: 2 };
    assert_eq!(on_release(store, cell(0, 1, 1), Fit::Blocked, Mode::Move), Release::Info(Notice::NoRoom));
    assert_eq!(
        on_release(store, cell(0, 1, 1), Fit::Unresolvable, Mode::Move),
        Release::Error(Notice::UnknownFootprints)
    );
    let storage = DropTarget::Reagents(ReagentKind::Component);
    assert_eq!(on_release(store, storage, Fit::Blocked, Mode::Move), Release::Info(Notice::OnlyReagents));
    assert_eq!(on_release(stash(0, 0), storage, Fit::Unresolvable, Mode::Move), Release::Info(Notice::OnlyReagents));
    assert_eq!(on_release(row, storage, Fit::Blocked, Mode::Move), Release::Nothing);
    assert_eq!(on_release(store, DropTarget::StashTab(TabIndex::new(0)), Fit::Blocked, Mode::Move), Release::Nothing);
    assert_eq!(on_release(row, DropTarget::Store, Fit::Unresolvable, Mode::Move), Release::Nothing);
}

#[test]
fn notices_read_as_the_toasts_show_them() {
    assert_eq!(Notice::NoRoom.text(), "no room at that cell; snapped back");
    assert_eq!(
        Notice::UnknownFootprints.text(),
        "that grid holds items with unknown footprints; nothing can be placed there"
    );
    assert_eq!(
        Notice::OnlyReagents.text(),
        "only components and crafting materials go in the storage; snapped back"
    );
}

#[test]
fn a_drag_in_flight_is_kept_and_clicks_wait_for_it() {
    assert_eq!(adopt(Some(stash(0, 1)), Some(stash(0, 2))), Some(stash(0, 1)));
    assert_eq!(adopt(None, Some(stash(0, 2))), Some(stash(0, 2)));
    assert_eq!(adopt(None, None), None);

    let gestures = Gestures {
        double_click: Some(stash(0, 4)),
        right_click: Some(stash(0, 5)),
        begun: Some(stash(0, 6)),
        ..no_gestures()
    };
    let busy = finish_frame(Some(stash(1, 0)), gestures, Mode::Move);
    assert_eq!(busy.double_click, None);
    assert_eq!(busy.right_click, None);
    assert_eq!(busy.drag, Some(stash(1, 0)));
    assert_eq!(busy.release, None);

    let idle = finish_frame(None, gestures, Mode::Move);
    assert_eq!(idle.double_click, Some(stash(0, 4)));
    assert_eq!(idle.right_click, Some(stash(0, 5)));
    assert_eq!(idle.drag, Some(stash(0, 6)));
}

#[test]
fn a_release_ends_the_drag_and_commits_only_over_a_target() {
    let over = Gestures {
        released: true,
        candidate: Some(Candidate { target: cell(0, 3, 3), fit: Fit::Blocked }),
        ..no_gestures()
    };
    let end = finish_frame(Some(stash(0, 1)), over, Mode::Move);
    assert_eq!(end.release, Some(Release::Info(Notice::NoRoom)));
    assert_eq!(end.drag, None);

    let nowhere = Gestures { released: true, ..no_gestures() };
    let end = finish_frame(Some(stash(0, 1)), nowhere, Mode::Move);
    assert_eq!(end.release, None);
    assert_eq!(end.drag, None);
}

#[test]
fn the_preview_moves_the_lifted_item_out_of_the_way_only_when_moving_it() {
    assert_eq!(lifted(stash(2, 5), Mode::Move, TabIndex::new(2)), Some(ItemIndex::new(5)));
    assert_eq!(lifted(stash(2, 5), Mode::Copy, TabIndex::new(2)), None);
    assert_eq!(lifted(stash(1, 5), Mode::Move, TabIndex::new(2)), None);

    let entries = vec![
        entry(0, 0, 0, 2, 2, FootprintSource::Known),
        entry(1, 4, 0, 1, 1, FootprintSource::Known),
    ];
    let unit = Footprint { width: 1, height: 1 };
    let here = GridPos { x: 1, y: 1 };
    assert_eq!(preview_fit(&entries, stash(0, 0), Mode::Move, TabIndex::new(0), unit, here, 8, 8), Fit::Fits);
    assert_eq!(preview_fit(&entries, stash(0, 0), Mode::Copy, TabIndex::new(0), unit, here, 8, 8), Fit::Blocked);
    assert_eq!(
        preview_fit(&entries, stash(0, 0), Mode::Move, TabIndex::new(0), unit, GridPos { x: 8, y: 0 }, 8, 8),
        Fit::Blocked
    );
}

#[test]
fn the_preview_refuses_a_grid_with_an_unknown_footprint_unless_that_item_is_lifted() {
    let entries = vec![
        entry(0, 0, 0, 1, 1, FootprintSource::Assumed),
        entry(1, 4, 4, 1, 1, FootprintSource::Known),
    ];
    let unit = Footprint { width: 1, height: 1 };
    let far = GridPos { x: 6, y: 6 };
    let store = DragSource::Store(StoredItemId::new(1));
    assert_eq!(preview_fit(&entries, store, Mode::Move, TabIndex::new(0), unit, far, 8, 8), Fit::Unresolvable);
    assert_eq!(preview_fit(&entries, stash(0, 0), Mode::Move, TabIndex::new(0), unit, far, 8, 8), Fit::Fits);
}

#[test]
fn an_editable_grid_reports_gestures_over_its_items_only_with_no_drag_in_flight() {
    let tab = Container::TransferStash(TabIndex::new(0));
    let entries = vec![ItemIndex::new(4), ItemIndex::new(9)];
    let pointer = GridPointer {
        drag_started: true,
        pressed: Some(1),
        double_clicked: true,
        right_clicked: false,
        clicked: true,
        hovered: Some(0),
        pointed: Some(1),
    };
    assert_eq!(
        report_gestures(Interaction::Editable(tab), &entries, pointer, false, false),
        Some(GridGestures {
            container: tab,
            begin: Some(ItemIndex::new(9)),
            double_click: Some(ItemIndex::new(4)),
            right_click: None,
            select: Some(ItemIndex::new(9)),
        })
    );
    let elsewhere = report_gestures(Interaction::Editable(tab), &entries, pointer, false, true).unwrap();
    assert_eq!(elsewhere.begin, None);
    assert_eq!(elsewhere.select, Some(ItemIndex::new(9)));
    assert_eq!(
        report_gestures(Interaction::Editable(tab), &entries, pointer, true, false),
        Some(GridGestures { container: tab, begin: None, double_click: None, right_click: None, select: None })
    );
    assert_eq!(report_gestures(Interaction::ReadOnly, &entries, pointer, false, false), None);
}
