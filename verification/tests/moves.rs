use grimvault::documents::{CharacterSlot, Doc};
use grimvault::drag::{
    cells_of, extent, fit_at, fit_in_reagents, fits, footprint_or_unit, occupant_at, plan, plan_double_click,
    CellRect, DragSource, DropTarget, Fit, Footprint, FootprintSource, GridPos, ItemIndex, Move, PartSource,
    ReagentIndex, ReagentKind, StoredItemId, TabIndex,
};
use grimvault::panes::{
    container_name, drag_count, sack_dims, settle_clear, tab_label, Answer, BulkOp, BulkRequest, CharacterTab,
    CharacterView, Confirm, Confirmation, Container, PendingClear, SackIndex, StashView, Showing,
};
use grimvault::shell::Mode;

const TAB0: TabIndex = TabIndex(0);
const TAB1: TabIndex = TabIndex(1);
const FIRST: ItemIndex = ItemIndex(0);
const ROW0: ReagentIndex = ReagentIndex(0);

fn at(x: i32, y: i32) -> GridPos {
    GridPos { x, y }
}

fn rect(x: i32, y: i32, width: i32, height: i32) -> CellRect {
    CellRect { x, y, width, height }
}

fn footprint(width: i32, height: i32) -> Footprint {
    Footprint { width, height }
}

#[test]
fn plans_follow_the_source_and_target() {
    let from_stash = DragSource::Stash { tab: TAB0, index: FIRST };
    let from_store = DragSource::Store(StoredItemId::new(4));
    assert_eq!(plan(from_stash, DropTarget::Store), Move::Vault { tab: TAB0, index: FIRST });
    assert_eq!(
        plan(from_stash, DropTarget::StashCell { tab: TAB1, cell: at(2, 3) }),
        Move::RearrangeAt { from: TAB0, index: FIRST, to: TAB1, cell: at(2, 3) }
    );
    assert_eq!(plan(from_stash, DropTarget::StashTab(TAB0)), Move::Stay);
    assert_eq!(
        plan(from_stash, DropTarget::StashTab(TAB1)),
        Move::RearrangeFirstFit { from: TAB0, index: FIRST, to: TAB1 }
    );
    assert_eq!(
        plan(from_store, DropTarget::StashCell { tab: TAB0, cell: at(1, 1) }),
        Move::PlaceAt { id: StoredItemId::new(4), tab: TAB0, cell: at(1, 1) }
    );
    assert_eq!(
        plan(from_store, DropTarget::StashTab(TAB1)),
        Move::PlaceFirstFit { id: StoredItemId::new(4), tab: TAB1 }
    );
    assert_eq!(plan(from_store, DropTarget::Store), Move::Stay);
    assert_eq!(
        plan_double_click(from_store, TAB1),
        Move::PlaceFirstFit { id: StoredItemId::new(4), tab: TAB1 }
    );
    assert_eq!(plan_double_click(from_stash, TAB1), Move::Vault { tab: TAB0, index: FIRST });
}

#[test]
fn plans_involving_the_storage_cover_every_pairing() {
    let from_stash = DragSource::Stash { tab: TAB0, index: FIRST };
    let from_store = DragSource::Store(StoredItemId::new(4));
    let from_row = DragSource::Reagent { index: ROW0, count: 5 };
    for kind in [ReagentKind::Component, ReagentKind::CraftingMaterial] {
        assert_eq!(
            plan(from_stash, DropTarget::Reagents(kind)),
            Move::StashReagent { tab: TAB0, index: FIRST }
        );
        assert_eq!(
            plan(from_store, DropTarget::Reagents(kind)),
            Move::StoreReagent { id: StoredItemId::new(4) }
        );
        assert_eq!(plan(from_row, DropTarget::Reagents(kind)), Move::Stay);
    }
    assert_eq!(plan(from_row, DropTarget::Store), Move::VaultReagent { index: ROW0, count: 5 });
    assert_eq!(
        plan(from_row, DropTarget::StashCell { tab: TAB1, cell: at(2, 3) }),
        Move::ReagentToStashAt { index: ROW0, count: 5, tab: TAB1, cell: at(2, 3) }
    );
    assert_eq!(
        plan(from_row, DropTarget::StashTab(TAB1)),
        Move::ReagentToStashFirstFit { index: ROW0, count: 5, tab: TAB1 }
    );
    assert_eq!(plan_double_click(from_row, TAB1), Move::VaultReagent { index: ROW0, count: 5 });
}

#[test]
fn fit_previews_bounds_overlap_and_unresolvable_tabs() {
    let occupied = vec![rect(0, 0, 2, 3)];
    let cluster = footprint(1, 2);
    assert_eq!(fit_at(&occupied, true, cluster, at(2, 0), 10, 19), Fit::Fits);
    assert_eq!(fit_at(&occupied, true, cluster, at(1, 2), 10, 19), Fit::Blocked);
    assert_eq!(fit_at(&occupied, true, cluster, at(9, 18), 10, 19), Fit::Blocked);
    assert_eq!(fit_at(&occupied, false, cluster, at(5, 5), 10, 19), Fit::Unresolvable);
}

#[test]
fn a_footprint_fits_only_inside_the_grid_and_clear_of_every_occupant() {
    let occupied = vec![rect(0, 0, 2, 3), rect(5, 5, 1, 1)];
    assert!(fits(&occupied, rect(2, 0, 1, 2), 10, 19));
    assert!(fits(&occupied, rect(9, 17, 1, 2), 10, 19));
    assert!(!fits(&occupied, rect(-1, 0, 1, 1), 10, 19));
    assert!(!fits(&occupied, rect(5, 4, 1, 2), 10, 19));
    assert!(!fits(&occupied, rect(9, 0, 2, 1), 10, 19));
    assert!(fits(&Vec::new(), rect(0, 0, 10, 19), 10, 19));
}

#[test]
fn storage_tabs_accept_storable_records_only() {
    let from_stash = DragSource::Stash { tab: TAB0, index: FIRST };
    let from_store = DragSource::Store(StoredItemId::new(4));
    let from_row = DragSource::Reagent { index: ROW0, count: 1 };
    assert_eq!(fit_in_reagents(from_stash, Some(ReagentKind::Component)), Fit::Fits);
    assert_eq!(fit_in_reagents(from_store, Some(ReagentKind::CraftingMaterial)), Fit::Fits);
    assert_eq!(fit_in_reagents(from_stash, None), Fit::Blocked);
    assert_eq!(fit_in_reagents(from_store, None), Fit::Blocked);
    assert_eq!(fit_in_reagents(from_row, Some(ReagentKind::Component)), Fit::Blocked);
}

#[test]
fn occupants_are_found_by_covered_cell() {
    let occupants = vec![cells_of(at(1, 6), footprint(1, 2)), cells_of(at(3, 0), footprint(2, 3))];
    assert_eq!(occupant_at(&occupants, at(1, 7)), Some(0));
    assert_eq!(occupant_at(&occupants, at(4, 2)), Some(1));
    assert_eq!(occupant_at(&occupants, at(1, 8)), None);
    assert_eq!(occupant_at(&occupants, at(5, 0)), None);
}

#[test]
fn unknown_footprints_paint_as_a_marked_unit() {
    assert_eq!(footprint_or_unit(None), (footprint(1, 1), FootprintSource::Assumed));
    assert_eq!(footprint_or_unit(Some(footprint(2, 4))), (footprint(2, 4), FootprintSource::Known));
}

#[test]
fn extent_is_the_far_edge_of_the_entries() {
    let cells = vec![rect(1, 6, 1, 2), rect(10, 0, 2, 3)];
    assert_eq!(extent(&cells), (12, 8));
    assert_eq!(extent(&Vec::new()), (0, 0));
}

#[test]
fn sacks_keep_their_fixed_size_unless_the_items_reach_past_it() {
    let inside = vec![rect(11, 7, 1, 1)];
    assert_eq!(sack_dims(12, 8, &inside), (12, 8));
    assert_eq!(sack_dims(12, 5, &inside), (12, 8));
    assert_eq!(sack_dims(12, 8, &Vec::new()), (12, 8));
    let past = vec![rect(11, 7, 2, 3)];
    assert_eq!(sack_dims(12, 8, &past), (13, 10));
}

#[test]
fn only_a_confirmed_clear_becomes_a_request() {
    let pending = PendingClear { container: Container::TransferStash(TabIndex::new(2)), count: 5 };
    assert_eq!(settle_clear(Answer::Waiting, pending), (Confirmation::Pending, None));
    assert_eq!(settle_clear(Answer::Cancelled, pending), (Confirmation::Settled, None));
    assert_eq!(
        settle_clear(Answer::Confirmed, pending),
        (
            Confirmation::Settled,
            Some(BulkRequest { container: Container::TransferStash(TabIndex::new(2)), op: BulkOp::Clear })
        )
    );
}

#[test]
fn bulk_ops_name_themselves_for_the_toasts() {
    assert_eq!(BulkOp::Transfer(Mode::Move).describe(), "move all");
    assert_eq!(BulkOp::Transfer(Mode::Copy).done(), "copied");
    assert_eq!(BulkOp::Clear.done(), "deleted");
}

#[test]
fn a_drag_takes_the_whole_entry_unless_a_smaller_amount_is_set() {
    assert_eq!(drag_count(15, 0), 15);
    assert_eq!(drag_count(15, 4), 4);
    assert_eq!(drag_count(15, 15), 15);
    assert_eq!(drag_count(15, 40), 15);
}

#[test]
fn the_confirmation_names_the_container_after_the_character() {
    let zark = CharacterSlot::new(1);
    assert_eq!(
        container_name(Container::CharacterStash { character: zark, tab: TabIndex::new(1) }, "Zark"),
        "Zark's stash 2"
    );
    assert_eq!(
        container_name(Container::Sack { character: zark, sack: SackIndex::new(0) }, "Zark"),
        "Zark's sack 1"
    );
    assert_eq!(container_name(Container::TransferStash(TabIndex::new(0)), "Zark"), "transfer stash tab 1");
}

#[test]
fn picking_another_character_drops_a_pending_confirmation() {
    let mut view = CharacterView::opening_on(Some(CharacterSlot::new(2)));
    assert_eq!(view.selected, 2);
    view.confirm = Some(Confirm::Clear(PendingClear {
        container: Container::CharacterStash { character: CharacterSlot::new(2), tab: TabIndex::new(0) },
        count: 3,
    }));
    let fresh = CharacterView::opening_on(Some(CharacterSlot::new(0)));
    assert_eq!(fresh.confirm, None);
    assert_ne!(view.confirm, fresh.confirm);
}

#[test]
fn a_fresh_character_view_opens_on_the_first_sack() {
    let view = CharacterView::default();
    assert_eq!(view.selected, 0);
    assert_eq!(view.tab, CharacterTab::Sack(0));
    assert_eq!(view.selection(), (0, CharacterTab::Sack(0)));
}

#[test]
fn containers_live_in_their_documents() {
    let zark = CharacterSlot::new(1);
    assert_eq!(Container::TransferStash(TAB1).doc(), Doc::Stash);
    assert_eq!(Container::Sack { character: zark, sack: SackIndex::new(2) }.doc(), Doc::Character(zark));
    assert_eq!(PartSource::Store(StoredItemId::new(1)).doc(), Doc::Store);
    assert_eq!(PartSource::Reagent(ROW0).doc(), Doc::Reagents);
}

#[test]
fn stash_tabs_are_named_and_counted() {
    assert_eq!(tab_label(0, "", 3), "Tab 1 (3)");
    assert_eq!(tab_label(4, "Loot", 12), "Loot (12)");
    let view = StashView::default();
    assert_eq!(view.tab, TAB0);
    assert_eq!(view.showing, Showing::Stash);
    assert_eq!(view.reagent_amount, 0);
}

#[test]
fn affix_columns_and_resets_explain_themselves() {
    assert_eq!(grimvault::panes::position_label(grimvault::panes::Position::Prefix), "Prefixes");
    assert_eq!(grimvault::panes::position_label(grimvault::panes::Position::Suffix), "Suffixes");
    assert!(grimvault::panes::reset_explanation(grimvault::panes::Reset::Masteries).starts_with("Removes both masteries"));
    assert!(grimvault::panes::reset_explanation(grimvault::panes::Reset::Attributes).contains("physique, cunning, and spirit"));
}
