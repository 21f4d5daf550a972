use grimvault::automove::{AutoMoveTarget, StandingOrder};
use grimvault::autosave::Gate;
use grimvault::documents::{CharacterSlot, Doc};
use grimvault::drag::TabIndex;
use grimvault::panes::{BulkOp, BulkRequest, Container, SackIndex};
use grimvault::shell::Mode;
use grimvault::touched::{bulk_effect, order_effect, BulkEffect, Outcome, Touched};

fn sack() -> Container {
    Container::Sack { character: CharacterSlot::new(1), sack: SackIndex::new(2) }
}

#[test]
fn a_bulk_operation_waits_for_the_pending_external_change() {
    let request = BulkRequest { container: sack(), op: BulkOp::Clear };
    assert_eq!(
        bulk_effect(Gate::Suspended, request, Outcome::Changed),
        BulkEffect::Refused { error: "decide the pending external change before a bulk operation" }
    );
}

#[test]
fn a_bulk_move_marks_both_files_and_writes_the_store_first() {
    let character = Doc::Character(CharacterSlot::new(1));
    let moved = BulkRequest { container: sack(), op: BulkOp::Transfer(Mode::Move) };
    assert_eq!(
        bulk_effect(Gate::Open, moved, Outcome::Changed),
        BulkEffect::Done(Touched { marked: vec![Doc::Store, character], first: Some(Doc::Store) })
    );
    let copied = BulkRequest { container: Container::TransferStash(TabIndex::new(0)), op: BulkOp::Transfer(Mode::Copy) };
    assert_eq!(
        bulk_effect(Gate::Open, copied, Outcome::Changed),
        BulkEffect::Done(Touched { marked: vec![Doc::Store], first: Some(Doc::Store) })
    );
    let cleared = BulkRequest { container: sack(), op: BulkOp::Clear };
    assert_eq!(
        bulk_effect(Gate::Open, cleared, Outcome::Changed),
        BulkEffect::Done(Touched { marked: vec![character], first: Some(character) })
    );
    for outcome in [Outcome::Unchanged, Outcome::Failed] {
        assert_eq!(
            bulk_effect(Gate::Open, moved, outcome),
            BulkEffect::Done(Touched { marked: vec![], first: None })
        );
    }
}

#[test]
fn an_auto_move_writes_the_store_first_and_a_purge_leaves_it_alone() {
    let tab = AutoMoveTarget::TransferStash(TabIndex::new(3));
    assert_eq!(
        order_effect(StandingOrder::AutoMove, tab, Outcome::Changed),
        Touched { marked: vec![Doc::Store, Doc::Stash], first: Some(Doc::Store) }
    );
    assert_eq!(
        order_effect(StandingOrder::PurgeDuplicates, tab, Outcome::Changed),
        Touched { marked: vec![Doc::Stash], first: None }
    );
    assert_eq!(
        order_effect(StandingOrder::AutoMove, tab, Outcome::Unchanged),
        Touched { marked: vec![], first: None }
    );
}
