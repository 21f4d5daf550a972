//! What a bulk operation or a standing order leaves to be written:
//! the documents it marks edited and the one written first. A bulk
//! operation is refused while an external change awaits the user; an
//! operation that changed nothing, or failed, marks nothing; and
//! whenever the vault store takes items it is written before the file
//! they left, so an interrupted save loses no item.

use vstd::prelude::*;
use crate::autosave::Gate;
use crate::automove::{AutoMoveTarget, StandingOrder, target_doc};
use crate::documents::Doc;
use crate::panes::{BulkOp, BulkRequest, container_doc};
use crate::shell::Mode;

verus! {

/// How an operation went, as far as the files are concerned.
#[derive(Clone, Copy, Debug, PartialEq, Eq, Structural)]
pub enum Outcome {
    /// Items moved, were copied, or were deleted.
    Changed,
    /// There was nothing to do (an empty tab, only duplicates).
    Unchanged,
    /// The operation failed and was rolled back.
    Failed,
}

/// The documents an operation marks edited, and the one the write
/// order promotes to go first.
#[derive(Clone, Debug, PartialEq, Eq)]
pub struct Touched {
    pub marked: Vec<Doc>,
    pub first: Option<Doc>,
}

/// What a bulk operation asks of the shell.
#[derive(Clone, Debug, PartialEq, Eq)]
pub enum BulkEffect {
    /// Refused: an external change awaits the user's decision; `error`
    /// is the toast that says so.
    Refused { error: &'static str },
    /// Done, touching these documents.
    Done(Touched),
}

/// The documents a bulk request marks edited and the one written first:
/// a transfer that took items marks the store — and, for a move, the
/// container's document — and writes the store first; a clear that
/// deleted items marks the container's document and writes it first;
/// nothing else marks anything.
pub open spec fn bulk_touched(request: BulkRequest, outcome: Outcome) -> (Seq<Doc>, Option<Doc>) {
    let doc = container_doc(request.container);
    if outcome != Outcome::Changed {
        (Seq::empty(), None)
    } else {
        match request.op {
            BulkOp::Transfer(Mode::Move) => (seq![Doc::Store, doc], Some(Doc::Store)),
            BulkOp::Transfer(Mode::Copy) => (seq![Doc::Store], Some(Doc::Store)),
            BulkOp::Clear => (seq![doc], Some(doc)),
        }
    }
}

/// The error toast a bulk request refused under a pending external
/// change shows.
pub open spec fn bulk_refusal() -> Seq<char> {
    "decide the pending external change before a bulk operation"@
}

/// What a bulk request asks of the shell (see [`bulk_touched`]),
/// refused outright, with an error toast, while `gate` is suspended.
pub fn bulk_effect(gate: Gate, request: BulkRequest, outcome: Outcome) -> (effect: BulkEffect)
    ensures
        gate == Gate::Suspended ==> (effect matches BulkEffect::Refused { error } && error@ == bulk_refusal()),
        gate == Gate::Open ==> (effect matches BulkEffect::Done(touched) && (touched.marked@, touched.first)
            == bulk_touched(request, outcome)),
{
    if gate == Gate::Suspended {
        proof {
            reveal_strlit("decide the pending external change before a bulk operation");
        }
        return BulkEffect::Refused { error: "decide the pending external change before a bulk operation" };
    }
    let doc = request.container.doc();
    if outcome != Outcome::Changed {
        return BulkEffect::Done(Touched { marked: Vec::new(), first: None });
    }
    let touched = match request.op {
        BulkOp::Transfer(Mode::Move) => Touched { marked: vec![Doc::Store, doc], first: Some(Doc::Store) },
        BulkOp::Transfer(Mode::Copy) => Touched { marked: vec![Doc::Store], first: Some(Doc::Store) },
        BulkOp::Clear => Touched { marked: vec![doc], first: Some(doc) },
    };
    proof {
        assert(touched.marked@ =~= bulk_touched(request, outcome).0);
    }
    BulkEffect::Done(touched)
}

/// The documents a standing order marks edited and the one written
/// first: an auto-move that took items marks the store and the tab's
/// document and writes the store first; a purge that deleted items
/// marks the tab's document only, since the store is only read.
pub open spec fn order_touched(order: StandingOrder, target: AutoMoveTarget, outcome: Outcome) -> (
    Seq<Doc>,
    Option<Doc>,
) {
    if outcome != Outcome::Changed {
        (Seq::empty(), None)
    } else {
        match order {
            StandingOrder::AutoMove => (seq![Doc::Store, target_doc(target)], Some(Doc::Store)),
            StandingOrder::PurgeDuplicates => (seq![target_doc(target)], None),
        }
    }
}

/// What carrying out a standing order on a tab leaves to be written
/// (see [`order_touched`]).
pub fn order_effect(order: StandingOrder, target: AutoMoveTarget, outcome: Outcome) -> (touched: Touched)
    ensures
        (touched.marked@, touched.first) == order_touched(order, target, outcome),
{
    if outcome != Outcome::Changed {
        return Touched { marked: Vec::new(), first: None };
    }
    let doc = target.doc();
    let touched = match order {
        StandingOrder::AutoMove => Touched { marked: vec![Doc::Store, doc], first: Some(Doc::Store) },
        StandingOrder::PurgeDuplicates => Touched { marked: vec![doc], first: None },
    };
    proof {
        assert(touched.marked@ =~= order_touched(order, target, outcome).0);
    }
    touched
}

/// Whenever an operation leaves the store to be written, the store is
/// written first; and an operation that changed nothing leaves nothing
/// to write.
pub proof fn law_the_store_is_written_first(
    request: BulkRequest,
    order: StandingOrder,
    target: AutoMoveTarget,
    outcome: Outcome,
)
    ensures
        bulk_touched(request, outcome).0.contains(Doc::Store) ==> bulk_touched(request, outcome).1 == Some(
            Doc::Store,
        ),
        order_touched(order, target, outcome).0.contains(Doc::Store) ==> order_touched(order, target, outcome).1
            == Some(Doc::Store),
        outcome != Outcome::Changed ==> bulk_touched(request, outcome).0.len() == 0 && order_touched(
            order,
            target,
            outcome,
        ).0.len() == 0,
{
    let doc = container_doc(request.container);
    if outcome == Outcome::Changed && request.op == BulkOp::Clear && doc != Doc::Store {
        assert(bulk_touched(request, outcome).0 == seq![doc]);
        assert(seq![doc][0] == doc);
        assert(!seq![doc].contains(Doc::Store));
    }
    if outcome == Outcome::Changed && order == StandingOrder::PurgeDuplicates {
        let d = target_doc(target);
        assert(d != Doc::Store);
        assert(!seq![d].contains(Doc::Store));
    }
}

} // verus!
