//! What holds of the decoder at every position and for every event.

use vstd::prelude::*;
use crate::error::Error;
use crate::matrix::MatrixView;
use crate::op::OperationView;
use crate::streaming::PieceProgressView;
use crate::wire::{Event, MatrixProgressView, MatrixStage, OperationProgressView, Step};

verus! {

/// A failure of the reader ends the decoding of a matrix with the reader's
/// own error, wherever the decoding stands.
pub proof fn lemma_matrix_reader_failure(p: MatrixProgressView, e: Error)
    ensures
        p.after(Event::Failed(e)) == Err::<Step<MatrixProgressView, MatrixView>, Error>(e),
{
}

/// The field order of a matrix is fixed: where the key `"d"` is due, every
/// other key is a `ProtocolError`, and so where the key `"n"` is due.
pub proof fn lemma_matrix_field_order(p: MatrixProgressView, event: Event)
    requires
        event is Name,
    ensures
        p.stage == MatrixStage::KeyD && !event.names("d"@) ==> p.after(event) == Err::<
            Step<MatrixProgressView, MatrixView>,
            Error,
        >(Error::ProtocolError),
        p.stage == MatrixStage::KeyN && !event.names("n"@) ==> p.after(event) == Err::<
            Step<MatrixProgressView, MatrixView>,
            Error,
        >(Error::ProtocolError),
{
}

/// The field order of an operation is fixed: where the key `"code"` is due,
/// every other key is a `ProtocolError`, and so where the key `"rhs"` is due.
pub proof fn lemma_operation_field_order(p: OperationProgressView, event: Event)
    requires
        event is Name,
    ensures
        p is KeyCode && !event.names("code"@) ==> p.after(event) == Err::<
            Step<OperationProgressView, OperationView>,
            Error,
        >(Error::ProtocolError),
        p is KeyRhs && !event.names("rhs"@) ==> p.after(event) == Err::<
            Step<OperationProgressView, OperationView>,
            Error,
        >(Error::ProtocolError),
{
}

/// The field order of a work item is fixed: where the key `"lhs"` is due,
/// every other key is a `ProtocolError`, and so where the key `"op"` is due.
pub proof fn lemma_piece_field_order(p: PieceProgressView, event: Event)
    requires
        event is Name,
    ensures
        p is KeyLhs && !event.names("lhs"@) ==> p.after(event) == Err::<
            Step<PieceProgressView, MatrixView>,
            Error,
        >(Error::ProtocolError),
        p is KeyOp && !event.names("op"@) ==> p.after(event) == Err::<
            Step<PieceProgressView, MatrixView>,
            Error,
        >(Error::ProtocolError),
{
}

/// An element is never dropped: where an element is due, a number is
/// appended to the elements read so far while fewer than 36 were read, and
/// is a `CapacityExceeded` from the 37th on.
pub proof fn lemma_matrix_capacity(p: MatrixProgressView, x: u64)
    requires
        p.stage == MatrixStage::Element,
    ensures
        p.d.len() < 36 ==> p.after(Event::Number(x)) == Ok::<
            Step<MatrixProgressView, MatrixView>,
            Error,
        >(Step::Pending(MatrixProgressView { stage: MatrixStage::HasNext, d: p.d.push(x), n: p.n })),
        p.d.len() >= 36 ==> p.after(Event::Number(x)) == Err::<
            Step<MatrixProgressView, MatrixView>,
            Error,
        >(Error::CapacityExceeded),
{
}

/// An operation is never dropped: between two operations, the answer that
/// another one follows begins its decoding while fewer than 5 were met, and
/// is a `CapacityExceeded` from the 6th on.
pub proof fn lemma_operation_capacity(running: MatrixView, count: nat)
    ensures
        count < 5 ==> (PieceProgressView::OpElement { running, count }).after(Event::More(true))
            == Ok::<Step<PieceProgressView, MatrixView>, Error>(
            Step::Pending(
                PieceProgressView::Op {
                    running,
                    count: count + 1,
                    op: OperationProgressView::start(),
                },
            ),
        ),
        count >= 5 ==> (PieceProgressView::OpElement { running, count }).after(Event::More(true))
            == Err::<Step<PieceProgressView, MatrixView>, Error>(Error::CapacityExceeded),
{
}

/// The decoding of a matrix keeps its elements within the capacity, and
/// what it completes is a well-formed matrix.
pub proof fn lemma_matrix_progress_wf(p: MatrixProgressView, event: Event)
    requires
        p.wf(),
    ensures
        p.after(event) matches Ok(Step::Pending(q)) ==> q.wf(),
        p.after(event) matches Ok(Step::Done(m)) ==> m.wf(),
{
}

} // verus!
