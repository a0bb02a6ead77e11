//! Batch mode: a work item is decoded whole, and executed afterwards.

use vstd::prelude::*;
use crate::bounded::MAX_OPERATIONS;
use crate::error::Error;
use crate::matrix::{MatrixBuf, MatrixView};
use crate::op::{Operation, PieceOfWork, PieceView};
use crate::wire::{
    step_view, Action, Event, MatrixProgress, MatrixProgressView, OperationProgress,
    OperationProgressView, Step,
};

verus! {

/// What a partly decoded work item, `{"lhs": .., "op": [..]}`, holds. From
/// `KeyOp` on there is the left-hand matrix; from `OpElement` on there are
/// the operations decoded so far.
pub enum PieceDecodingView {
    ObjectStart,
    KeyLhs,
    Lhs(MatrixProgressView),
    KeyOp(MatrixView),
    OpArrayStart(MatrixView),
    OpElement(PieceView),
    Op(PieceView, OperationProgressView),
    OpArrayEnd(PieceView),
    ObjectEnd(PieceView),
}

impl PieceDecodingView {
    /// Nothing of the work item has been read.
    pub open spec fn start() -> PieceDecodingView {
        PieceDecodingView::ObjectStart
    }

    /// The call that is wanted at this position.
    pub open spec fn wants(self) -> Action {
        match self {
            PieceDecodingView::ObjectStart => Action::BeginObject,
            PieceDecodingView::KeyLhs => Action::NextName,
            PieceDecodingView::Lhs(lhs) => lhs.wants(),
            PieceDecodingView::KeyOp(_) => Action::NextName,
            PieceDecodingView::OpArrayStart(_) => Action::BeginArray,
            PieceDecodingView::OpElement(_) => Action::HasNext,
            PieceDecodingView::Op(_, op) => op.wants(),
            PieceDecodingView::OpArrayEnd(_) => Action::EndArray,
            PieceDecodingView::ObjectEnd(_) => Action::EndObject,
        }
    }

    /// Where the decoding of a work item stands after `event`. The first key
    /// must be `"lhs"`, bound to a matrix; the second must be `"op"`, bound
    /// to an array of at most 5 operations.
    pub open spec fn after(self, event: Event) -> Result<Step<PieceDecodingView, PieceView>, Error> {
        if !event.answers(self.wants()) {
            Err(event.refusal())
        } else {
            match self {
                PieceDecodingView::ObjectStart => Ok(Step::Pending(PieceDecodingView::KeyLhs)),
                PieceDecodingView::KeyLhs => if event.names("lhs"@) {
                    Ok(Step::Pending(PieceDecodingView::Lhs(MatrixProgressView::start())))
                } else {
                    Err(Error::ProtocolError)
                },
                PieceDecodingView::Lhs(lhs) => match lhs.after(event) {
                    Ok(Step::Pending(p)) => Ok(Step::Pending(PieceDecodingView::Lhs(p))),
                    Ok(Step::Done(m)) => Ok(Step::Pending(PieceDecodingView::KeyOp(m))),
                    Err(e) => Err(e),
                },
                PieceDecodingView::KeyOp(lhs) => if event.names("op"@) {
                    Ok(Step::Pending(PieceDecodingView::OpArrayStart(lhs)))
                } else {
                    Err(Error::ProtocolError)
                },
                PieceDecodingView::OpArrayStart(lhs) => Ok(
                    Step::Pending(PieceDecodingView::OpElement(PieceView::new(lhs))),
                ),
                PieceDecodingView::OpElement(piece) => if !event->More_0 {
                    Ok(Step::Pending(PieceDecodingView::OpArrayEnd(piece)))
                } else if piece.op.len() >= 5 {
                    Err(Error::CapacityExceeded)
                } else {
                    Ok(
                        Step::Pending(
                            PieceDecodingView::Op(piece, OperationProgressView::start()),
                        ),
                    )
                },
                PieceDecodingView::Op(piece, op) => match op.after(event) {
                    Ok(Step::Pending(p)) => Ok(Step::Pending(PieceDecodingView::Op(piece, p))),
                    Ok(Step::Done(done)) => match piece.pushed(done) {
                        Ok(grown) => Ok(Step::Pending(PieceDecodingView::OpElement(grown))),
                        Err(e) => Err(e),
                    },
                    Err(e) => Err(e),
                },
                PieceDecodingView::OpArrayEnd(piece) => Ok(
                    Step::Pending(PieceDecodingView::ObjectEnd(piece)),
                ),
                PieceDecodingView::ObjectEnd(piece) => Ok(Step::Done(piece)),
            }
        }
    }
}

/// A work item that is being decoded.
#[derive(Debug)]
pub enum PieceDecoding {
    ObjectStart,
    KeyLhs,
    Lhs(MatrixProgress),
    KeyOp(MatrixBuf),
    OpArrayStart(MatrixBuf),
    OpElement(PieceOfWork),
    Op(PieceOfWork, OperationProgress),
    OpArrayEnd(PieceOfWork),
    ObjectEnd(PieceOfWork),
}

impl View for PieceDecoding {
    type V = PieceDecodingView;

    open spec fn view(&self) -> PieceDecodingView {
        match self {
            PieceDecoding::ObjectStart => PieceDecodingView::ObjectStart,
            PieceDecoding::KeyLhs => PieceDecodingView::KeyLhs,
            PieceDecoding::Lhs(lhs) => PieceDecodingView::Lhs(lhs@),
            PieceDecoding::KeyOp(lhs) => PieceDecodingView::KeyOp(lhs@),
            PieceDecoding::OpArrayStart(lhs) => PieceDecodingView::OpArrayStart(lhs@),
            PieceDecoding::OpElement(piece) => PieceDecodingView::OpElement(piece@),
            PieceDecoding::Op(piece, op) => PieceDecodingView::Op(piece@, op@),
            PieceDecoding::OpArrayEnd(piece) => PieceDecodingView::OpArrayEnd(piece@),
            PieceDecoding::ObjectEnd(piece) => PieceDecodingView::ObjectEnd(piece@),
        }
    }
}

impl PieceDecoding {
    /// The decoding of a work item of which nothing has been read.
    pub fn start() -> (p: PieceDecoding)
        ensures
            p@ == PieceDecodingView::start(),
    {
        PieceDecoding::ObjectStart
    }

    /// The call that the decoder wants next.
    pub fn wants(&self) -> (a: Action)
        ensures
            a == self@.wants(),
    {
        match self {
            PieceDecoding::ObjectStart => Action::BeginObject,
            PieceDecoding::KeyLhs => Action::NextName,
            PieceDecoding::Lhs(lhs) => lhs.wants(),
            PieceDecoding::KeyOp(_) => Action::NextName,
            PieceDecoding::OpArrayStart(_) => Action::BeginArray,
            PieceDecoding::OpElement(_) => Action::HasNext,
            PieceDecoding::Op(_, op) => op.wants(),
            PieceDecoding::OpArrayEnd(_) => Action::EndArray,
            PieceDecoding::ObjectEnd(_) => Action::EndObject,
        }
    }
}

impl PieceOfWork {
    /// Takes the decoding of a work item one event further.
    pub fn deserialize(progress: PieceDecoding, event: Event) -> (r: Result<
        Step<PieceDecoding, PieceOfWork>,
        Error,
    >)
        ensures
            step_view(r) == progress@.after(event),
    {
        match progress {
            PieceDecoding::ObjectStart => match event {
                Event::Ack => Ok(Step::Pending(PieceDecoding::KeyLhs)),
                _ => Err(event.refuse()),
            },
            PieceDecoding::KeyLhs => match event {
                Event::Name(_) => if event.is_name("lhs") {
                    Ok(Step::Pending(PieceDecoding::Lhs(MatrixProgress::start())))
                } else {
                    Err(Error::ProtocolError)
                },
                _ => Err(event.refuse()),
            },
            PieceDecoding::Lhs(lhs) => match MatrixBuf::deserialize(lhs, event) {
                Ok(Step::Pending(p)) => Ok(Step::Pending(PieceDecoding::Lhs(p))),
                Ok(Step::Done(m)) => Ok(Step::Pending(PieceDecoding::KeyOp(m))),
                Err(e) => Err(e),
            },
            PieceDecoding::KeyOp(lhs) => match event {
                Event::Name(_) => if event.is_name("op") {
                    Ok(Step::Pending(PieceDecoding::OpArrayStart(lhs)))
                } else {
                    Err(Error::ProtocolError)
                },
                _ => Err(event.refuse()),
            },
            PieceDecoding::OpArrayStart(lhs) => match event {
                Event::Ack => Ok(Step::Pending(PieceDecoding::OpElement(PieceOfWork::new(lhs)))),
                _ => Err(event.refuse()),
            },
            PieceDecoding::OpElement(piece) => match event {
                Event::More(false) => Ok(Step::Pending(PieceDecoding::OpArrayEnd(piece))),
                Event::More(true) => if piece.len() >= MAX_OPERATIONS {
                    Err(Error::CapacityExceeded)
                } else {
                    Ok(Step::Pending(PieceDecoding::Op(piece, OperationProgress::start())))
                },
                _ => Err(event.refuse()),
            },
            PieceDecoding::Op(piece, op) => match Operation::deserialize(op, event) {
                Ok(Step::Pending(p)) => Ok(Step::Pending(PieceDecoding::Op(piece, p))),
                Ok(Step::Done(done)) => {
                    let mut piece = piece;
                    match piece.push(done) {
                        Ok(()) => Ok(Step::Pending(PieceDecoding::OpElement(piece))),
                        Err(e) => Err(e),
                    }
                },
                Err(e) => Err(e),
            },
            PieceDecoding::OpArrayEnd(piece) => match event {
                Event::Ack => Ok(Step::Pending(PieceDecoding::ObjectEnd(piece))),
                _ => Err(event.refuse()),
            },
            PieceDecoding::ObjectEnd(piece) => match event {
                Event::Ack => Ok(Step::Done(piece)),
                _ => Err(event.refuse()),
            },
        }
    }
}

} // verus!
