//! Streaming mode: a work item is executed while it is read.
//!
//! The driver holds one running result. It starts as the left-hand matrix;
//! every operation is evaluated on it the moment its last event has come,
//! and its result takes its place. Nothing else of the work item is kept.

use vstd::prelude::*;
use crate::bounded::MAX_OPERATIONS;
use crate::error::Error;
use crate::matrix::{matrix_result, MatrixBuf, MatrixView};
use crate::op::{kernel_ready, Operation, OperationView, PieceOfWork};
use crate::wire::{
    step_view, Action, Event, MatrixProgress, MatrixProgressView, OperationProgress,
    OperationProgressView, Step,
};

verus! {

/// The states of the streaming driver.
#[derive(Clone, Copy, Debug, PartialEq, Eq, Structural)]
pub enum Phase {
    /// The left-hand matrix is still being decoded.
    AwaitingLhs,
    /// The running result is the left-hand matrix, and the operation array
    /// has not begun.
    AwaitingOpArrayStart,
    /// The operation array has begun: operations are decoded and evaluated
    /// one after the other.
    AwaitingOpElement,
}

/// What a partly processed work item, `{"lhs": .., "op": [..]}`, holds. From
/// `KeyOp` on there is a running result; from `OpElement` on there is the
/// number of operations met so far.
pub enum PieceProgressView {
    ObjectStart,
    KeyLhs,
    Lhs(MatrixProgressView),
    KeyOp(MatrixView),
    OpArrayStart(MatrixView),
    OpElement { running: MatrixView, count: nat },
    Op { running: MatrixView, count: nat, op: OperationProgressView },
    OpArrayEnd(MatrixView),
    ObjectEnd(MatrixView),
}

impl PieceProgressView {
    /// Nothing of the work item has been read.
    pub open spec fn start() -> PieceProgressView {
        PieceProgressView::ObjectStart
    }

    /// The state of the driver at this position.
    pub open spec fn phase(self) -> Phase {
        match self {
            PieceProgressView::ObjectStart | PieceProgressView::KeyLhs | PieceProgressView::Lhs(
                _,
            ) => Phase::AwaitingLhs,
            PieceProgressView::KeyOp(_) | PieceProgressView::OpArrayStart(_) =>
                Phase::AwaitingOpArrayStart,
            _ => Phase::AwaitingOpElement,
        }
    }

    /// The call that is wanted at this position.
    pub open spec fn wants(self) -> Action {
        match self {
            PieceProgressView::ObjectStart => Action::BeginObject,
            PieceProgressView::KeyLhs => Action::NextName,
            PieceProgressView::Lhs(lhs) => lhs.wants(),
            PieceProgressView::KeyOp(_) => Action::NextName,
            PieceProgressView::OpArrayStart(_) => Action::BeginArray,
            PieceProgressView::OpElement { .. } => Action::HasNext,
            PieceProgressView::Op { op, .. } => op.wants(),
            PieceProgressView::OpArrayEnd(_) => Action::EndArray,
            PieceProgressView::ObjectEnd(_) => Action::EndObject,
        }
    }

    /// The operation that `event` completes at this position, if it
    /// completes one.
    pub open spec fn completes(self, event: Event) -> Option<OperationView> {
        match self {
            PieceProgressView::Op { op, .. } => match op.after(event) {
                Ok(Step::Done(done)) => Some(done),
                _ => None,
            },
            _ => None,
        }
    }

    /// Where the work item stands after an event that completes no
    /// operation. The first key must be `"lhs"`, bound to a matrix; the
    /// second must be `"op"`, bound to an array of at most 5 operations.
    pub open spec fn after(self, event: Event) -> Result<Step<PieceProgressView, MatrixView>, Error>
        recommends
            self.completes(event) is None,
    {
        if !event.answers(self.wants()) {
            Err(event.refusal())
        } else {
            match self {
                PieceProgressView::ObjectStart => Ok(Step::Pending(PieceProgressView::KeyLhs)),
                PieceProgressView::KeyLhs => if event.names("lhs"@) {
                    Ok(Step::Pending(PieceProgressView::Lhs(MatrixProgressView::start())))
                } else {
                    Err(Error::ProtocolError)
                },
                PieceProgressView::Lhs(lhs) => match lhs.after(event) {
                    Ok(Step::Pending(p)) => Ok(Step::Pending(PieceProgressView::Lhs(p))),
                    Ok(Step::Done(m)) => Ok(Step::Pending(PieceProgressView::KeyOp(m))),
                    Err(e) => Err(e),
                },
                PieceProgressView::KeyOp(running) => if event.names("op"@) {
                    Ok(Step::Pending(PieceProgressView::OpArrayStart(running)))
                } else {
                    Err(Error::ProtocolError)
                },
                PieceProgressView::OpArrayStart(running) => Ok(
                    Step::Pending(PieceProgressView::OpElement { running, count: 0 }),
                ),
                PieceProgressView::OpElement { running, count } => if !event->More_0 {
                    Ok(Step::Pending(PieceProgressView::OpArrayEnd(running)))
                } else if count >= 5 {
                    Err(Error::CapacityExceeded)
                } else {
                    Ok(
                        Step::Pending(
                            PieceProgressView::Op {
                                running,
                                count: count + 1,
                                op: OperationProgressView::start(),
                            },
                        ),
                    )
                },
                PieceProgressView::Op { running, count, op } => match op.after(event) {
                    Ok(Step::Pending(p)) => Ok(
                        Step::Pending(PieceProgressView::Op { running, count, op: p }),
                    ),
                    Ok(Step::Done(_)) => Err(Error::ProtocolError),
                    Err(e) => Err(e),
                },
                PieceProgressView::OpArrayEnd(running) => Ok(
                    Step::Pending(PieceProgressView::ObjectEnd(running)),
                ),
                PieceProgressView::ObjectEnd(running) => Ok(Step::Done(running)),
            }
        }
    }

    /// Where the work item stands once the operation that was just completed
    /// has been evaluated on the running result, with the outcome `res`: the
    /// outcome is the new running result, or the failure of the work item.
    pub open spec fn resumed(self, res: Result<MatrixView, Error>) -> Result<
        Step<PieceProgressView, MatrixView>,
        Error,
    >
        recommends
            self is Op,
    {
        match res {
            Ok(m) => Ok(
                Step::Pending(PieceProgressView::OpElement { running: m, count: self->Op_count }),
            ),
            Err(e) => Err(e),
        }
    }

    /// The outcomes `out` that an event may have at this position, with
    /// `dot` as the kernel. An event that completes an operation has it
    /// evaluated on the running result at once; any other event only moves
    /// the decoding on.
    pub open spec fn advances<F: Fn(&[u64], &[u64]) -> u64>(
        self,
        event: Event,
        dot: &F,
        out: Result<Step<PieceProgressView, MatrixView>, Error>,
    ) -> bool {
        match self.completes(event) {
            Some(done) => exists|res: Result<MatrixView, Error>| #[trigger]
                done.evaluates(dot, self->Op_running, res) && out == self.resumed(res),
            None => out == self.after(event),
        }
    }
}

/// An event that completes an operation advances the work item by the
/// evaluation of that operation.
proof fn lemma_advances_by_evaluation<F: Fn(&[u64], &[u64]) -> u64>(
    whole: PieceProgressView,
    event: Event,
    dot: &F,
    op: OperationView,
    res: Result<MatrixView, Error>,
    out: Result<Step<PieceProgressView, MatrixView>, Error>,
)
    requires
        whole.completes(event) == Some(op),
        op.evaluates(dot, whole->Op_running, res),
        out == whole.resumed(res),
    ensures
        whole.advances(event, dot, out),
{
    assert(whole.completes(event)->Some_0 == op);
}

/// A work item that is being decoded and evaluated.
#[derive(Debug)]
pub enum PieceProgress {
    ObjectStart,
    KeyLhs,
    Lhs(MatrixProgress),
    KeyOp(MatrixBuf),
    OpArrayStart(MatrixBuf),
    OpElement { running: MatrixBuf, count: usize },
    Op { running: MatrixBuf, count: usize, op: OperationProgress },
    OpArrayEnd(MatrixBuf),
    ObjectEnd(MatrixBuf),
}

impl View for PieceProgress {
    type V = PieceProgressView;

    open spec fn view(&self) -> PieceProgressView {
        match self {
            PieceProgress::ObjectStart => PieceProgressView::ObjectStart,
            PieceProgress::KeyLhs => PieceProgressView::KeyLhs,
            PieceProgress::Lhs(lhs) => PieceProgressView::Lhs(lhs@),
            PieceProgress::KeyOp(running) => PieceProgressView::KeyOp(running@),
            PieceProgress::OpArrayStart(running) => PieceProgressView::OpArrayStart(running@),
            PieceProgress::OpElement { running, count } => PieceProgressView::OpElement {
                running: running@,
                count: *count as nat,
            },
            PieceProgress::Op { running, count, op } => PieceProgressView::Op {
                running: running@,
                count: *count as nat,
                op: op@,
            },
            PieceProgress::OpArrayEnd(running) => PieceProgressView::OpArrayEnd(running@),
            PieceProgress::ObjectEnd(running) => PieceProgressView::ObjectEnd(running@),
        }
    }
}

impl PieceProgress {
    /// The progress of a work item of which nothing has been read.
    pub fn start() -> (p: PieceProgress)
        ensures
            p@ == PieceProgressView::start(),
    {
        PieceProgress::ObjectStart
    }

    /// The state of the driver.
    pub fn phase(&self) -> (phase: Phase)
        ensures
            phase == self@.phase(),
    {
        match self {
            PieceProgress::ObjectStart | PieceProgress::KeyLhs | PieceProgress::Lhs(_) =>
                Phase::AwaitingLhs,
            PieceProgress::KeyOp(_) | PieceProgress::OpArrayStart(_) => Phase::AwaitingOpArrayStart,
            _ => Phase::AwaitingOpElement,
        }
    }

    /// The call that the driver wants next.
    pub fn wants(&self) -> (a: Action)
        ensures
            a == self@.wants(),
    {
        match self {
            PieceProgress::ObjectStart => Action::BeginObject,
            PieceProgress::KeyLhs => Action::NextName,
            PieceProgress::Lhs(lhs) => lhs.wants(),
            PieceProgress::KeyOp(_) => Action::NextName,
            PieceProgress::OpArrayStart(_) => Action::BeginArray,
            PieceProgress::OpElement { .. } => Action::HasNext,
            PieceProgress::Op { op, .. } => op.wants(),
            PieceProgress::OpArrayEnd(_) => Action::EndArray,
            PieceProgress::ObjectEnd(_) => Action::EndObject,
        }
    }
}

impl PieceOfWork {
    /// Takes the reading and executing of a single work item one event
    /// further. Operations are executed as they come in: whenever an event
    /// completes one, it is evaluated on the running result, which it
    /// replaces.
    pub fn exec_streamingly<F: Fn(&[u64], &[u64]) -> u64>(
        progress: PieceProgress,
        event: Event,
        dot: &F,
    ) -> (r: Result<Step<PieceProgress, MatrixBuf>, Error>)
        requires
            kernel_ready(dot),
        ensures
            progress@.advances(event, dot, step_view(r)),
    {
        match progress {
            PieceProgress::ObjectStart => match event {
                Event::Ack => Ok(Step::Pending(PieceProgress::KeyLhs)),
                _ => Err(event.refuse()),
            },
            PieceProgress::KeyLhs => match event {
                Event::Name(_) => if event.is_name("lhs") {
                    Ok(Step::Pending(PieceProgress::Lhs(MatrixProgress::start())))
                } else {
                    Err(Error::ProtocolError)
                },
                _ => Err(event.refuse()),
            },
            PieceProgress::Lhs(lhs) => match MatrixBuf::deserialize(lhs, event) {
                Ok(Step::Pending(p)) => Ok(Step::Pending(PieceProgress::Lhs(p))),
                Ok(Step::Done(m)) => Ok(Step::Pending(PieceProgress::KeyOp(m))),
                Err(e) => Err(e),
            },
            PieceProgress::KeyOp(running) => match event {
                Event::Name(_) => if event.is_name("op") {
                    Ok(Step::Pending(PieceProgress::OpArrayStart(running)))
                } else {
                    Err(Error::ProtocolError)
                },
                _ => Err(event.refuse()),
            },
            PieceProgress::OpArrayStart(running) => match event {
                Event::Ack => Ok(Step::Pending(PieceProgress::OpElement { running, count: 0 })),
                _ => Err(event.refuse()),
            },
            PieceProgress::OpElement { running, count } => match event {
                Event::More(false) => Ok(Step::Pending(PieceProgress::OpArrayEnd(running))),
                Event::More(true) => if count >= MAX_OPERATIONS {
                    Err(Error::CapacityExceeded)
                } else {
                    Ok(
                        Step::Pending(
                            PieceProgress::Op {
                                running,
                                count: count + 1,
                                op: OperationProgress::start(),
                            },
                        ),
                    )
                },
                _ => Err(event.refuse()),
            },
            PieceProgress::Op { running, count, op } => {
                let ghost whole = progress@;
                match Operation::deserialize(op, event) {
                    Ok(Step::Pending(p)) => Ok(
                        Step::Pending(PieceProgress::Op { running, count, op: p }),
                    ),
                    Ok(Step::Done(done)) => {
                        let ghost op = done@;
                        let res = done.eval(running, dot);
                        let r = match res {
                            Ok(m) => Ok(Step::Pending(PieceProgress::OpElement { running: m, count })),
                            Err(e) => Err(e),
                        };
                        proof {
                            lemma_advances_by_evaluation(
                                whole,
                                event,
                                dot,
                                op,
                                matrix_result(res),
                                step_view(r),
                            );
                        }
                        r
                    },
                    Err(e) => Err(e),
                }
            },
            PieceProgress::OpArrayEnd(running) => match event {
                Event::Ack => Ok(Step::Pending(PieceProgress::ObjectEnd(running))),
                _ => Err(event.refuse()),
            },
            PieceProgress::ObjectEnd(running) => match event {
                Event::Ack => Ok(Step::Done(running)),
                _ => Err(event.refuse()),
            },
        }
    }
}

} // verus!
