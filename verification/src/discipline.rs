//! The calling discipline of a pull reader, and the proof that the decoders
//! keep to it.
//!
//! A pull reader of JSON takes its calls in a certain order only: no value
//! where a member name is due, no name where a value is due, no closing
//! bracket but that of the innermost open container. A reader that is called
//! out of order gives no answer at all. The decoders of this crate never ask
//! for such a call.

use vstd::prelude::*;
use crate::batch::PieceDecodingView;
use crate::error::Error;
use crate::matrix::MatrixView;
use crate::reader::{StreamView, Yield};
use crate::streaming::PieceProgressView;
use crate::wire::{
    Action, Event, MatrixProgressView, MatrixStage, OperationProgressView, Step,
};

verus! {

/// A container that a reader is inside of.
pub enum Frame {
    Array,
    Object,
}

/// What decides which calls a pull reader takes: the containers that it is
/// inside of, innermost last; whether the name of a member is due; and
/// whether the one value of the document has been read to its end.
pub struct Reader {
    pub stack: Seq<Frame>,
    pub expects_name: bool,
    pub consumed: bool,
}

impl Reader {
    /// A reader that has not been called yet.
    pub open spec fn fresh() -> Reader {
        Reader { stack: Seq::empty(), expects_name: false, consumed: false }
    }

    /// Inside a container the value of the document is not at its end.
    pub open spec fn wf(self) -> bool {
        self.stack.len() > 0 ==> !self.consumed
    }

    /// Whether the reader is directly inside a container of the given kind.
    pub open spec fn inside(self, frame: Frame) -> bool {
        self.stack.len() > 0 && self.stack.last() == frame
    }

    /// Whether a value may be read: no member name is due, and the document
    /// is not at its end.
    pub open spec fn value_due(self) -> bool {
        !self.expects_name && !self.consumed
    }

    /// Whether the reader takes the call.
    pub open spec fn permits(self, action: Action) -> bool {
        match action {
            Action::BeginObject | Action::BeginArray | Action::NextString | Action::NextNumber
            | Action::NextCount => self.value_due(),
            Action::NextName => self.expects_name,
            Action::EndArray => self.inside(Frame::Array),
            Action::EndObject => self.inside(Frame::Object) && self.expects_name,
            Action::HasNext => self.inside(Frame::Array) || self.inside(Frame::Object)
                && self.expects_name,
        }
    }

    /// The reader once a value has been read to its end: inside an object
    /// the next member name is due, and outside every container the
    /// document is at its end.
    pub open spec fn value_read(self) -> Reader {
        Reader {
            stack: self.stack,
            expects_name: self.inside(Frame::Object),
            consumed: self.stack.len() == 0,
        }
    }

    /// The reader once the call has succeeded.
    pub open spec fn after(self, action: Action) -> Reader {
        match action {
            Action::BeginObject => Reader {
                stack: self.stack.push(Frame::Object),
                expects_name: true,
                consumed: self.consumed,
            },
            Action::BeginArray => Reader {
                stack: self.stack.push(Frame::Array),
                expects_name: false,
                consumed: self.consumed,
            },
            Action::EndObject | Action::EndArray => (Reader {
                stack: self.stack.drop_last(),
                expects_name: false,
                consumed: self.consumed,
            }).value_read(),
            Action::NextName => Reader {
                stack: self.stack,
                expects_name: false,
                consumed: self.consumed,
            },
            Action::NextString | Action::NextNumber | Action::NextCount => self.value_read(),
            Action::HasNext => self,
        }
    }
}

impl MatrixProgressView {
    /// The reader at this position, where `outer` is the reader at the
    /// start of the matrix.
    pub open spec fn reader(self, outer: Reader) -> Reader {
        let opened = outer.after(Action::BeginObject);
        let within = opened.after(Action::NextName).after(Action::BeginArray);
        let closed = within.after(Action::EndArray);
        match self.stage {
            MatrixStage::ObjectStart => outer,
            MatrixStage::KeyD => opened,
            MatrixStage::ArrayStart => opened.after(Action::NextName),
            MatrixStage::HasNext | MatrixStage::Element | MatrixStage::ArrayEnd => within,
            MatrixStage::KeyN => closed,
            MatrixStage::Columns => closed.after(Action::NextName),
            MatrixStage::ObjectEnd => closed.after(Action::NextName).after(Action::NextCount),
        }
    }
}

/// The decoder of a matrix asks only for calls that the reader takes, and
/// the reader is where the decoder thinks it is: after every answer at the
/// next position, and after the last one behind the matrix.
pub proof fn lemma_matrix_discipline(p: MatrixProgressView, outer: Reader, event: Event)
    requires
        outer.wf(),
        outer.value_due(),
    ensures
        p.reader(outer).permits(p.wants()),
        p.after(event) matches Ok(Step::Pending(q)) ==> q.reader(outer) == p.reader(outer).after(
            p.wants(),
        ),
        p.after(event) matches Ok(Step::Done(_)) ==> outer.value_read() == p.reader(outer).after(
            p.wants(),
        ),
{
    let opened = outer.after(Action::BeginObject);
    let within = opened.after(Action::NextName).after(Action::BeginArray);
    assert(opened.stack.drop_last() =~= outer.stack);
    assert(within.stack.drop_last() =~= opened.stack);
}

impl OperationProgressView {
    /// The reader at this position, where `outer` is the reader at the
    /// start of the operation.
    pub open spec fn reader(self, outer: Reader) -> Reader {
        let opened = outer.after(Action::BeginObject);
        let coded = opened.after(Action::NextName).after(Action::NextString);
        match self {
            OperationProgressView::ObjectStart => outer,
            OperationProgressView::KeyCode => opened,
            OperationProgressView::Code => opened.after(Action::NextName),
            OperationProgressView::KeyRhs(_) => coded,
            OperationProgressView::Rhs(_, rhs) => rhs.reader(coded.after(Action::NextName)),
            OperationProgressView::ObjectEnd(_) => coded.after(Action::NextName).value_read(),
        }
    }
}

/// The decoder of an operation asks only for calls that the reader takes,
/// and the reader is where the decoder thinks it is.
pub proof fn lemma_operation_discipline(p: OperationProgressView, outer: Reader, event: Event)
    requires
        outer.wf(),
        outer.value_due(),
    ensures
        p.reader(outer).permits(p.wants()),
        p.after(event) matches Ok(Step::Pending(q)) ==> q.reader(outer) == p.reader(outer).after(
            p.wants(),
        ),
        p.after(event) matches Ok(Step::Done(_)) ==> outer.value_read() == p.reader(outer).after(
            p.wants(),
        ),
{
    let opened = outer.after(Action::BeginObject);
    let coded = opened.after(Action::NextName).after(Action::NextString);
    let inner = coded.after(Action::NextName);
    assert(opened.stack.drop_last() =~= outer.stack);
    if let OperationProgressView::Rhs(_, rhs) = p {
        lemma_matrix_discipline(rhs, inner, event);
    }
}

impl PieceProgressView {
    /// The reader at this position, where `outer` is the reader at the
    /// start of the work item.
    pub open spec fn reader(self, outer: Reader) -> Reader {
        let opened = outer.after(Action::BeginObject);
        let keyed = opened.after(Action::NextName).value_read();
        let within = keyed.after(Action::NextName).after(Action::BeginArray);
        match self {
            PieceProgressView::ObjectStart => outer,
            PieceProgressView::KeyLhs => opened,
            PieceProgressView::Lhs(lhs) => lhs.reader(opened.after(Action::NextName)),
            PieceProgressView::KeyOp(_) => keyed,
            PieceProgressView::OpArrayStart(_) => keyed.after(Action::NextName),
            PieceProgressView::OpElement { .. } => within,
            PieceProgressView::Op { op, .. } => op.reader(within),
            PieceProgressView::OpArrayEnd(_) => within,
            PieceProgressView::ObjectEnd(_) => within.after(Action::EndArray),
        }
    }
}

/// The streaming driver asks only for calls that the reader takes, and the
/// reader is where the driver thinks it is, whatever the kernel answers.
pub proof fn lemma_streaming_discipline<F: Fn(&[u64], &[u64]) -> u64>(
    p: PieceProgressView,
    outer: Reader,
    event: Event,
    dot: &F,
    step: Result<Step<PieceProgressView, MatrixView>, Error>,
)
    requires
        outer.wf(),
        outer.value_due(),
        p.advances(event, dot, step),
    ensures
        p.reader(outer).permits(p.wants()),
        step matches Ok(Step::Pending(q)) ==> q.reader(outer) == p.reader(outer).after(p.wants()),
        step matches Ok(Step::Done(_)) ==> outer.value_read() == p.reader(outer).after(p.wants()),
{
    let opened = outer.after(Action::BeginObject);
    let keyed = opened.after(Action::NextName).value_read();
    let within = keyed.after(Action::NextName).after(Action::BeginArray);
    assert(opened.stack.drop_last() =~= outer.stack);
    assert(within.stack.drop_last() =~= keyed.stack);
    match p {
        PieceProgressView::Lhs(lhs) => {
            lemma_matrix_discipline(lhs, opened.after(Action::NextName), event);
        },
        PieceProgressView::Op { op, .. } => {
            lemma_operation_discipline(op, within, event);
        },
        _ => {},
    }
}

impl PieceDecodingView {
    /// The reader at this position, where `outer` is the reader at the
    /// start of the work item.
    pub open spec fn reader(self, outer: Reader) -> Reader {
        let opened = outer.after(Action::BeginObject);
        let keyed = opened.after(Action::NextName).value_read();
        let within = keyed.after(Action::NextName).after(Action::BeginArray);
        match self {
            PieceDecodingView::ObjectStart => outer,
            PieceDecodingView::KeyLhs => opened,
            PieceDecodingView::Lhs(lhs) => lhs.reader(opened.after(Action::NextName)),
            PieceDecodingView::KeyOp(_) => keyed,
            PieceDecodingView::OpArrayStart(_) => keyed.after(Action::NextName),
            PieceDecodingView::OpElement(_) => within,
            PieceDecodingView::Op(_, op) => op.reader(within),
            PieceDecodingView::OpArrayEnd(_) => within,
            PieceDecodingView::ObjectEnd(_) => within.after(Action::EndArray),
        }
    }
}

/// The batch decoder asks only for calls that the reader takes, and the
/// reader is where the decoder thinks it is.
pub proof fn lemma_batch_discipline(p: PieceDecodingView, outer: Reader, event: Event)
    requires
        outer.wf(),
        outer.value_due(),
    ensures
        p.reader(outer).permits(p.wants()),
        p.after(event) matches Ok(Step::Pending(q)) ==> q.reader(outer) == p.reader(outer).after(
            p.wants(),
        ),
        p.after(event) matches Ok(Step::Done(_)) ==> outer.value_read() == p.reader(outer).after(
            p.wants(),
        ),
{
    let opened = outer.after(Action::BeginObject);
    let keyed = opened.after(Action::NextName).value_read();
    let within = keyed.after(Action::NextName).after(Action::BeginArray);
    assert(opened.stack.drop_last() =~= outer.stack);
    assert(within.stack.drop_last() =~= keyed.stack);
    match p {
        PieceDecodingView::Lhs(lhs) => {
            lemma_matrix_discipline(lhs, opened.after(Action::NextName), event);
        },
        PieceDecodingView::Op(_, op) => {
            lemma_operation_discipline(op, within, event);
        },
        _ => {},
    }
}

impl StreamView {
    /// The reader at this position of the document.
    pub open spec fn reader(self) -> Reader {
        let within = Reader::fresh().after(Action::BeginArray);
        match self {
            StreamView::Fresh => Reader::fresh(),
            StreamView::Within(piece) => piece.reader(within),
            _ => within,
        }
    }
}

/// Over a whole document, the driver asks only for calls that the reader
/// takes, and as long as it asks for calls the reader is where the driver
/// thinks it is.
pub proof fn lemma_stream_discipline<F: Fn(&[u64], &[u64]) -> u64>(
    s: StreamView,
    event: Event,
    dot: &F,
    next: StreamView,
    out: Result<Yield<MatrixView>, Error>,
)
    requires
        s.advances(event, dot, next, out),
    ensures
        s.wants() matches Some(action) ==> s.reader().permits(action),
        s.wants() matches Some(action) ==> (next.wants() is Some ==> next.reader()
            == s.reader().after(action)),
{
    let within = Reader::fresh().after(Action::BeginArray);
    if let StreamView::Within(piece) = s {
        let step = choose|
            step: Result<Step<PieceProgressView, MatrixView>, Error>,
        | #[trigger]
            piece.advances(event, dot, step) && next == StreamView::moved(step) && out
                == StreamView::yielded(step);
        lemma_streaming_discipline(piece, within, event, dot, step);
    }
}

} // verus!
