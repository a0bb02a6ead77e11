//! The structured decoder.
//!
//! The document is read through a pull-style JSON reader. The decoder never
//! touches that reader: it says which call it wants next (an [`Action`]), is
//! handed what the reader answered (an [`Event`]), and moves on. Each record
//! kind has its own resumable progress value; the field order within a record
//! is fixed, and anything else at a given position ends the decoding.

use vstd::prelude::*;
use crate::bounded::{elements, elements_new, elements_push};
use crate::error::Error;
use crate::matrix::{MatrixBuf, MatrixView};
use crate::op::{Code, Operation, OperationView};
use crate::text::same_text;

verus! {

/// The call that the decoder wants made on the JSON reader.
#[derive(Clone, Copy, Debug, PartialEq, Eq, Structural)]
pub enum Action {
    /// Consume the opening bracket of an object.
    BeginObject,
    /// Consume the closing bracket of the current object.
    EndObject,
    /// Consume the opening bracket of an array.
    BeginArray,
    /// Consume the closing bracket of the current array.
    EndArray,
    /// Ask whether the current array has another element.
    HasNext,
    /// Read the name of the next member of the current object.
    NextName,
    /// Read a string value.
    NextString,
    /// Read a number as a double, and hand over its bit pattern.
    NextNumber,
    /// Read a number as an unsigned count.
    NextCount,
}

/// What the JSON reader answered.
#[derive(Debug)]
pub enum Event {
    /// The bracket that was asked for has been consumed.
    Ack,
    /// Whether the current array has another element.
    More(bool),
    /// The name of an object member.
    Name(String),
    /// A string value.
    Text(String),
    /// The bit pattern of a double.
    Number(u64),
    /// An unsigned count.
    Count(usize),
    /// The reader failed: its source is drained and closed (`BrokenPipe`),
    /// or the text is not the JSON that the call expects (`ProtocolError`).
    Failed(Error),
}

impl Event {
    /// Whether this event is an answer to `action`. A failure answers none.
    pub open spec fn answers(self, action: Action) -> bool {
        match action {
            Action::BeginObject | Action::EndObject | Action::BeginArray | Action::EndArray => self
                is Ack,
            Action::HasNext => self is More,
            Action::NextName => self is Name,
            Action::NextString => self is Text,
            Action::NextNumber => self is Number,
            Action::NextCount => self is Count,
        }
    }

    /// The error that ends the decoding when this event does not answer the
    /// action that was wanted: the reader's own error if it failed, and a
    /// `ProtocolError` for an answer of the wrong kind.
    pub open spec fn refusal(self) -> Error {
        match self {
            Event::Failed(e) => e,
            _ => Error::ProtocolError,
        }
    }

    /// The error that ends the decoding when this event is not the answer
    /// that was wanted.
    pub fn refuse(&self) -> (e: Error)
        ensures
            e == self.refusal(),
    {
        match self {
            Event::Failed(e) => *e,
            _ => Error::ProtocolError,
        }
    }

    /// Whether this event is the member name `key`.
    pub open spec fn names(self, key: Seq<char>) -> bool {
        self matches Event::Name(name) && name@ == key
    }

    /// Whether this event is the member name `key`.
    pub fn is_name(&self, key: &str) -> (b: bool)
        ensures
            b == self.names(key@),
    {
        match self {
            Event::Name(name) => same_text(name.as_str(), key),
            _ => false,
        }
    }
}

/// Where a resumable decoder stands after an event: it wants more, or it has
/// its value.
#[derive(Debug)]
pub enum Step<P, T> {
    Pending(P),
    Done(T),
}

/// A step result over decoder values, as a step result over their views.
pub open spec fn step_view<P: View, T: View>(r: Result<Step<P, T>, Error>) -> Result<
    Step<P::V, T::V>,
    Error,
> {
    match r {
        Ok(Step::Pending(p)) => Ok(Step::Pending(p@)),
        Ok(Step::Done(t)) => Ok(Step::Done(t@)),
        Err(e) => Err(e),
    }
}

/// The positions within a matrix record, `{"d": [..], "n": ..}`.
#[derive(Clone, Copy, Debug, PartialEq, Eq, Structural)]
pub enum MatrixStage {
    ObjectStart,
    KeyD,
    ArrayStart,
    HasNext,
    Element,
    ArrayEnd,
    KeyN,
    Columns,
    ObjectEnd,
}

/// What a partly decoded matrix holds: the position in the record, the
/// elements read so far and, once it was read, the column count.
pub struct MatrixProgressView {
    pub stage: MatrixStage,
    pub d: Seq<u64>,
    pub n: nat,
}

impl MatrixProgressView {
    /// Nothing of the record has been read.
    pub open spec fn start() -> MatrixProgressView {
        MatrixProgressView { stage: MatrixStage::ObjectStart, d: Seq::empty(), n: 0 }
    }

    /// The elements fit, and at the closing bracket the matrix is whole.
    pub open spec fn wf(self) -> bool {
        &&& self.d.len() <= 36
        &&& self.stage == MatrixStage::ObjectEnd ==> MatrixView::checked(self.d, self.n) is Ok
    }

    /// The same progress at another position.
    pub open spec fn at(self, stage: MatrixStage) -> MatrixProgressView {
        MatrixProgressView { stage, d: self.d, n: self.n }
    }

    /// The call that is wanted at this position.
    pub open spec fn wants(self) -> Action {
        match self.stage {
            MatrixStage::ObjectStart => Action::BeginObject,
            MatrixStage::KeyD => Action::NextName,
            MatrixStage::ArrayStart => Action::BeginArray,
            MatrixStage::HasNext => Action::HasNext,
            MatrixStage::Element => Action::NextNumber,
            MatrixStage::ArrayEnd => Action::EndArray,
            MatrixStage::KeyN => Action::NextName,
            MatrixStage::Columns => Action::NextCount,
            MatrixStage::ObjectEnd => Action::EndObject,
        }
    }

    /// Where the decoding of a matrix stands after `event`. The first key
    /// must be `"d"`, bound to an array of at most 36 numbers; the second
    /// must be `"n"`, bound to a column count that is not zero and divides
    /// the number of elements.
    pub open spec fn after(self, event: Event) -> Result<
        Step<MatrixProgressView, MatrixView>,
        Error,
    > {
        if !event.answers(self.wants()) {
            Err(event.refusal())
        } else {
            match self.stage {
                MatrixStage::ObjectStart => Ok(Step::Pending(self.at(MatrixStage::KeyD))),
                MatrixStage::KeyD => if event.names("d"@) {
                    Ok(Step::Pending(self.at(MatrixStage::ArrayStart)))
                } else {
                    Err(Error::ProtocolError)
                },
                MatrixStage::ArrayStart => Ok(Step::Pending(self.at(MatrixStage::HasNext))),
                MatrixStage::HasNext => if event->More_0 {
                    Ok(Step::Pending(self.at(MatrixStage::Element)))
                } else {
                    Ok(Step::Pending(self.at(MatrixStage::ArrayEnd)))
                },
                MatrixStage::Element => if self.d.len() >= 36 {
                    Err(Error::CapacityExceeded)
                } else {
                    Ok(
                        Step::Pending(
                            MatrixProgressView {
                                stage: MatrixStage::HasNext,
                                d: self.d.push(event->Number_0),
                                n: self.n,
                            },
                        ),
                    )
                },
                MatrixStage::ArrayEnd => Ok(Step::Pending(self.at(MatrixStage::KeyN))),
                MatrixStage::KeyN => if event.names("n"@) {
                    Ok(Step::Pending(self.at(MatrixStage::Columns)))
                } else {
                    Err(Error::ProtocolError)
                },
                MatrixStage::Columns => match MatrixView::checked(
                    self.d,
                    event->Count_0 as nat,
                ) {
                    Ok(_) => Ok(
                        Step::Pending(
                            MatrixProgressView {
                                stage: MatrixStage::ObjectEnd,
                                d: self.d,
                                n: event->Count_0 as nat,
                            },
                        ),
                    ),
                    Err(e) => Err(e),
                },
                MatrixStage::ObjectEnd => Ok(Step::Done(MatrixView { d: self.d, n: self.n })),
            }
        }
    }
}

/// A matrix that is being decoded.
#[derive(Debug)]
pub struct MatrixProgress {
    stage: MatrixStage,
    d: heapless::Vec<u64, 36>,
    n: usize,
}

impl View for MatrixProgress {
    type V = MatrixProgressView;

    closed spec fn view(&self) -> MatrixProgressView {
        MatrixProgressView { stage: self.stage, d: elements(self.d), n: self.n as nat }
    }
}

impl MatrixProgress {
    #[verifier::type_invariant]
    spec fn inv(self) -> bool {
        self@.wf()
    }

    /// The progress of a matrix of which nothing has been read.
    pub fn start() -> (p: MatrixProgress)
        ensures
            p@ == MatrixProgressView::start(),
    {
        let d = elements_new();
        assert(elements(d) =~= Seq::empty());
        MatrixProgress { stage: MatrixStage::ObjectStart, d, n: 0 }
    }

    /// The call that the decoder wants next.
    pub fn wants(&self) -> (a: Action)
        ensures
            a == self@.wants(),
    {
        match self.stage {
            MatrixStage::ObjectStart => Action::BeginObject,
            MatrixStage::KeyD => Action::NextName,
            MatrixStage::ArrayStart => Action::BeginArray,
            MatrixStage::HasNext => Action::HasNext,
            MatrixStage::Element => Action::NextNumber,
            MatrixStage::ArrayEnd => Action::EndArray,
            MatrixStage::KeyN => Action::NextName,
            MatrixStage::Columns => Action::NextCount,
            MatrixStage::ObjectEnd => Action::EndObject,
        }
    }

    fn moved(self, stage: MatrixStage) -> (r: Result<Step<MatrixProgress, MatrixBuf>, Error>)
        requires
            stage != MatrixStage::ObjectEnd,
        ensures
            step_view(r) == Ok::<Step<MatrixProgressView, MatrixView>, Error>(
                Step::Pending(self@.at(stage)),
            ),
    {
        proof {
            use_type_invariant(&self);
        }
        Ok(Step::Pending(MatrixProgress { stage, d: self.d, n: self.n }))
    }
}

impl MatrixBuf {
    /// Takes the decoding of a matrix one event further.
    pub fn deserialize(progress: MatrixProgress, event: Event) -> (r: Result<
        Step<MatrixProgress, MatrixBuf>,
        Error,
    >)
        ensures
            step_view(r) == progress@.after(event),
    {
        proof {
            use_type_invariant(&progress);
        }
        match (progress.stage, &event) {
            (MatrixStage::ObjectStart, Event::Ack) => progress.moved(MatrixStage::KeyD),
            (MatrixStage::KeyD, Event::Name(_)) => {
                if event.is_name("d") {
                    progress.moved(MatrixStage::ArrayStart)
                } else {
                    Err(Error::ProtocolError)
                }
            },
            (MatrixStage::ArrayStart, Event::Ack) => progress.moved(MatrixStage::HasNext),
            (MatrixStage::HasNext, Event::More(more)) => {
                if *more {
                    progress.moved(MatrixStage::Element)
                } else {
                    progress.moved(MatrixStage::ArrayEnd)
                }
            },
            (MatrixStage::Element, Event::Number(x)) => {
                let MatrixProgress { stage: _, d, n } = progress;
                let mut d = d;
                match elements_push(&mut d, *x) {
                    Ok(()) => Ok(Step::Pending(MatrixProgress { stage: MatrixStage::HasNext, d, n })),
                    Err(_) => Err(Error::CapacityExceeded),
                }
            },
            (MatrixStage::ArrayEnd, Event::Ack) => progress.moved(MatrixStage::KeyN),
            (MatrixStage::KeyN, Event::Name(_)) => {
                if event.is_name("n") {
                    progress.moved(MatrixStage::Columns)
                } else {
                    Err(Error::ProtocolError)
                }
            },
            (MatrixStage::Columns, Event::Count(n)) => {
                let MatrixProgress { stage: _, d, n: _ } = progress;
                match MatrixBuf::assemble(d, *n) {
                    Ok(m) => Ok(
                        Step::Pending(
                            MatrixProgress { stage: MatrixStage::ObjectEnd, d: m.d, n: m.n },
                        ),
                    ),
                    Err(e) => Err(e),
                }
            },
            (MatrixStage::ObjectEnd, Event::Ack) => {
                Ok(Step::Done(MatrixBuf { d: progress.d, n: progress.n }))
            },
            _ => Err(event.refuse()),
        }
    }
}

/// What a partly decoded operation record, `{"code": .., "rhs": ..}`, holds.
pub enum OperationProgressView {
    ObjectStart,
    KeyCode,
    Code,
    KeyRhs(Code),
    Rhs(Code, MatrixProgressView),
    ObjectEnd(OperationView),
}

impl OperationProgressView {
    /// Nothing of the record has been read.
    pub open spec fn start() -> OperationProgressView {
        OperationProgressView::ObjectStart
    }

    /// The call that is wanted at this position.
    pub open spec fn wants(self) -> Action {
        match self {
            OperationProgressView::ObjectStart => Action::BeginObject,
            OperationProgressView::KeyCode => Action::NextName,
            OperationProgressView::Code => Action::NextString,
            OperationProgressView::KeyRhs(_) => Action::NextName,
            OperationProgressView::Rhs(_, rhs) => rhs.wants(),
            OperationProgressView::ObjectEnd(_) => Action::EndObject,
        }
    }

    /// Where the decoding of an operation stands after `event`. The first
    /// key must be `"code"`, bound to a string that names an operation; the
    /// second must be `"rhs"`, bound to a matrix.
    pub open spec fn after(self, event: Event) -> Result<
        Step<OperationProgressView, OperationView>,
        Error,
    > {
        if !event.answers(self.wants()) {
            Err(event.refusal())
        } else {
            match self {
                OperationProgressView::ObjectStart => Ok(
                    Step::Pending(OperationProgressView::KeyCode),
                ),
                OperationProgressView::KeyCode => if event.names("code"@) {
                    Ok(Step::Pending(OperationProgressView::Code))
                } else {
                    Err(Error::ProtocolError)
                },
                OperationProgressView::Code => match Code::spelled(event->Text_0@) {
                    Ok(code) => Ok(Step::Pending(OperationProgressView::KeyRhs(code))),
                    Err(e) => Err(e),
                },
                OperationProgressView::KeyRhs(code) => if event.names("rhs"@) {
                    Ok(
                        Step::Pending(
                            OperationProgressView::Rhs(code, MatrixProgressView::start()),
                        ),
                    )
                } else {
                    Err(Error::ProtocolError)
                },
                OperationProgressView::Rhs(code, rhs) => match rhs.after(event) {
                    Ok(Step::Pending(p)) => Ok(Step::Pending(OperationProgressView::Rhs(code, p))),
                    Ok(Step::Done(m)) => Ok(
                        Step::Pending(
                            OperationProgressView::ObjectEnd(OperationView::with(code, m)),
                        ),
                    ),
                    Err(e) => Err(e),
                },
                OperationProgressView::ObjectEnd(op) => Ok(Step::Done(op)),
            }
        }
    }
}

/// An operation that is being decoded.
#[derive(Debug)]
pub enum OperationProgress {
    ObjectStart,
    KeyCode,
    Code,
    KeyRhs(Code),
    Rhs(Code, MatrixProgress),
    ObjectEnd(Operation),
}

impl View for OperationProgress {
    type V = OperationProgressView;

    open spec fn view(&self) -> OperationProgressView {
        match self {
            OperationProgress::ObjectStart => OperationProgressView::ObjectStart,
            OperationProgress::KeyCode => OperationProgressView::KeyCode,
            OperationProgress::Code => OperationProgressView::Code,
            OperationProgress::KeyRhs(code) => OperationProgressView::KeyRhs(*code),
            OperationProgress::Rhs(code, rhs) => OperationProgressView::Rhs(*code, rhs@),
            OperationProgress::ObjectEnd(op) => OperationProgressView::ObjectEnd(op@),
        }
    }
}

impl OperationProgress {
    /// The progress of an operation of which nothing has been read.
    pub fn start() -> (p: OperationProgress)
        ensures
            p@ == OperationProgressView::start(),
    {
        OperationProgress::ObjectStart
    }

    /// The call that the decoder wants next.
    pub fn wants(&self) -> (a: Action)
        ensures
            a == self@.wants(),
    {
        match self {
            OperationProgress::ObjectStart => Action::BeginObject,
            OperationProgress::KeyCode => Action::NextName,
            OperationProgress::Code => Action::NextString,
            OperationProgress::KeyRhs(_) => Action::NextName,
            OperationProgress::Rhs(_, rhs) => rhs.wants(),
            OperationProgress::ObjectEnd(_) => Action::EndObject,
        }
    }
}

impl Operation {
    /// Takes the decoding of an operation one event further.
    pub fn deserialize(progress: OperationProgress, event: Event) -> (r: Result<
        Step<OperationProgress, Operation>,
        Error,
    >)
        ensures
            step_view(r) == progress@.after(event),
    {
        match progress {
            OperationProgress::ObjectStart => match event {
                Event::Ack => Ok(Step::Pending(OperationProgress::KeyCode)),
                _ => Err(event.refuse()),
            },
            OperationProgress::KeyCode => match event {
                Event::Name(_) => if event.is_name("code") {
                    Ok(Step::Pending(OperationProgress::Code))
                } else {
                    Err(Error::ProtocolError)
                },
                _ => Err(event.refuse()),
            },
            OperationProgress::Code => match event {
                Event::Text(text) => match Code::parse(text.as_str()) {
                    Ok(code) => Ok(Step::Pending(OperationProgress::KeyRhs(code))),
                    Err(e) => Err(e),
                },
                _ => Err(event.refuse()),
            },
            OperationProgress::KeyRhs(code) => match event {
                Event::Name(_) => if event.is_name("rhs") {
                    Ok(Step::Pending(OperationProgress::Rhs(code, MatrixProgress::start())))
                } else {
                    Err(Error::ProtocolError)
                },
                _ => Err(event.refuse()),
            },
            OperationProgress::Rhs(code, rhs) => match MatrixBuf::deserialize(rhs, event) {
                Ok(Step::Pending(p)) => Ok(Step::Pending(OperationProgress::Rhs(code, p))),
                Ok(Step::Done(m)) => Ok(
                    Step::Pending(OperationProgress::ObjectEnd(Operation::with(code, m))),
                ),
                Err(e) => Err(e),
            },
            OperationProgress::ObjectEnd(op) => match event {
                Event::Ack => Ok(Step::Done(op)),
                _ => Err(event.refuse()),
            },
        }
    }
}

} // verus!
