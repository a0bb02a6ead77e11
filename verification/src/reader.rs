//! The streaming driver over a whole document: an array of work items, each
//! of which is executed while it is read.

use vstd::prelude::*;
use crate::error::Error;
use crate::matrix::{MatrixBuf, MatrixView};
use crate::op::{kernel_ready, PieceOfWork};
use crate::streaming::{PieceProgress, PieceProgressView};
use crate::wire::{step_view, Action, Event, Step};

verus! {

/// Where the driver stands in the document.
pub enum StreamView {
    /// The array of work items has not begun.
    Fresh,
    /// Between two work items: the driver asks whether another follows.
    Between,
    /// Within a work item.
    Within(PieceProgressView),
    /// The array has ended, or its source was closed between two work items.
    Finished,
    /// A work item failed, and with it the document.
    Failed(Error),
}

/// What one event yields.
#[derive(Debug)]
pub enum Yield<T> {
    /// Nothing yet: the driver wants another call made.
    Pending,
    /// The result of the work item that the event completed.
    Item(T),
    /// No more work items.
    End,
}

/// The outcome of an event on a driver, as the outcome on its view.
pub open spec fn yield_view(r: Result<Yield<MatrixBuf>, Error>) -> Result<Yield<MatrixView>, Error> {
    match r {
        Ok(Yield::Pending) => Ok(Yield::Pending),
        Ok(Yield::Item(m)) => Ok(Yield::Item(m@)),
        Ok(Yield::End) => Ok(Yield::End),
        Err(e) => Err(e),
    }
}

impl StreamView {
    /// The call that is wanted, if the driver still wants one.
    pub open spec fn wants(self) -> Option<Action> {
        match self {
            StreamView::Fresh => Some(Action::BeginArray),
            StreamView::Between => Some(Action::HasNext),
            StreamView::Within(piece) => Some(piece.wants()),
            StreamView::Finished => None,
            StreamView::Failed(_) => None,
        }
    }

    /// Whether the driver stands between two work items, the place where a
    /// drained and closed source means the end of the work and no failure.
    pub open spec fn at_boundary(self) -> bool {
        self is Between
    }

    /// The driver after the work item that it is within has moved to `step`.
    pub open spec fn moved(step: Result<Step<PieceProgressView, MatrixView>, Error>) -> StreamView {
        match step {
            Ok(Step::Pending(piece)) => StreamView::Within(piece),
            Ok(Step::Done(_)) => StreamView::Between,
            Err(e) => StreamView::Failed(e),
        }
    }

    /// What the driver yields when the work item that it is within has
    /// moved to `step`.
    pub open spec fn yielded(step: Result<Step<PieceProgressView, MatrixView>, Error>) -> Result<
        Yield<MatrixView>,
        Error,
    > {
        match step {
            Ok(Step::Pending(_)) => Ok(Yield::Pending),
            Ok(Step::Done(m)) => Ok(Yield::Item(m)),
            Err(e) => Err(e),
        }
    }

    /// The pairs of a next state and an outcome that `event` may have, with
    /// `dot` as the kernel.
    ///
    /// Before the array, only its opening bracket is accepted. Between two
    /// work items, the answer `true` begins the next one, and the answer
    /// `false` ends the stream, as does a source that is drained and closed.
    /// Within a work item the event goes to that item: its completion yields
    /// its result, its failure is the failure of the stream. A finished
    /// stream stays finished, and a failed one keeps failing with the same
    /// error.
    pub open spec fn advances<F: Fn(&[u64], &[u64]) -> u64>(
        self,
        event: Event,
        dot: &F,
        next: StreamView,
        out: Result<Yield<MatrixView>, Error>,
    ) -> bool {
        match self {
            StreamView::Fresh => if event is Ack {
                next == StreamView::Between && out == Ok::<Yield<MatrixView>, Error>(Yield::Pending)
            } else {
                next == StreamView::Failed(event.refusal()) && out == Err::<
                    Yield<MatrixView>,
                    Error,
                >(event.refusal())
            },
            StreamView::Between => match event {
                Event::More(true) => next == StreamView::Within(PieceProgressView::start())
                    && out == Ok::<Yield<MatrixView>, Error>(Yield::Pending),
                Event::More(false) | Event::Failed(Error::BrokenPipe) => next
                    == StreamView::Finished && out == Ok::<Yield<MatrixView>, Error>(Yield::End),
                _ => next == StreamView::Failed(event.refusal()) && out == Err::<
                    Yield<MatrixView>,
                    Error,
                >(event.refusal()),
            },
            StreamView::Within(piece) => exists|
                step: Result<Step<PieceProgressView, MatrixView>, Error>,
            | #[trigger]
                piece.advances(event, dot, step) && next == StreamView::moved(step) && out
                    == StreamView::yielded(step),
            StreamView::Finished => next == StreamView::Finished && out == Ok::<
                Yield<MatrixView>,
                Error,
            >(Yield::End),
            StreamView::Failed(e) => next == StreamView::Failed(e) && out == Err::<
                Yield<MatrixView>,
                Error,
            >(e),
        }
    }
}

#[derive(Debug)]
enum Stream {
    Fresh,
    Between,
    Within(PieceProgress),
    Finished,
    Failed(Error),
}

/// The streaming driver: reads a document of work items one event at a time
/// and yields the result of each work item as soon as it is complete.
#[derive(Debug)]
pub struct StrompyJsonReader {
    stream: Stream,
}

impl View for StrompyJsonReader {
    type V = StreamView;

    closed spec fn view(&self) -> StreamView {
        match self.stream {
            Stream::Fresh => StreamView::Fresh,
            Stream::Between => StreamView::Between,
            Stream::Within(piece) => StreamView::Within(piece@),
            Stream::Finished => StreamView::Finished,
            Stream::Failed(e) => StreamView::Failed(e),
        }
    }
}

impl StrompyJsonReader {
    /// A driver at the start of a document.
    pub fn new() -> (reader: StrompyJsonReader)
        ensures
            reader@ == StreamView::Fresh,
    {
        StrompyJsonReader { stream: Stream::Fresh }
    }

    /// The call that the driver wants made on the JSON reader, or `None`
    /// when the stream has finished or failed.
    pub fn wants(&self) -> (a: Option<Action>)
        ensures
            a == self@.wants(),
    {
        match &self.stream {
            Stream::Fresh => Some(Action::BeginArray),
            Stream::Between => Some(Action::HasNext),
            Stream::Within(piece) => Some(piece.wants()),
            Stream::Finished => None,
            Stream::Failed(_) => None,
        }
    }

    /// Whether the driver stands between two work items.
    pub fn at_boundary(&self) -> (b: bool)
        ensures
            b == self@.at_boundary(),
    {
        match &self.stream {
            Stream::Between => true,
            _ => false,
        }
    }

    /// Hands the driver what the JSON reader answered, and gets the result
    /// of a work item if the answer completed one.
    pub fn next<F: Fn(&[u64], &[u64]) -> u64>(&mut self, event: Event, dot: &F) -> (r: Result<
        Yield<MatrixBuf>,
        Error,
    >)
        requires
            kernel_ready(dot),
        ensures
            old(self)@.advances(event, dot, final(self)@, yield_view(r)),
    {
        let mut stream = Stream::Finished;
        core::mem::swap(&mut self.stream, &mut stream);
        match stream {
            Stream::Fresh => match event {
                Event::Ack => {
                    self.stream = Stream::Between;
                    Ok(Yield::Pending)
                },
                _ => {
                    let e = event.refuse();
                    self.stream = Stream::Failed(e);
                    Err(e)
                },
            },
            Stream::Between => match event {
                Event::More(true) => {
                    self.stream = Stream::Within(PieceProgress::start());
                    Ok(Yield::Pending)
                },
                Event::More(false) | Event::Failed(Error::BrokenPipe) => {
                    self.stream = Stream::Finished;
                    Ok(Yield::End)
                },
                _ => {
                    let e = event.refuse();
                    self.stream = Stream::Failed(e);
                    Err(e)
                },
            },
            Stream::Within(piece) => {
                let step = PieceOfWork::exec_streamingly(piece, event, dot);
                let r = match step {
                    Ok(Step::Pending(p)) => {
                        self.stream = Stream::Within(p);
                        Ok(Yield::Pending)
                    },
                    Ok(Step::Done(m)) => {
                        self.stream = Stream::Between;
                        Ok(Yield::Item(m))
                    },
                    Err(e) => {
                        self.stream = Stream::Failed(e);
                        Err(e)
                    },
                };
                r
            },
            Stream::Finished => {
                self.stream = Stream::Finished;
                Ok(Yield::End)
            },
            Stream::Failed(e) => {
                self.stream = Stream::Failed(e);
                Err(e)
            },
        }
    }
}

} // verus!
