//! The two execution modes agree.
//!
//! In batch mode a work item is decoded whole and then executed; in
//! streaming mode every operation is evaluated the moment it is complete.
//! On a sequence of reader answers that spells a work item, streaming comes
//! to exactly the outcomes that the fold over the decoded item has.

use vstd::prelude::*;
use crate::batch::PieceDecodingView;
use crate::error::Error;
use crate::matrix::MatrixView;
use crate::op::{folds, OperationView, PieceView};
use crate::streaming::PieceProgressView;
use crate::wire::{Event, Step};

verus! {

impl PieceDecodingView {
    /// Where the decoding stands after the events, one after the other. The
    /// decoding ends with the event that completes the work item, or with
    /// the first failure.
    pub open spec fn run(self, events: Seq<Event>) -> Result<
        Step<PieceDecodingView, PieceView>,
        Error,
    >
        decreases events.len(),
    {
        if events.len() == 0 {
            Ok(Step::Pending(self))
        } else {
            match self.after(events[0]) {
                Ok(Step::Pending(next)) => next.run(events.drop_first()),
                other => other,
            }
        }
    }

    /// Where the decoding stands after the events, and how many of them it
    /// took.
    pub open spec fn walk(self, events: Seq<Event>) -> (
        Result<Step<PieceDecodingView, PieceView>, Error>,
        nat,
    )
        decreases events.len(),
    {
        if events.len() == 0 {
            (Ok(Step::Pending(self)), 0)
        } else {
            match self.after(events[0]) {
                Ok(Step::Pending(next)) => {
                    let (end, taken) = next.walk(events.drop_first());
                    (end, taken + 1)
                },
                other => (other, 1),
            }
        }
    }

    /// The number of operations decoded so far.
    pub open spec fn decoded(self) -> nat {
        match self {
            PieceDecodingView::OpElement(piece) | PieceDecodingView::Op(piece, _)
            | PieceDecodingView::OpArrayEnd(piece) | PieceDecodingView::ObjectEnd(piece) =>
                piece.op.len(),
            _ => 0,
        }
    }
}

impl PieceProgressView {
    /// The outcomes `out` that the events may have, one after the other,
    /// with `dot` as the kernel. The run ends with the event that completes
    /// the work item, or with the first failure.
    pub open spec fn runs<F: Fn(&[u64], &[u64]) -> u64>(
        self,
        events: Seq<Event>,
        dot: &F,
        out: Result<Step<PieceProgressView, MatrixView>, Error>,
    ) -> bool
        decreases events.len(),
    {
        if events.len() == 0 {
            out == Ok::<Step<PieceProgressView, MatrixView>, Error>(Step::Pending(self))
        } else {
            exists|step: Result<Step<PieceProgressView, MatrixView>, Error>| #[trigger]
                self.advances(events[0], dot, step) && match step {
                    Ok(Step::Pending(next)) => next.runs(events.drop_first(), dot, out),
                    _ => out == step,
                }
        }
    }

    /// The running result, or `lhs` while there is none yet.
    pub open spec fn running_or(self, lhs: MatrixView) -> MatrixView {
        match self {
            PieceProgressView::KeyOp(m) | PieceProgressView::OpArrayStart(m)
            | PieceProgressView::OpArrayEnd(m) | PieceProgressView::ObjectEnd(m) => m,
            PieceProgressView::OpElement { running, .. } | PieceProgressView::Op { running, .. } =>
                running,
            _ => lhs,
        }
    }
}

/// A walk comes to where the run comes to.
pub proof fn lemma_walk_runs(b: PieceDecodingView, events: Seq<Event>)
    ensures
        b.walk(events).0 == b.run(events),
    decreases events.len(),
{
    if events.len() > 0 {
        if let Ok(Step::Pending(next)) = b.after(events[0]) {
            lemma_walk_runs(next, events.drop_first());
        }
    }
}

/// The outcome of a work item whose fold had the outcome `res`.
pub open spec fn lift(res: Result<MatrixView, Error>) -> Result<
    Step<PieceProgressView, MatrixView>,
    Error,
> {
    match res {
        Ok(m) => Ok(Step::Done(m)),
        Err(e) => Err(e),
    }
}

/// The work item ends with `out` when the operations `future` are folded
/// over the running result.
pub open spec fn finishes<F: Fn(&[u64], &[u64]) -> u64>(
    dot: &F,
    running: MatrixView,
    future: Seq<OperationView>,
    out: Result<Step<PieceProgressView, MatrixView>, Error>,
) -> bool {
    exists|res: Result<MatrixView, Error>| #[trigger]
        folds(dot, running, future, res) && out == lift(res)
}

/// The streaming driver and the batch decoder stand at the same place of
/// the same work item.
pub open spec fn paired(s: PieceProgressView, b: PieceDecodingView) -> bool {
    match (s, b) {
        (PieceProgressView::ObjectStart, PieceDecodingView::ObjectStart) => true,
        (PieceProgressView::KeyLhs, PieceDecodingView::KeyLhs) => true,
        (PieceProgressView::Lhs(p), PieceDecodingView::Lhs(q)) => p == q,
        (PieceProgressView::KeyOp(m), PieceDecodingView::KeyOp(lhs)) => m == lhs,
        (PieceProgressView::OpArrayStart(m), PieceDecodingView::OpArrayStart(lhs)) => m == lhs,
        (PieceProgressView::OpElement { count, .. }, PieceDecodingView::OpElement(piece)) => count
            == piece.op.len(),
        (PieceProgressView::Op { count, op, .. }, PieceDecodingView::Op(piece, q)) => op == q
            && count == piece.op.len() + 1,
        (PieceProgressView::OpArrayEnd(_), PieceDecodingView::OpArrayEnd(_)) => true,
        (PieceProgressView::ObjectEnd(_), PieceDecodingView::ObjectEnd(_)) => true,
        _ => false,
    }
}

/// A run over an event that completes no operation goes where the decoding
/// goes.
proof fn lemma_runs_plain<F: Fn(&[u64], &[u64]) -> u64>(
    s: PieceProgressView,
    events: Seq<Event>,
    dot: &F,
    out: Result<Step<PieceProgressView, MatrixView>, Error>,
)
    requires
        events.len() > 0,
        s.completes(events[0]) is None,
    ensures
        s.runs(events, dot, out) <==> match s.after(events[0]) {
            Ok(Step::Pending(next)) => next.runs(events.drop_first(), dot, out),
            other => out == other,
        },
{
    let step = s.after(events[0]);
    assert(s.advances(events[0], dot, step));
    if s.runs(events, dot, out) {
        let taken = choose|taken: Result<Step<PieceProgressView, MatrixView>, Error>| #[trigger]
            s.advances(events[0], dot, taken) && match taken {
                Ok(Step::Pending(next)) => next.runs(events.drop_first(), dot, out),
                _ => out == taken,
            };
    }
}

/// A run over an event that completes an operation goes on with the result
/// of that operation as the running result, or ends with its failure.
proof fn lemma_runs_evaluating<F: Fn(&[u64], &[u64]) -> u64>(
    s: PieceProgressView,
    events: Seq<Event>,
    dot: &F,
    out: Result<Step<PieceProgressView, MatrixView>, Error>,
)
    requires
        events.len() > 0,
        s.completes(events[0]) is Some,
    ensures
        s.runs(events, dot, out) <==> exists|res: Result<MatrixView, Error>| #[trigger]
            s.completes(events[0])->Some_0.evaluates(dot, s->Op_running, res) && match res {
                Ok(m) => (PieceProgressView::OpElement { running: m, count: s->Op_count }).runs(
                    events.drop_first(),
                    dot,
                    out,
                ),
                Err(e) => out == Err::<Step<PieceProgressView, MatrixView>, Error>(e),
            },
{
    let done = s.completes(events[0])->Some_0;
    let rest = events.drop_first();
    if s.runs(events, dot, out) {
        let taken = choose|taken: Result<Step<PieceProgressView, MatrixView>, Error>| #[trigger]
            s.advances(events[0], dot, taken) && match taken {
                Ok(Step::Pending(next)) => next.runs(rest, dot, out),
                _ => out == taken,
            };
        let res = choose|res: Result<MatrixView, Error>| #[trigger]
            done.evaluates(dot, s->Op_running, res) && taken == s.resumed(res);
    }
    if exists|res: Result<MatrixView, Error>| #[trigger]
        done.evaluates(dot, s->Op_running, res) && match res {
            Ok(m) => (PieceProgressView::OpElement { running: m, count: s->Op_count }).runs(
                rest,
                dot,
                out,
            ),
            Err(e) => out == Err::<Step<PieceProgressView, MatrixView>, Error>(e),
        } {
        let res = choose|res: Result<MatrixView, Error>| #[trigger]
            done.evaluates(dot, s->Op_running, res) && match res {
                Ok(m) => (PieceProgressView::OpElement { running: m, count: s->Op_count }).runs(
                    rest,
                    dot,
                    out,
                ),
                Err(e) => out == Err::<Step<PieceProgressView, MatrixView>, Error>(e),
            };
        let taken = s.resumed(res);
        assert(s.advances(events[0], dot, taken));
    }
}

/// What the batch decoder has decoded stays: the work item that it
/// completes has the left-hand matrix that was decoded, and begins with the
/// operations that were decoded.
pub proof fn lemma_batch_keeps(b: PieceDecodingView, events: Seq<Event>, whole: PieceView)
    requires
        b.run(events) == Ok::<Step<PieceDecodingView, PieceView>, Error>(Step::Done(whole)),
    ensures
        b matches PieceDecodingView::KeyOp(lhs) ==> whole.lhs == lhs,
        b matches PieceDecodingView::OpArrayStart(lhs) ==> whole.lhs == lhs,
        b.decoded() <= whole.op.len(),
        b is OpElement || b is Op || b is OpArrayEnd || b is ObjectEnd ==> {
            let piece = match b {
                PieceDecodingView::OpElement(piece) => piece,
                PieceDecodingView::Op(piece, _) => piece,
                PieceDecodingView::OpArrayEnd(piece) => piece,
                PieceDecodingView::ObjectEnd(piece) => piece,
                _ => whole,
            };
            whole.lhs == piece.lhs && whole.op.take(piece.op.len() as int) == piece.op
        },
    decreases events.len(),
{
    if events.len() > 0 {
        if let Ok(Step::Pending(next)) = b.after(events[0]) {
            lemma_batch_keeps(next, events.drop_first(), whole);
        }
    }
}

/// From any place of a work item on, streaming comes to exactly the
/// outcomes that the fold of the operations still to come has over the
/// running result.
proof fn lemma_agree<F: Fn(&[u64], &[u64]) -> u64>(
    s: PieceProgressView,
    b: PieceDecodingView,
    events: Seq<Event>,
    dot: &F,
    whole: PieceView,
    out: Result<Step<PieceProgressView, MatrixView>, Error>,
)
    requires
        paired(s, b),
        b.run(events) == Ok::<Step<PieceDecodingView, PieceView>, Error>(Step::Done(whole)),
    ensures
        s.runs(events, dot, out) <==> finishes(
            dot,
            s.running_or(whole.lhs),
            whole.op.skip(b.decoded() as int),
            out,
        ),
    decreases events.len(),
{
    let event = events[0];
    let rest = events.drop_first();
    let running = s.running_or(whole.lhs);
    let future = whole.op.skip(b.decoded() as int);
    lemma_batch_keeps(b, events, whole);
    match b.after(event) {
        Ok(Step::Done(_)) => {
            lemma_runs_plain(s, events, dot, out);
            assert(folds(dot, running, future, Ok(running)));
        },
        Ok(Step::Pending(b2)) => {
            lemma_batch_keeps(b2, rest, whole);
            match s.completes(event) {
                None => {
                    lemma_runs_plain(s, events, dot, out);
                    let s2 = s.after(event)->Ok_0->Pending_0;
                    lemma_agree(s2, b2, rest, dot, whole, out);
                },
                Some(done) => {
                    lemma_runs_evaluating(s, events, dot, out);
                    let k = b.decoded() as int;
                    let count = s->Op_count;
                    let later = whole.op.skip(k + 1);
                    assert(whole.op.take(k + 1)[k] == done);
                    assert(future.drop_first() =~= later);
                    if s.runs(events, dot, out) {
                        let res = choose|res: Result<MatrixView, Error>| #[trigger]
                            done.evaluates(dot, running, res) && match res {
                                Ok(m) => (PieceProgressView::OpElement { running: m, count }).runs(
                                    rest,
                                    dot,
                                    out,
                                ),
                                Err(e) => out == Err::<
                                    Step<PieceProgressView, MatrixView>,
                                    Error,
                                >(e),
                            };
                        match res {
                            Ok(m) => {
                                let s2 = PieceProgressView::OpElement { running: m, count };
                                lemma_agree(s2, b2, rest, dot, whole, out);
                                let end = choose|end: Result<MatrixView, Error>| #[trigger]
                                    folds(dot, m, later, end) && out == lift(end);
                                assert(folds(dot, running, future, end) && out == lift(end));
                            },
                            Err(e) => {
                                let end = Err::<MatrixView, Error>(e);
                                assert(folds(dot, running, future, end) && out == lift(end));
                            },
                        }
                    }
                    if finishes(dot, running, future, out) {
                        let end = choose|end: Result<MatrixView, Error>| #[trigger]
                            folds(dot, running, future, end) && out == lift(end);
                        let res = choose|res: Result<MatrixView, Error>| #[trigger]
                            future[0].evaluates(dot, running, res) && match res {
                                Ok(m) => folds(dot, m, future.drop_first(), end),
                                Err(e) => end == Err::<MatrixView, Error>(e),
                            };
                        match res {
                            Ok(m) => {
                                let s2 = PieceProgressView::OpElement { running: m, count };
                                lemma_agree(s2, b2, rest, dot, whole, out);
                            },
                            Err(e) => {},
                        }
                    }
                },
            }
        },
        Err(_) => {},
    }
}

/// The two modes agree. If the batch decoder reads the work item `whole`
/// from the events, then the streaming driver comes, on the same events, to
/// exactly the outcomes of folding the operations of `whole` over its
/// left-hand matrix: the result of the fold, or its failure.
pub proof fn lemma_modes_agree<F: Fn(&[u64], &[u64]) -> u64>(
    events: Seq<Event>,
    dot: &F,
    whole: PieceView,
    out: Result<Step<PieceProgressView, MatrixView>, Error>,
)
    requires
        PieceDecodingView::start().run(events) == Ok::<Step<PieceDecodingView, PieceView>, Error>(
            Step::Done(whole),
        ),
    ensures
        PieceProgressView::start().runs(events, dot, out) <==> finishes(
            dot,
            whole.lhs,
            whole.op,
            out,
        ),
{
    lemma_agree(PieceProgressView::start(), PieceDecodingView::start(), events, dot, whole, out);
    assert(whole.op.skip(0) =~= whole.op);
}

/// How a run that came to `mid` goes on over further events: from where it
/// stands while the work item is pending, and no further once the work item
/// is complete or failed.
pub open spec fn resumes<F: Fn(&[u64], &[u64]) -> u64>(
    mid: Result<Step<PieceProgressView, MatrixView>, Error>,
    events: Seq<Event>,
    dot: &F,
    out: Result<Step<PieceProgressView, MatrixView>, Error>,
) -> bool {
    match mid {
        Ok(Step::Pending(next)) => next.runs(events, dot, out),
        _ => out == mid,
    }
}

/// The driver can be fed in any portions: to run over `first` followed by
/// `second` is to run over `first`, and on from there over `second`.
pub proof fn lemma_runs_resume<F: Fn(&[u64], &[u64]) -> u64>(
    s: PieceProgressView,
    first: Seq<Event>,
    second: Seq<Event>,
    dot: &F,
    out: Result<Step<PieceProgressView, MatrixView>, Error>,
)
    ensures
        s.runs(first + second, dot, out) <==> exists|
            mid: Result<Step<PieceProgressView, MatrixView>, Error>,
        | #[trigger] s.runs(first, dot, mid) && resumes(mid, second, dot, out),
    decreases first.len(),
{
    let all = first + second;
    let here = Ok::<Step<PieceProgressView, MatrixView>, Error>(Step::Pending(s));
    if first.len() == 0 {
        if s.runs(all, dot, out) {
            assert(s.runs(first, dot, here) && resumes(here, second, dot, out));
        }
    } else {
        let rest = first.drop_first();
        assert(all.drop_first() =~= rest + second);
        if s.runs(all, dot, out) {
            let step = choose|step: Result<Step<PieceProgressView, MatrixView>, Error>| #[trigger]
                s.advances(all[0], dot, step) && match step {
                    Ok(Step::Pending(next)) => next.runs(all.drop_first(), dot, out),
                    _ => out == step,
                };
            match step {
                Ok(Step::Pending(next)) => {
                    lemma_runs_resume(next, rest, second, dot, out);
                    let mid = choose|mid: Result<Step<PieceProgressView, MatrixView>, Error>|
                        #[trigger] next.runs(rest, dot, mid) && resumes(mid, second, dot, out);
                    assert(s.runs(first, dot, mid) && resumes(mid, second, dot, out));
                },
                _ => {
                    assert(s.runs(first, dot, step) && resumes(step, second, dot, out));
                },
            }
        }
        if exists|mid: Result<Step<PieceProgressView, MatrixView>, Error>| #[trigger]
            s.runs(first, dot, mid) && resumes(mid, second, dot, out) {
            let mid = choose|mid: Result<Step<PieceProgressView, MatrixView>, Error>| #[trigger]
                s.runs(first, dot, mid) && resumes(mid, second, dot, out);
            let step = choose|step: Result<Step<PieceProgressView, MatrixView>, Error>| #[trigger]
                s.advances(first[0], dot, step) && match step {
                    Ok(Step::Pending(next)) => next.runs(first.drop_first(), dot, mid),
                    _ => mid == step,
                };
            match step {
                Ok(Step::Pending(next)) => {
                    lemma_runs_resume(next, rest, second, dot, out);
                },
                _ => {},
            }
        }
    }
}

/// The batch decoder can be fed in any portions: to decode `first` followed
/// by `second` is to decode `first`, and on from there `second`.
pub proof fn lemma_run_resume(b: PieceDecodingView, first: Seq<Event>, second: Seq<Event>)
    ensures
        b.run(first + second) == match b.run(first) {
            Ok(Step::Pending(next)) => next.run(second),
            other => other,
        },
    decreases first.len(),
{
    let all = first + second;
    if first.len() == 0 {
    } else {
        assert(all.drop_first() =~= first.drop_first() + second);
        match b.after(first[0]) {
            Ok(Step::Pending(next)) => {
                lemma_run_resume(next, first.drop_first(), second);
            },
            _ => {},
        }
    }
}

} // verus!
