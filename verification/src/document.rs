//! Whole documents: an array of work items, read by the streaming driver.
//!
//! On the reader answers that spell a document, the driver yields the
//! results of the work items in the order of the document, each the fold of
//! that work item, and then the end of the stream; the first failure of a
//! fold ends the stream with that failure.

use vstd::prelude::*;
use crate::batch::PieceDecodingView;
use crate::error::Error;
use crate::matrix::MatrixView;
use crate::modes::{lemma_batch_keeps, lemma_walk_runs, paired};
use crate::op::{
    folds, kernel_functional, lemma_folds_once, OperationView, PieceOfWork, PieceView,
};
use crate::reader::{StreamView, Yield};
use crate::spelling::{
    lemma_piece_spelled, matrix_len, operation_len, piece_wf, spell_piece, spells_operations,
    spells_piece,
};
use crate::streaming::PieceProgressView;
use crate::wire::{Event, Step};

verus! {

impl StreamView {
    /// The driver may come to the state `end` over the events, one after the
    /// other, and yield the results `items` on the way, in this order, with
    /// `dot` as the kernel.
    pub open spec fn streams<F: Fn(&[u64], &[u64]) -> u64>(
        self,
        events: Seq<Event>,
        dot: &F,
        end: StreamView,
        items: Seq<MatrixView>,
    ) -> bool
        decreases events.len(),
    {
        if events.len() == 0 {
            end == self && items.len() == 0
        } else {
            exists|turn: (StreamView, Result<Yield<MatrixView>, Error>)| #[trigger]
                self.advances(events[0], dot, turn.0, turn.1) && match turn.1 {
                    Ok(Yield::Item(m)) => items.len() > 0 && items[0] == m && turn.0.streams(
                        events.drop_first(),
                        dot,
                        end,
                        items.drop_first(),
                    ),
                    _ => turn.0.streams(events.drop_first(), dot, end, items),
                }
        }
    }
}

/// What a document of the given work items comes to: the results `items` of
/// the work items, in the order of the document, and the state `end` of the
/// stream. Every work item is folded by itself; the stream is finished
/// behind the last one, and failed at the first fold that fails.
pub open spec fn document_yields<F: Fn(&[u64], &[u64]) -> u64>(
    dot: &F,
    pieces: Seq<PieceView>,
    end: StreamView,
    items: Seq<MatrixView>,
) -> bool
    decreases pieces.len(),
{
    if pieces.len() == 0 {
        end == StreamView::Finished && items.len() == 0
    } else {
        exists|res: Result<MatrixView, Error>| #[trigger]
            folds(dot, pieces[0].lhs, pieces[0].op, res) && match res {
                Ok(m) => items.len() > 0 && items[0] == m && document_yields(
                    dot,
                    pieces.drop_first(),
                    end,
                    items.drop_first(),
                ),
                Err(e) => end == StreamView::Failed(e) && items.len() == 0,
            }
    }
}

/// The number of reader answers from the operation array of a work item to
/// its end.
pub open spec fn operations_len(ops: Seq<OperationView>) -> nat
    decreases ops.len(),
{
    if ops.len() == 0 {
        3
    } else {
        1 + operation_len(ops[0]) + operations_len(ops.drop_first())
    }
}

/// The number of reader answers that spell a work item.
pub open spec fn piece_len(piece: PieceView) -> nat {
    4 + matrix_len(piece.lhs) + operations_len(piece.op)
}

/// The events are the answers that a reader gives within the array of a
/// document, from the first of the given work items on: for every work item
/// the answer that one follows and the work item itself, and then the
/// answer that none follows.
pub open spec fn spells_pieces(events: Seq<Event>, pieces: Seq<PieceView>) -> bool
    decreases pieces.len(),
{
    if pieces.len() == 0 {
        events.len() == 1 && events[0] == Event::More(false)
    } else {
        let len = piece_len(pieces[0]) as int;
        &&& events.len() > len
        &&& events[0] == Event::More(true)
        &&& spells_piece(events.subrange(1, 1 + len), pieces[0])
        &&& spells_pieces(events.skip(1 + len), pieces.drop_first())
    }
}

/// The events are the answers that a reader gives on the text of the
/// document that holds the given work items: the opening bracket of the
/// array, and the work items to the end of the array.
pub open spec fn spells_document(events: Seq<Event>, pieces: Seq<PieceView>) -> bool {
    &&& events.len() > 0
    &&& events[0] is Ack
    &&& spells_pieces(events.skip(1), pieces)
}

/// A failed stream stays failed and yields nothing.
pub proof fn lemma_failed_stays<F: Fn(&[u64], &[u64]) -> u64>(
    e: Error,
    events: Seq<Event>,
    dot: &F,
    end: StreamView,
    items: Seq<MatrixView>,
)
    ensures
        StreamView::Failed(e).streams(events, dot, end, items) <==> end == StreamView::Failed(e)
            && items.len() == 0,
    decreases events.len(),
{
    let s = StreamView::Failed(e);
    if events.len() > 0 {
        let rest = events.drop_first();
        let stay = (s, Err::<Yield<MatrixView>, Error>(e));
        lemma_failed_stays(e, rest, dot, end, items);
        if s.streams(events, dot, end, items) {
            let turn = choose|turn: (StreamView, Result<Yield<MatrixView>, Error>)| #[trigger]
                s.advances(events[0], dot, turn.0, turn.1) && match turn.1 {
                    Ok(Yield::Item(m)) => items.len() > 0 && items[0] == m && turn.0.streams(
                        rest,
                        dot,
                        end,
                        items.drop_first(),
                    ),
                    _ => turn.0.streams(rest, dot, end, items),
                };
        }
        if end == s && items.len() == 0 {
            assert(s.advances(events[0], dot, stay.0, stay.1));
        }
    }
}

/// How a stream goes on after a step of the work item that it is within.
pub open spec fn carries_on<F: Fn(&[u64], &[u64]) -> u64>(
    step: Result<Step<PieceProgressView, MatrixView>, Error>,
    events: Seq<Event>,
    dot: &F,
    end: StreamView,
    items: Seq<MatrixView>,
) -> bool {
    match step {
        Ok(Step::Pending(next)) => StreamView::Within(next).streams(events, dot, end, items),
        Ok(Step::Done(m)) => items.len() > 0 && items[0] == m && StreamView::Between.streams(
            events,
            dot,
            end,
            items.drop_first(),
        ),
        Err(e) => StreamView::Failed(e).streams(events, dot, end, items),
    }
}

/// Within a work item, the stream goes the way of the work item.
proof fn lemma_streams_within<F: Fn(&[u64], &[u64]) -> u64>(
    s: PieceProgressView,
    events: Seq<Event>,
    dot: &F,
    end: StreamView,
    items: Seq<MatrixView>,
)
    requires
        events.len() > 0,
    ensures
        StreamView::Within(s).streams(events, dot, end, items) <==> exists|
            step: Result<Step<PieceProgressView, MatrixView>, Error>,
        | #[trigger]
            s.advances(events[0], dot, step) && carries_on(
                step,
                events.drop_first(),
                dot,
                end,
                items,
            ),
{
    let w = StreamView::Within(s);
    let rest = events.drop_first();
    if w.streams(events, dot, end, items) {
        let turn = choose|turn: (StreamView, Result<Yield<MatrixView>, Error>)| #[trigger]
            w.advances(events[0], dot, turn.0, turn.1) && match turn.1 {
                Ok(Yield::Item(m)) => items.len() > 0 && items[0] == m && turn.0.streams(
                    rest,
                    dot,
                    end,
                    items.drop_first(),
                ),
                _ => turn.0.streams(rest, dot, end, items),
            };
        let step = choose|step: Result<Step<PieceProgressView, MatrixView>, Error>| #[trigger]
            s.advances(events[0], dot, step) && turn.0 == StreamView::moved(step) && turn.1
                == StreamView::yielded(step);
    }
    if exists|step: Result<Step<PieceProgressView, MatrixView>, Error>| #[trigger]
        s.advances(events[0], dot, step) && carries_on(step, rest, dot, end, items) {
        let step = choose|step: Result<Step<PieceProgressView, MatrixView>, Error>| #[trigger]
            s.advances(events[0], dot, step) && carries_on(step, rest, dot, end, items);
        let turn = (StreamView::moved(step), StreamView::yielded(step));
        assert(w.advances(events[0], dot, turn.0, turn.1));
    }
}

/// The stream closes the work item that it is within by folding the
/// operations `future` over the running result: with the result of the fold
/// as the next item and the stream going on between two work items, or with
/// its failure as the failure of the stream.
pub open spec fn closes<F: Fn(&[u64], &[u64]) -> u64>(
    dot: &F,
    running: MatrixView,
    future: Seq<OperationView>,
    tail: Seq<Event>,
    end: StreamView,
    items: Seq<MatrixView>,
) -> bool {
    exists|res: Result<MatrixView, Error>| #[trigger]
        folds(dot, running, future, res) && match res {
            Ok(m) => items.len() > 0 && items[0] == m && StreamView::Between.streams(
                tail,
                dot,
                end,
                items.drop_first(),
            ),
            Err(e) => end == StreamView::Failed(e) && items.len() == 0,
        }
}

/// From any place within a work item that the events `inner` spell to its
/// end, the stream closes the work item over `inner` and goes on over
/// `tail`.
proof fn lemma_within<F: Fn(&[u64], &[u64]) -> u64>(
    s: PieceProgressView,
    b: PieceDecodingView,
    inner: Seq<Event>,
    tail: Seq<Event>,
    dot: &F,
    whole: PieceView,
    end: StreamView,
    items: Seq<MatrixView>,
)
    requires
        paired(s, b),
        b.walk(inner) == (
            Ok::<Step<PieceDecodingView, PieceView>, Error>(Step::Done(whole)),
            inner.len(),
        ),
    ensures
        StreamView::Within(s).streams(inner + tail, dot, end, items) <==> closes(
            dot,
            s.running_or(whole.lhs),
            whole.op.skip(b.decoded() as int),
            tail,
            end,
            items,
        ),
    decreases inner.len(),
{
    let events = inner + tail;
    let event = inner[0];
    let rest = inner.drop_first();
    let running = s.running_or(whole.lhs);
    let future = whole.op.skip(b.decoded() as int);
    assert(events.drop_first() =~= rest + tail);
    lemma_walk_runs(b, inner);
    lemma_batch_keeps(b, inner, whole);
    lemma_streams_within(s, events, dot, end, items);
    match b.after(event) {
        Ok(Step::Done(_)) => {
            let step = s.after(event);
            let res = Ok::<MatrixView, Error>(running);
            assert(s.advances(event, dot, step));
            assert(folds(dot, running, future, res));
            if StreamView::Within(s).streams(events, dot, end, items) {
                let taken = choose|taken: Result<Step<PieceProgressView, MatrixView>, Error>|
                    #[trigger] s.advances(event, dot, taken) && carries_on(
                        taken,
                        events.drop_first(),
                        dot,
                        end,
                        items,
                    );
            }
        },
        Ok(Step::Pending(b2)) => {
            lemma_walk_runs(b2, rest);
            lemma_batch_keeps(b2, rest, whole);
            match s.completes(event) {
                None => {
                    let step = s.after(event);
                    let s2 = step->Ok_0->Pending_0;
                    assert(s.advances(event, dot, step));
                    lemma_within(s2, b2, rest, tail, dot, whole, end, items);
                    if StreamView::Within(s).streams(events, dot, end, items) {
                        let taken = choose|
                            taken: Result<Step<PieceProgressView, MatrixView>, Error>,
                        | #[trigger]
                            s.advances(event, dot, taken) && carries_on(
                                taken,
                                events.drop_first(),
                                dot,
                                end,
                                items,
                            );
                    }
                },
                Some(done) => {
                    let k = b.decoded() as int;
                    let count = s->Op_count;
                    let later = whole.op.skip(k + 1);
                    assert(whole.op.take(k + 1)[k] == done);
                    assert(future.drop_first() =~= later);
                    if StreamView::Within(s).streams(events, dot, end, items) {
                        let taken = choose|
                            taken: Result<Step<PieceProgressView, MatrixView>, Error>,
                        | #[trigger]
                            s.advances(event, dot, taken) && carries_on(
                                taken,
                                events.drop_first(),
                                dot,
                                end,
                                items,
                            );
                        let res = choose|res: Result<MatrixView, Error>| #[trigger]
                            done.evaluates(dot, running, res) && taken == s.resumed(res);
                        match res {
                            Ok(m) => {
                                let s2 = PieceProgressView::OpElement { running: m, count };
                                lemma_within(s2, b2, rest, tail, dot, whole, end, items);
                                let fin = choose|fin: Result<MatrixView, Error>| #[trigger]
                                    folds(dot, m, later, fin) && match fin {
                                        Ok(r) => items.len() > 0 && items[0] == r
                                            && StreamView::Between.streams(
                                            tail,
                                            dot,
                                            end,
                                            items.drop_first(),
                                        ),
                                        Err(e) => end == StreamView::Failed(e) && items.len()
                                            == 0,
                                    };
                                assert(folds(dot, running, future, fin));
                            },
                            Err(e) => {
                                let fin = Err::<MatrixView, Error>(e);
                                lemma_failed_stays(e, events.drop_first(), dot, end, items);
                                assert(folds(dot, running, future, fin));
                            },
                        }
                    }
                    if closes(dot, running, future, tail, end, items) {
                        let fin = choose|fin: Result<MatrixView, Error>| #[trigger]
                            folds(dot, running, future, fin) && match fin {
                                Ok(r) => items.len() > 0 && items[0] == r
                                    && StreamView::Between.streams(
                                    tail,
                                    dot,
                                    end,
                                    items.drop_first(),
                                ),
                                Err(e) => end == StreamView::Failed(e) && items.len() == 0,
                            };
                        let res = choose|res: Result<MatrixView, Error>| #[trigger]
                            future[0].evaluates(dot, running, res) && match res {
                                Ok(m) => folds(dot, m, future.drop_first(), fin),
                                Err(e) => fin == Err::<MatrixView, Error>(e),
                            };
                        let step = s.resumed(res);
                        assert(s.advances(event, dot, step));
                        match res {
                            Ok(m) => {
                                let s2 = PieceProgressView::OpElement { running: m, count };
                                lemma_within(s2, b2, rest, tail, dot, whole, end, items);
                            },
                            Err(e) => {
                                lemma_failed_stays(e, events.drop_first(), dot, end, items);
                            },
                        }
                    }
                },
            }
        },
        Err(_) => {},
    }
}

/// Between two work items, on the events that spell the rest of a document,
/// the driver comes to exactly what the work items still to come yield.
proof fn lemma_pieces<F: Fn(&[u64], &[u64]) -> u64>(
    events: Seq<Event>,
    pieces: Seq<PieceView>,
    dot: &F,
    end: StreamView,
    items: Seq<MatrixView>,
)
    requires
        spells_pieces(events, pieces),
        forall|i: int| 0 <= i < pieces.len() ==> piece_wf(#[trigger] pieces[i]),
    ensures
        StreamView::Between.streams(events, dot, end, items) <==> document_yields(
            dot,
            pieces,
            end,
            items,
        ),
    decreases pieces.len(),
{
    let s = StreamView::Between;
    let rest = events.drop_first();
    if pieces.len() == 0 {
        let turn = (StreamView::Finished, Ok::<Yield<MatrixView>, Error>(Yield::End));
        if s.streams(events, dot, end, items) {
            let taken = choose|taken: (StreamView, Result<Yield<MatrixView>, Error>)| #[trigger]
                s.advances(events[0], dot, taken.0, taken.1) && match taken.1 {
                    Ok(Yield::Item(m)) => items.len() > 0 && items[0] == m && taken.0.streams(
                        rest,
                        dot,
                        end,
                        items.drop_first(),
                    ),
                    _ => taken.0.streams(rest, dot, end, items),
                };
        }
        if document_yields(dot, pieces, end, items) {
            assert(s.advances(events[0], dot, turn.0, turn.1) && match turn.1 {
                Ok(Yield::Item(m)) => items.len() > 0 && items[0] == m && turn.0.streams(
                    rest,
                    dot,
                    end,
                    items.drop_first(),
                ),
                _ => turn.0.streams(rest, dot, end, items),
            });
        }
    } else {
        let piece = pieces[0];
        let len = piece_len(piece) as int;
        let inner = events.subrange(1, 1 + len);
        let tail = events.skip(1 + len);
        let start = PieceProgressView::start();
        let turn = (StreamView::Within(start), Ok::<Yield<MatrixView>, Error>(Yield::Pending));
        assert(rest =~= inner + tail);
        assert(piece.op.skip(0) =~= piece.op);
        assert(s.advances(events[0], dot, turn.0, turn.1));
        lemma_piece_spelled(inner, piece);
        lemma_within(start, PieceDecodingView::start(), inner, tail, dot, piece, end, items);
        assert forall|i: int| 0 <= i < pieces.drop_first().len() implies piece_wf(
            #[trigger] pieces.drop_first()[i],
        ) by {}
        if s.streams(events, dot, end, items) {
            let taken = choose|taken: (StreamView, Result<Yield<MatrixView>, Error>)| #[trigger]
                s.advances(events[0], dot, taken.0, taken.1) && match taken.1 {
                    Ok(Yield::Item(m)) => items.len() > 0 && items[0] == m && taken.0.streams(
                        rest,
                        dot,
                        end,
                        items.drop_first(),
                    ),
                    _ => taken.0.streams(rest, dot, end, items),
                };
            let res = choose|res: Result<MatrixView, Error>| #[trigger]
                folds(dot, piece.lhs, piece.op, res) && match res {
                    Ok(m) => items.len() > 0 && items[0] == m && StreamView::Between.streams(
                        tail,
                        dot,
                        end,
                        items.drop_first(),
                    ),
                    Err(e) => end == StreamView::Failed(e) && items.len() == 0,
                };
            if res is Ok {
                lemma_pieces(tail, pieces.drop_first(), dot, end, items.drop_first());
            }
        }
        if document_yields(dot, pieces, end, items) {
            let res = choose|res: Result<MatrixView, Error>| #[trigger]
                folds(dot, pieces[0].lhs, pieces[0].op, res) && match res {
                    Ok(m) => items.len() > 0 && items[0] == m && document_yields(
                        dot,
                        pieces.drop_first(),
                        end,
                        items.drop_first(),
                    ),
                    Err(e) => end == StreamView::Failed(e) && items.len() == 0,
                };
            if res is Ok {
                lemma_pieces(tail, pieces.drop_first(), dot, end, items.drop_first());
            }
        }
    }
}

/// On the events that spell a document, the streaming driver yields exactly
/// the results that the work items of the document yield, in the order of
/// the document, and ends where they end: finished behind the last work
/// item, or failed at the first fold that fails.
pub proof fn lemma_document<F: Fn(&[u64], &[u64]) -> u64>(
    events: Seq<Event>,
    pieces: Seq<PieceView>,
    dot: &F,
    end: StreamView,
    items: Seq<MatrixView>,
)
    requires
        spells_document(events, pieces),
        forall|i: int| 0 <= i < pieces.len() ==> piece_wf(#[trigger] pieces[i]),
    ensures
        StreamView::Fresh.streams(events, dot, end, items) <==> document_yields(
            dot,
            pieces,
            end,
            items,
        ),
{
    let s = StreamView::Fresh;
    let rest = events.drop_first();
    let turn = (StreamView::Between, Ok::<Yield<MatrixView>, Error>(Yield::Pending));
    assert(s.advances(events[0], dot, turn.0, turn.1));
    lemma_pieces(rest, pieces, dot, end, items);
    if s.streams(events, dot, end, items) {
        let taken = choose|taken: (StreamView, Result<Yield<MatrixView>, Error>)| #[trigger]
            s.advances(events[0], dot, taken.0, taken.1) && match taken.1 {
                Ok(Yield::Item(m)) => items.len() > 0 && items[0] == m && taken.0.streams(
                    rest,
                    dot,
                    end,
                    items.drop_first(),
                ),
                _ => taken.0.streams(rest, dot, end, items),
            };
    }
}

/// The events that spell the operations of a work item to its end are as
/// many as `operations_len` says.
proof fn lemma_operations_len(events: Seq<Event>, ops: Seq<OperationView>)
    requires
        spells_operations(events, ops),
    ensures
        events.len() == operations_len(ops),
    decreases ops.len(),
{
    if ops.len() > 0 {
        let len = operation_len(ops[0]) as int;
        lemma_operations_len(events.skip(1 + len), ops.drop_first());
    }
}

/// The events that spell a work item are as many as `piece_len` says.
pub proof fn lemma_piece_len(events: Seq<Event>, piece: PieceView)
    requires
        spells_piece(events, piece),
    ensures
        events.len() == piece_len(piece),
{
    lemma_operations_len(events.skip(4 + matrix_len(piece.lhs) as int), piece.op);
}

/// The views of a run of work items.
pub open spec fn piece_views(pieces: Seq<PieceOfWork>) -> Seq<PieceView> {
    pieces.map_values(|piece: PieceOfWork| piece@)
}

/// A work item in front of spelled work items is spelled by the answer that
/// one follows, its own answers, and theirs.
proof fn lemma_spells_one_more(
    events: Seq<Event>,
    spelled: Seq<Event>,
    later: Seq<Event>,
    pieces: Seq<PieceView>,
)
    requires
        pieces.len() > 0,
        spells_piece(spelled, pieces[0]),
        spells_pieces(later, pieces.drop_first()),
        events == seq![Event::More(true)] + spelled + later,
    ensures
        spells_pieces(events, pieces),
{
    let len = piece_len(pieces[0]) as int;
    lemma_piece_len(spelled, pieces[0]);
    assert(events.subrange(1, 1 + len) =~= spelled);
    assert(events.skip(1 + len) =~= later);
}

/// The answers that a reader gives on the text of a document.
pub fn spell_document(pieces: &[PieceOfWork]) -> (events: Vec<Event>)
    ensures
        spells_document(events@, piece_views(pieces@)),
        forall|j: int| 0 <= j < pieces@.len() ==> piece_wf(#[trigger] piece_views(pieces@)[j]),
{
    let ghost all = piece_views(pieces@);
    let mut events: Vec<Event> = Vec::new();
    events.push(Event::More(false));
    let mut i: usize = pieces.len();
    while i > 0
        invariant
            i <= pieces@.len(),
            all == piece_views(pieces@),
            spells_pieces(events@, all.skip(i as int)),
            forall|j: int| i <= j < pieces@.len() ==> piece_wf(#[trigger] all[j]),
        decreases i,
    {
        i = i - 1;
        let ghost later = events@;
        let mut grown: Vec<Event> = Vec::new();
        grown.push(Event::More(true));
        let mut inner = spell_piece(&pieces[i]);
        let ghost spelled = inner@;
        grown.append(&mut inner);
        grown.append(&mut events);
        events = grown;
        proof {
            let rest = all.skip(i as int);
            assert(rest.drop_first() =~= all.skip(i + 1));
            lemma_spells_one_more(events@, spelled, later, rest);
        }
    }
    assert(all.skip(0) =~= all);
    let ghost within = events@;
    let mut whole: Vec<Event> = Vec::new();
    whole.push(Event::Ack);
    whole.append(&mut events);
    assert(whole@.skip(1) =~= within);
    whole
}

/// The driver can be fed in any portions: to stream over `first` followed
/// by `second` is to stream over `first`, yielding the first of the items,
/// and on from there over `second`, yielding the rest.
pub proof fn lemma_streams_resume<F: Fn(&[u64], &[u64]) -> u64>(
    s: StreamView,
    first: Seq<Event>,
    second: Seq<Event>,
    dot: &F,
    end: StreamView,
    items: Seq<MatrixView>,
)
    ensures
        s.streams(first + second, dot, end, items) <==> exists|mid: (StreamView, int)|
            0 <= mid.1 <= items.len() && #[trigger] s.streams(
                first,
                dot,
                mid.0,
                items.take(mid.1),
            ) && mid.0.streams(second, dot, end, items.skip(mid.1)),
    decreases first.len(),
{
    let all = first + second;
    if first.len() == 0 {
        assert(all =~= second);
        assert(items.skip(0) =~= items);
        if s.streams(all, dot, end, items) {
            let mid = (s, 0int);
            assert(s.streams(first, dot, mid.0, items.take(mid.1)) && mid.0.streams(
                second,
                dot,
                end,
                items.skip(mid.1),
            ));
        }
        if exists|mid: (StreamView, int)|
            0 <= mid.1 <= items.len() && #[trigger] s.streams(first, dot, mid.0, items.take(mid.1))
                && mid.0.streams(second, dot, end, items.skip(mid.1)) {
            let mid = choose|mid: (StreamView, int)|
                0 <= mid.1 <= items.len() && #[trigger] s.streams(
                    first,
                    dot,
                    mid.0,
                    items.take(mid.1),
                ) && mid.0.streams(second, dot, end, items.skip(mid.1));
            assert(mid.1 == 0);
        }
    } else {
        let rest = first.drop_first();
        assert(all[0] == first[0]);
        assert(all.drop_first() =~= rest + second);
        if s.streams(all, dot, end, items) {
            let turn = choose|turn: (StreamView, Result<Yield<MatrixView>, Error>)| #[trigger]
                s.advances(all[0], dot, turn.0, turn.1) && match turn.1 {
                    Ok(Yield::Item(m)) => items.len() > 0 && items[0] == m && turn.0.streams(
                        all.drop_first(),
                        dot,
                        end,
                        items.drop_first(),
                    ),
                    _ => turn.0.streams(all.drop_first(), dot, end, items),
                };
            let (later, shift) = if turn.1 is Ok && turn.1->Ok_0 is Item {
                (items.drop_first(), 1int)
            } else {
                (items, 0int)
            };
            lemma_streams_resume(turn.0, rest, second, dot, end, later);
            let inner = choose|inner: (StreamView, int)|
                0 <= inner.1 <= later.len() && #[trigger] turn.0.streams(
                    rest,
                    dot,
                    inner.0,
                    later.take(inner.1),
                ) && inner.0.streams(second, dot, end, later.skip(inner.1));
            let mid = (inner.0, inner.1 + shift);
            assert(items.skip(mid.1) =~= later.skip(inner.1));
            if shift == 1 {
                assert(items.take(mid.1).drop_first() =~= later.take(inner.1));
            } else {
                assert(items.take(mid.1) =~= later.take(inner.1));
            }
            assert(s.advances(first[0], dot, turn.0, turn.1) && match turn.1 {
                Ok(Yield::Item(m)) => items.take(mid.1).len() > 0 && items.take(mid.1)[0] == m
                    && turn.0.streams(rest, dot, mid.0, items.take(mid.1).drop_first()),
                _ => turn.0.streams(rest, dot, mid.0, items.take(mid.1)),
            });
            assert(0 <= mid.1 <= items.len() && s.streams(first, dot, mid.0, items.take(mid.1))
                && mid.0.streams(second, dot, end, items.skip(mid.1)));
        }
        if exists|mid: (StreamView, int)|
            0 <= mid.1 <= items.len() && #[trigger] s.streams(first, dot, mid.0, items.take(mid.1))
                && mid.0.streams(second, dot, end, items.skip(mid.1)) {
            let mid = choose|mid: (StreamView, int)|
                0 <= mid.1 <= items.len() && #[trigger] s.streams(
                    first,
                    dot,
                    mid.0,
                    items.take(mid.1),
                ) && mid.0.streams(second, dot, end, items.skip(mid.1));
            let got = items.take(mid.1);
            let turn = choose|turn: (StreamView, Result<Yield<MatrixView>, Error>)| #[trigger]
                s.advances(first[0], dot, turn.0, turn.1) && match turn.1 {
                    Ok(Yield::Item(m)) => got.len() > 0 && got[0] == m && turn.0.streams(
                        rest,
                        dot,
                        mid.0,
                        got.drop_first(),
                    ),
                    _ => turn.0.streams(rest, dot, mid.0, got),
                };
            let (later, shift) = if turn.1 is Ok && turn.1->Ok_0 is Item {
                (items.drop_first(), 1int)
            } else {
                (items, 0int)
            };
            let inner = (mid.0, mid.1 - shift);
            lemma_streams_resume(turn.0, rest, second, dot, end, later);
            assert(items.skip(mid.1) =~= later.skip(inner.1));
            if shift == 1 {
                assert(got.drop_first() =~= later.take(inner.1));
            } else {
                assert(got =~= later.take(inner.1));
            }
            assert(0 <= inner.1 <= later.len() && turn.0.streams(
                rest,
                dot,
                inner.0,
                later.take(inner.1),
            ) && inner.0.streams(second, dot, end, later.skip(inner.1)));
            assert(turn.0.streams(rest + second, dot, end, later));
            assert(s.advances(all[0], dot, turn.0, turn.1) && match turn.1 {
                Ok(Yield::Item(m)) => items.len() > 0 && items[0] == m && turn.0.streams(
                    all.drop_first(),
                    dot,
                    end,
                    items.drop_first(),
                ),
                _ => turn.0.streams(all.drop_first(), dot, end, items),
            });
        }
    }
}

/// With a kernel that is a function of its operands, a document yields one
/// run of results and ends in one state.
pub proof fn lemma_document_yields_once<F: Fn(&[u64], &[u64]) -> u64>(
    dot: &F,
    pieces: Seq<PieceView>,
    end: StreamView,
    items: Seq<MatrixView>,
    other_end: StreamView,
    other_items: Seq<MatrixView>,
)
    requires
        kernel_functional(dot),
        document_yields(dot, pieces, end, items),
        document_yields(dot, pieces, other_end, other_items),
    ensures
        end == other_end,
        items == other_items,
    decreases pieces.len(),
{
    if pieces.len() == 0 {
        assert(items =~= other_items);
    } else {
        let one = choose|res: Result<MatrixView, Error>| #[trigger]
            folds(dot, pieces[0].lhs, pieces[0].op, res) && match res {
                Ok(m) => items.len() > 0 && items[0] == m && document_yields(
                    dot,
                    pieces.drop_first(),
                    end,
                    items.drop_first(),
                ),
                Err(e) => end == StreamView::Failed(e) && items.len() == 0,
            };
        let other = choose|res: Result<MatrixView, Error>| #[trigger]
            folds(dot, pieces[0].lhs, pieces[0].op, res) && match res {
                Ok(m) => other_items.len() > 0 && other_items[0] == m && document_yields(
                    dot,
                    pieces.drop_first(),
                    other_end,
                    other_items.drop_first(),
                ),
                Err(e) => other_end == StreamView::Failed(e) && other_items.len() == 0,
            };
        lemma_folds_once(dot, pieces[0].lhs, pieces[0].op, one, other);
        if one is Ok {
            lemma_document_yields_once(
                dot,
                pieces.drop_first(),
                end,
                items.drop_first(),
                other_end,
                other_items.drop_first(),
            );
            assert(items =~= seq![items[0]] + items.drop_first());
            assert(other_items =~= seq![other_items[0]] + other_items.drop_first());
        } else {
            assert(items =~= other_items);
        }
    }
}

/// The results of a document do not depend on how its text reached the
/// reader. Whatever two sequences of answers spell the same document, and
/// in whatever portions they are fed, the driver yields the same results in
/// the same order and ends in the same state, if the kernel is a function
/// of its operands.
pub proof fn lemma_results_by_document<F: Fn(&[u64], &[u64]) -> u64>(
    pieces: Seq<PieceView>,
    dot: &F,
    events: Seq<Event>,
    end: StreamView,
    items: Seq<MatrixView>,
    other_events: Seq<Event>,
    other_end: StreamView,
    other_items: Seq<MatrixView>,
)
    requires
        kernel_functional(dot),
        forall|i: int| 0 <= i < pieces.len() ==> piece_wf(#[trigger] pieces[i]),
        spells_document(events, pieces),
        spells_document(other_events, pieces),
        StreamView::Fresh.streams(events, dot, end, items),
        StreamView::Fresh.streams(other_events, dot, other_end, other_items),
    ensures
        end == other_end,
        items == other_items,
{
    lemma_document(events, pieces, dot, end, items);
    lemma_document(other_events, pieces, dot, other_end, other_items);
    lemma_document_yields_once(dot, pieces, end, items, other_end, other_items);
}

} // verus!
