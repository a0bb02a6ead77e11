//! The reader answers that spell a record, and what the decoder makes of
//! them: it reads back the record that was spelled.

use vstd::prelude::*;
use crate::batch::PieceDecodingView;
use crate::error::Error;
use crate::matrix::{MatrixBuf, MatrixView};
use crate::modes::{finishes, lemma_modes_agree, lemma_walk_runs};
use crate::op::{operation_views, Code, Operation, OperationView, PieceOfWork, PieceView};
use crate::streaming::PieceProgressView;
use crate::wire::{Event, MatrixProgressView, MatrixStage, OperationProgressView, Step};

verus! {

impl MatrixProgressView {
    /// Where the decoding stands after the events, one after the other, and
    /// how many of them it took: it ends with the event that completes the
    /// matrix, or with the first failure.
    pub open spec fn walk(self, events: Seq<Event>) -> (
        Result<Step<MatrixProgressView, MatrixView>, Error>,
        nat,
    )
        decreases events.len(),
    {
        if events.len() == 0 {
            (Ok(Step::Pending(self)), 0)
        } else {
            match self.after(events[0]) {
                Ok(Step::Pending(next)) => {
                    let (end, taken) = next.walk(events.drop_first());
                    (end, taken + 1)
                },
                other => (other, 1),
            }
        }
    }
}

impl OperationProgressView {
    /// Where the decoding stands after the events, one after the other, and
    /// how many of them it took: it ends with the event that completes the
    /// operation, or with the first failure.
    pub open spec fn walk(self, events: Seq<Event>) -> (
        Result<Step<OperationProgressView, OperationView>, Error>,
        nat,
    )
        decreases events.len(),
    {
        if events.len() == 0 {
            (Ok(Step::Pending(self)), 0)
        } else {
            match self.after(events[0]) {
                Ok(Step::Pending(next)) => {
                    let (end, taken) = next.walk(events.drop_first());
                    (end, taken + 1)
                },
                other => (other, 1),
            }
        }
    }
}

/// The number of reader answers that spell a matrix.
pub open spec fn matrix_len(m: MatrixView) -> nat {
    2 * m.d.len() + 8
}

/// The events are the answers that a reader gives on the text of the matrix
/// `m`: the opening bracket, the key `"d"`, the array with one number per
/// element, the key `"n"`, the column count and the closing bracket.
pub open spec fn spells_matrix(events: Seq<Event>, m: MatrixView) -> bool {
    let k = m.d.len() as int;
    &&& events.len() == matrix_len(m)
    &&& events[0] is Ack
    &&& events[1].names("d"@)
    &&& events[2] is Ack
    &&& forall|i: int|
        0 <= i < k ==> #[trigger] events[3 + 2 * i] == Event::More(true) && events[4 + 2 * i]
            == Event::Number(m.d[i])
    &&& events[3 + 2 * k] == Event::More(false)
    &&& events[4 + 2 * k] is Ack
    &&& events[5 + 2 * k].names("n"@)
    &&& events[6 + 2 * k] matches Event::Count(n) && n == m.n
    &&& events[7 + 2 * k] is Ack
}

/// The number of reader answers that spell an operation.
pub open spec fn operation_len(op: OperationView) -> nat {
    match op {
        OperationView::Dot { rhs } => matrix_len(rhs) + 5,
    }
}

/// The events are the answers that a reader gives on the text of the
/// operation `op`: the opening bracket, the key `"code"` and the code, the
/// key `"rhs"` and the operand, and the closing bracket.
pub open spec fn spells_operation(events: Seq<Event>, op: OperationView) -> bool {
    match op {
        OperationView::Dot { rhs } => {
            &&& events.len() == operation_len(op)
            &&& events[0] is Ack
            &&& events[1].names("code"@)
            &&& events[2] matches Event::Text(code) && code@ == "dot"@
            &&& events[3].names("rhs"@)
            &&& spells_matrix(events.subrange(4, 4 + matrix_len(rhs) as int), rhs)
            &&& events[4 + matrix_len(rhs) as int] is Ack
        },
    }
}

/// The events are the answers that a reader gives on the rest of a work
/// item from its operation array on: for every operation the answer that
/// one follows and the operation itself, then the answer that none follows,
/// and the closing brackets of the array and of the work item.
pub open spec fn spells_operations(events: Seq<Event>, ops: Seq<OperationView>) -> bool
    decreases ops.len(),
{
    if ops.len() == 0 {
        &&& events.len() == 3
        &&& events[0] == Event::More(false)
        &&& events[1] is Ack
        &&& events[2] is Ack
    } else {
        let len = operation_len(ops[0]) as int;
        &&& events.len() > len
        &&& events[0] == Event::More(true)
        &&& spells_operation(events.subrange(1, 1 + len), ops[0])
        &&& spells_operations(events.skip(1 + len), ops.drop_first())
    }
}

/// The events are the answers that a reader gives on the text of the work
/// item `piece`: the opening bracket, the key `"lhs"` and the matrix, the
/// key `"op"`, the opening bracket of the array, and the operations to the
/// end of the work item.
pub open spec fn spells_piece(events: Seq<Event>, piece: PieceView) -> bool {
    let len = matrix_len(piece.lhs) as int;
    &&& events.len() > 4 + len
    &&& events[0] is Ack
    &&& events[1].names("lhs"@)
    &&& spells_matrix(events.subrange(2, 2 + len), piece.lhs)
    &&& events[2 + len].names("op"@)
    &&& events[3 + len] is Ack
    &&& spells_operations(events.skip(4 + len), piece.op)
}

/// A work item that can be spelled: well-formed matrices throughout, and at
/// most 5 operations.
pub open spec fn piece_wf(piece: PieceView) -> bool {
    &&& piece.lhs.wf()
    &&& piece.op.len() <= 5
    &&& forall|i: int| 0 <= i < piece.op.len() ==> (#[trigger] piece.op[i])->Dot_rhs.wf()
}

/// From the place where the next element is asked for, with the first `i`
/// elements read, the decoder reads the rest of the spelled matrix.
proof fn lemma_matrix_elements(events: Seq<Event>, m: MatrixView, i: int)
    requires
        m.wf(),
        spells_matrix(events, m),
        0 <= i <= m.d.len(),
    ensures
        (MatrixProgressView { stage: MatrixStage::HasNext, d: m.d.take(i), n: 0 }).walk(
            events.skip(3 + 2 * i),
        ) == (
            Ok::<Step<MatrixProgressView, MatrixView>, Error>(Step::Done(m)),
            (events.len() - (3 + 2 * i)) as nat,
        ),
    decreases m.d.len() - i,
{
    let k = m.d.len() as int;
    let at = 3 + 2 * i;
    let here = MatrixProgressView { stage: MatrixStage::HasNext, d: m.d.take(i), n: 0 };
    let e0 = events.skip(at);
    let e1 = events.skip(at + 1);
    let e2 = events.skip(at + 2);
    assert(e0[0] == events[at] && e0.drop_first() =~= e1);
    assert(e1[0] == events[at + 1] && e1.drop_first() =~= e2);
    if i < k {
        let asked = here.at(MatrixStage::Element);
        let grown = MatrixProgressView {
            stage: MatrixStage::HasNext,
            d: m.d.take(i + 1),
            n: 0,
        };
        assert(m.d.take(i).push(m.d[i]) =~= m.d.take(i + 1));
        lemma_matrix_elements(events, m, i + 1);
        assert(asked.walk(e1) == (grown.walk(e2).0, grown.walk(e2).1 + 1));
    } else {
        let e3 = events.skip(at + 3);
        let e4 = events.skip(at + 4);
        assert(e2[0] == events[at + 2] && e2.drop_first() =~= e3);
        assert(e3[0] == events[at + 3] && e3.drop_first() =~= e4);
        assert(m.d.take(k) =~= m.d);
        let s1 = here.at(MatrixStage::ArrayEnd);
        let s2 = here.at(MatrixStage::KeyN);
        let s3 = here.at(MatrixStage::Columns);
        let s4 = MatrixProgressView { stage: MatrixStage::ObjectEnd, d: m.d, n: m.n };
        assert(s3.walk(e3) == (s4.walk(e4).0, s4.walk(e4).1 + 1));
        assert(s1.walk(e1) == (s2.walk(e2).0, s2.walk(e2).1 + 1));
    }
}

/// The decoder reads back the matrix that the events spell, and takes all
/// of them for it.
pub proof fn lemma_matrix_spelled(events: Seq<Event>, m: MatrixView)
    requires
        m.wf(),
        spells_matrix(events, m),
    ensures
        MatrixProgressView::start().walk(events) == (
            Ok::<Step<MatrixProgressView, MatrixView>, Error>(Step::Done(m)),
            events.len(),
        ),
{
    let s0 = MatrixProgressView::start();
    let s1 = s0.at(MatrixStage::KeyD);
    let s2 = s0.at(MatrixStage::ArrayStart);
    let e1 = events.skip(1);
    let e2 = events.skip(2);
    let e3 = events.skip(3);
    assert(e1[0] == events[1] && e1.drop_first() =~= e2);
    assert(e2[0] == events[2] && e2.drop_first() =~= e3);
    assert(m.d.take(0) =~= Seq::<u64>::empty());
    lemma_matrix_elements(events, m, 0);
    assert(s1.walk(e1) == (s2.walk(e2).0, s2.walk(e2).1 + 1));
}

/// Within an operation, the events that the decoder of the operand takes
/// for the matrix `m` bring the operation to its closing bracket.
proof fn lemma_rhs_lift(
    code: Code,
    p: MatrixProgressView,
    inner: Seq<Event>,
    tail: Seq<Event>,
    m: MatrixView,
)
    requires
        p.walk(inner) == (
            Ok::<Step<MatrixProgressView, MatrixView>, Error>(Step::Done(m)),
            inner.len(),
        ),
    ensures
        OperationProgressView::Rhs(code, p).walk(inner + tail) == (
            OperationProgressView::ObjectEnd(OperationView::with(code, m)).walk(tail).0,
            OperationProgressView::ObjectEnd(OperationView::with(code, m)).walk(tail).1
                + inner.len(),
        ),
    decreases inner.len(),
{
    let all = inner + tail;
    assert(all.drop_first() =~= inner.drop_first() + tail);
    match p.after(inner[0]) {
        Ok(Step::Pending(q)) => {
            lemma_rhs_lift(code, q, inner.drop_first(), tail, m);
        },
        _ => {},
    }
}

/// The decoder reads back the operation that the events spell, and takes
/// all of them for it.
pub proof fn lemma_operation_spelled(events: Seq<Event>, op: OperationView)
    requires
        op->Dot_rhs.wf(),
        spells_operation(events, op),
    ensures
        OperationProgressView::start().walk(events) == (
            Ok::<Step<OperationProgressView, OperationView>, Error>(Step::Done(op)),
            events.len(),
        ),
{
    let rhs = op->Dot_rhs;
    let len = matrix_len(rhs) as int;
    let inner = events.subrange(4, 4 + len);
    let tail = events.skip(4 + len);
    let s1 = OperationProgressView::KeyCode;
    let s2 = OperationProgressView::Code;
    let s3 = OperationProgressView::KeyRhs(Code::Dot);
    let s4 = OperationProgressView::Rhs(Code::Dot, MatrixProgressView::start());
    let e1 = events.skip(1);
    let e2 = events.skip(2);
    let e3 = events.skip(3);
    let e4 = events.skip(4);
    assert(e1[0] == events[1] && e1.drop_first() =~= e2);
    assert(e2[0] == events[2] && e2.drop_first() =~= e3);
    assert(e3[0] == events[3] && e3.drop_first() =~= e4);
    assert(e4 =~= inner + tail);
    lemma_matrix_spelled(inner, rhs);
    lemma_rhs_lift(Code::Dot, MatrixProgressView::start(), inner, tail, rhs);
    assert(s3.walk(e3) == (s4.walk(e4).0, s4.walk(e4).1 + 1));
    assert(s1.walk(e1) == (s2.walk(e2).0, s2.walk(e2).1 + 1));
}

/// Within a work item, the events that the decoder of the left-hand matrix
/// takes for the matrix `m` bring the work item to the key of its
/// operations.
proof fn lemma_lhs_lift(p: MatrixProgressView, inner: Seq<Event>, tail: Seq<Event>, m: MatrixView)
    requires
        p.walk(inner) == (
            Ok::<Step<MatrixProgressView, MatrixView>, Error>(Step::Done(m)),
            inner.len(),
        ),
    ensures
        PieceDecodingView::Lhs(p).walk(inner + tail) == (
            PieceDecodingView::KeyOp(m).walk(tail).0,
            PieceDecodingView::KeyOp(m).walk(tail).1 + inner.len(),
        ),
    decreases inner.len(),
{
    let all = inner + tail;
    assert(all.drop_first() =~= inner.drop_first() + tail);
    match p.after(inner[0]) {
        Ok(Step::Pending(q)) => {
            lemma_lhs_lift(q, inner.drop_first(), tail, m);
        },
        _ => {},
    }
}

/// Within a work item that has room, the events that the decoder of an
/// operation takes for the operation `op` add that operation to the work
/// item.
proof fn lemma_op_lift(
    piece: PieceView,
    q: OperationProgressView,
    inner: Seq<Event>,
    tail: Seq<Event>,
    op: OperationView,
)
    requires
        piece.op.len() < 5,
        q.walk(inner) == (
            Ok::<Step<OperationProgressView, OperationView>, Error>(Step::Done(op)),
            inner.len(),
        ),
    ensures
        PieceDecodingView::Op(piece, q).walk(inner + tail) == (
            PieceDecodingView::OpElement(
                PieceView { lhs: piece.lhs, op: piece.op.push(op) },
            ).walk(tail).0,
            PieceDecodingView::OpElement(
                PieceView { lhs: piece.lhs, op: piece.op.push(op) },
            ).walk(tail).1 + inner.len(),
        ),
    decreases inner.len(),
{
    let all = inner + tail;
    assert(all.drop_first() =~= inner.drop_first() + tail);
    match q.after(inner[0]) {
        Ok(Step::Pending(next)) => {
            lemma_op_lift(piece, next, inner.drop_first(), tail, op);
        },
        _ => {},
    }
}

/// From the place between two operations, the batch decoder adds the
/// spelled operations to the work item and completes it with the last of
/// the events.
proof fn lemma_operations_spelled(piece: PieceView, events: Seq<Event>, ops: Seq<OperationView>)
    requires
        spells_operations(events, ops),
        piece.op.len() + ops.len() <= 5,
        forall|i: int| 0 <= i < ops.len() ==> (#[trigger] ops[i])->Dot_rhs.wf(),
    ensures
        PieceDecodingView::OpElement(piece).walk(events) == (
            Ok::<Step<PieceDecodingView, PieceView>, Error>(
                Step::Done(PieceView { lhs: piece.lhs, op: piece.op + ops }),
            ),
            events.len(),
        ),
    decreases ops.len(),
{
    let e1 = events.skip(1);
    if ops.len() == 0 {
        let e2 = events.skip(2);
        let s1 = PieceDecodingView::OpArrayEnd(piece);
        let s2 = PieceDecodingView::ObjectEnd(piece);
        assert(e1[0] == events[1] && e1.drop_first() =~= e2);
        assert(s1.walk(e1) == (s2.walk(e2).0, s2.walk(e2).1 + 1));
    } else {
        let len = operation_len(ops[0]) as int;
        let inner = events.subrange(1, 1 + len);
        let tail = events.skip(1 + len);
        let s1 = PieceDecodingView::Op(piece, OperationProgressView::start());
        let grown = PieceView { lhs: piece.lhs, op: piece.op.push(ops[0]) };
        assert(e1 =~= inner + tail);
        lemma_operation_spelled(inner, ops[0]);
        lemma_op_lift(piece, OperationProgressView::start(), inner, tail, ops[0]);
        assert forall|i: int| 0 <= i < ops.drop_first().len() implies (
        #[trigger] ops.drop_first()[i])->Dot_rhs.wf() by {}
        lemma_operations_spelled(grown, tail, ops.drop_first());
        assert(grown.op + ops.drop_first() =~= piece.op + ops);
    }
}

/// The batch decoder reads back the work item that the events spell, and
/// completes it with the last of them.
pub proof fn lemma_piece_spelled(events: Seq<Event>, piece: PieceView)
    requires
        piece_wf(piece),
        spells_piece(events, piece),
    ensures
        PieceDecodingView::start().walk(events) == (
            Ok::<Step<PieceDecodingView, PieceView>, Error>(Step::Done(piece)),
            events.len(),
        ),
        PieceDecodingView::start().run(events) == Ok::<Step<PieceDecodingView, PieceView>, Error>(
            Step::Done(piece),
        ),
{
    let len = matrix_len(piece.lhs) as int;
    let inner = events.subrange(2, 2 + len);
    let tail = events.skip(2 + len);
    let s0 = PieceDecodingView::ObjectStart;
    let s1 = PieceDecodingView::KeyLhs;
    let s2 = PieceDecodingView::Lhs(MatrixProgressView::start());
    let s4 = PieceDecodingView::OpArrayStart(piece.lhs);
    let s5 = PieceDecodingView::OpElement(PieceView::new(piece.lhs));
    let e1 = events.skip(1);
    let e2 = events.skip(2);
    let t1 = tail.skip(1);
    let t2 = tail.skip(2);
    assert(e1[0] == events[1] && e1.drop_first() =~= e2);
    assert(e2 =~= inner + tail);
    assert(t1[0] == events[3 + len] && t1.drop_first() =~= t2);
    assert(t2 =~= events.skip(4 + len));
    lemma_matrix_spelled(inner, piece.lhs);
    lemma_lhs_lift(MatrixProgressView::start(), inner, tail, piece.lhs);
    lemma_operations_spelled(PieceView::new(piece.lhs), t2, piece.op);
    assert(s4.walk(t1) == (s5.walk(t2).0, s5.walk(t2).1 + 1));
    assert(s1.walk(e1) == (s2.walk(e2).0, s2.walk(e2).1 + 1));
    lemma_walk_runs(s0, events);
}

/// On the events that spell a work item, the streaming driver comes to
/// exactly the outcomes of folding the operations of that work item over
/// its left-hand matrix, whatever the kernel.
pub proof fn lemma_streaming_spelled<F: Fn(&[u64], &[u64]) -> u64>(
    events: Seq<Event>,
    piece: PieceView,
    dot: &F,
    out: Result<Step<PieceProgressView, MatrixView>, Error>,
)
    requires
        piece_wf(piece),
        spells_piece(events, piece),
    ensures
        PieceProgressView::start().runs(events, dot, out) <==> finishes(
            dot,
            piece.lhs,
            piece.op,
            out,
        ),
{
    lemma_piece_spelled(events, piece);
    lemma_modes_agree(events, dot, piece, out);
}

/// The answers that a reader gives on the text of a matrix.
pub fn spell_matrix(m: &MatrixBuf) -> (events: Vec<Event>)
    ensures
        spells_matrix(events@, m@),
        m@.wf(),
{
    let d = m.data();
    let mut events: Vec<Event> = Vec::new();
    events.push(Event::Ack);
    events.push(Event::Name("d".to_owned()));
    events.push(Event::Ack);
    let mut i: usize = 0;
    while i < d.len()
        invariant
            i <= d@.len() <= 36,
            d@ == m@.d,
            events@.len() == 3 + 2 * i,
            events@[0] is Ack,
            events@[1].names("d"@),
            events@[2] is Ack,
            forall|j: int|
                0 <= j < i ==> #[trigger] events@[3 + 2 * j] == Event::More(true) && events@[4 + 2
                    * j] == Event::Number(m@.d[j]),
        decreases d@.len() - i,
    {
        events.push(Event::More(true));
        events.push(Event::Number(d[i]));
        i = i + 1;
    }
    events.push(Event::More(false));
    events.push(Event::Ack);
    events.push(Event::Name("n".to_owned()));
    events.push(Event::Count(m.columns()));
    events.push(Event::Ack);
    events
}

/// The answers that a reader gives on the text of an operation.
pub fn spell_operation(op: &Operation) -> (events: Vec<Event>)
    ensures
        spells_operation(events@, op@),
        op@->Dot_rhs.wf(),
{
    match op {
        Operation::Dot { rhs } => {
            let mut events: Vec<Event> = Vec::new();
            events.push(Event::Ack);
            events.push(Event::Name("code".to_owned()));
            events.push(Event::Text("dot".to_owned()));
            events.push(Event::Name("rhs".to_owned()));
            let mut inner = spell_matrix(rhs);
            events.append(&mut inner);
            events.push(Event::Ack);
            events
        },
    }
}

/// An operation in front of spelled operations is spelled by the answer
/// that one follows, its own answers, and theirs.
proof fn lemma_spells_one_more(
    events: Seq<Event>,
    spelled: Seq<Event>,
    later: Seq<Event>,
    ops: Seq<OperationView>,
)
    requires
        ops.len() > 0,
        spells_operation(spelled, ops[0]),
        spells_operations(later, ops.drop_first()),
        events == seq![Event::More(true)] + spelled + later,
    ensures
        spells_operations(events, ops),
{
    let len = operation_len(ops[0]) as int;
    assert(events.subrange(1, 1 + len) =~= spelled);
    assert(events.skip(1 + len) =~= later);
}

/// The answers that a reader gives on a work item from its operation array
/// on, where `ops` are the operations of the work item.
fn spell_operations(ops: &[Operation]) -> (events: Vec<Event>)
    ensures
        spells_operations(events@, operation_views(ops@)),
        forall|j: int| 0 <= j < ops@.len() ==> (#[trigger] operation_views(ops@)[j])->Dot_rhs.wf(),
{
    let ghost all = operation_views(ops@);
    let mut events: Vec<Event> = Vec::new();
    events.push(Event::More(false));
    events.push(Event::Ack);
    events.push(Event::Ack);
    let mut i: usize = ops.len();
    while i > 0
        invariant
            i <= ops@.len(),
            all == operation_views(ops@),
            spells_operations(events@, all.skip(i as int)),
            forall|j: int| i <= j < ops@.len() ==> (#[trigger] all[j])->Dot_rhs.wf(),
        decreases i,
    {
        i = i - 1;
        let ghost later = events@;
        let mut grown: Vec<Event> = Vec::new();
        grown.push(Event::More(true));
        let mut inner = spell_operation(&ops[i]);
        let ghost spelled = inner@;
        grown.append(&mut inner);
        grown.append(&mut events);
        events = grown;
        proof {
            let rest = all.skip(i as int);
            assert(rest.drop_first() =~= all.skip(i + 1));
            lemma_spells_one_more(events@, spelled, later, rest);
        }
    }
    assert(all.skip(0) =~= all);
    events
}

/// The answers that a reader gives on the text of a work item.
pub fn spell_piece(piece: &PieceOfWork) -> (events: Vec<Event>)
    ensures
        spells_piece(events@, piece@),
        piece_wf(piece@),
{
    let mut events: Vec<Event> = Vec::new();
    events.push(Event::Ack);
    events.push(Event::Name("lhs".to_owned()));
    let mut inner = spell_matrix(piece.lhs());
    events.append(&mut inner);
    events.push(Event::Name("op".to_owned()));
    events.push(Event::Ack);
    let mut rest = spell_operations(piece.operations());
    let ghost later = rest@;
    events.append(&mut rest);
    proof {
        let len = matrix_len(piece@.lhs) as int;
        assert(events@.skip(4 + len) =~= later);
    }
    events
}

} // verus!
