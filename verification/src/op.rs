//! Operations on matrices, and the work items that fold them.

use vstd::prelude::*;
use crate::bounded::{
    operations, operations_new, operations_push, operations_remove, operations_slice,
};
use crate::error::Error;
use crate::matrix::{matrix_result, MatrixBuf, MatrixView};
use crate::text::same_text;

verus! {

/// A dot kernel is ready when it accepts every pair of equally long operands.
pub open spec fn kernel_ready<F: Fn(&[u64], &[u64]) -> u64>(dot: &F) -> bool {
    forall|a: &[u64], b: &[u64]| a@.len() == b@.len() ==> #[trigger] dot.requires((a, b))
}

/// The kernel `dot` may answer `out` when it is given the operands `a` and `b`.
pub open spec fn kernel_yields<F: Fn(&[u64], &[u64]) -> u64>(
    dot: &F,
    a: Seq<u64>,
    b: Seq<u64>,
    out: u64,
) -> bool {
    exists|x: &[u64], y: &[u64]| x@ == a && y@ == b && #[trigger] dot.ensures((x, y), out)
}

/// The operation that a `code` on the wire names.
#[derive(Clone, Copy, Debug, PartialEq, Eq, Structural)]
pub enum Code {
    /// `"dot"`: the dot product with a right-hand operand.
    Dot,
}

impl Code {
    /// The code that `text` spells, if it spells one.
    pub open spec fn spelled(text: Seq<char>) -> Result<Code, Error> {
        if text == "dot"@ {
            Ok(Code::Dot)
        } else {
            Err(Error::UnknownOperation)
        }
    }

    /// Reads a code: `"dot"` is the dot product, anything else an
    /// `UnknownOperation`.
    pub fn parse(text: &str) -> (r: Result<Code, Error>)
        ensures
            r == Code::spelled(text@),
    {
        if same_text(text, "dot") {
            Ok(Code::Dot)
        } else {
            Err(Error::UnknownOperation)
        }
    }
}

/// An operation that can be performed on a matrix.
#[derive(Debug)]
pub enum Operation {
    /// The dot product of some matrix with `rhs`.
    Dot { rhs: MatrixBuf },
}

/// What an operation holds.
pub enum OperationView {
    Dot { rhs: MatrixView },
}

impl OperationView {
    /// The operation of the given code on the operand `rhs`.
    pub open spec fn with(code: Code, rhs: MatrixView) -> OperationView {
        match code {
            Code::Dot => OperationView::Dot { rhs },
        }
    }

    /// The number of elements that the left-hand operand must have.
    pub open spec fn operand_len(self) -> nat {
        match self {
            OperationView::Dot { rhs } => rhs.d.len(),
        }
    }

    /// The outcomes `out` that evaluating this operation on `lhs` may have,
    /// with `dot` as the kernel. The dot product takes both operands as flat
    /// vectors: if their lengths differ it is a `ShapeMismatch`, otherwise
    /// the one-by-one matrix of what the kernel answers.
    pub open spec fn evaluates<F: Fn(&[u64], &[u64]) -> u64>(
        self,
        dot: &F,
        lhs: MatrixView,
        out: Result<MatrixView, Error>,
    ) -> bool {
        match self {
            OperationView::Dot { rhs } => if lhs.d.len() != rhs.d.len() {
                out == Err::<MatrixView, Error>(Error::ShapeMismatch)
            } else {
                exists|x: u64| #[trigger]
                    kernel_yields(dot, lhs.d, rhs.d, x) && out == Ok::<MatrixView, Error>(
                        MatrixView::scalar(x),
                    )
            },
        }
    }
}

impl View for Operation {
    type V = OperationView;

    open spec fn view(&self) -> OperationView {
        match self {
            Operation::Dot { rhs } => OperationView::Dot { rhs: rhs@ },
        }
    }
}

impl Operation {
    /// The operation of the given code on the operand `rhs`.
    pub fn with(code: Code, rhs: MatrixBuf) -> (op: Operation)
        ensures
            op@ == OperationView::with(code, rhs@),
    {
        match code {
            Code::Dot => Operation::Dot { rhs },
        }
    }

    /// Evaluates the operation on `lhs`, with `dot` as the kernel that
    /// multiplies two equally long vectors.
    pub fn eval<F: Fn(&[u64], &[u64]) -> u64>(self, lhs: MatrixBuf, dot: &F) -> (r: Result<
        MatrixBuf,
        Error,
    >)
        requires
            kernel_ready(dot),
        ensures
            self@.evaluates(dot, lhs@, matrix_result(r)),
    {
        match self {
            Operation::Dot { rhs } => {
                if lhs.len() != rhs.len() {
                    return Err(Error::ShapeMismatch);
                }
                let x = dot(lhs.data(), rhs.data());
                assert(kernel_yields(dot, lhs@.d, rhs@.d, x));
                Ok(MatrixBuf::scalar(x))
            },
        }
    }
}

/// The views of a run of operations.
pub open spec fn operation_views(ops: Seq<Operation>) -> Seq<OperationView> {
    ops.map_values(|op: Operation| op@)
}

/// The outcomes `out` that folding `ops` over `acc` from left to right may
/// have: each operation is evaluated on the result of the one before it, and
/// the first failure ends the fold.
pub open spec fn folds<F: Fn(&[u64], &[u64]) -> u64>(
    dot: &F,
    acc: MatrixView,
    ops: Seq<OperationView>,
    out: Result<MatrixView, Error>,
) -> bool
    decreases ops.len(),
{
    if ops.len() == 0 {
        out == Ok::<MatrixView, Error>(acc)
    } else {
        exists|mid: Result<MatrixView, Error>| #[trigger]
            ops[0].evaluates(dot, acc, mid) && match mid {
                Ok(m) => folds(dot, m, ops.drop_first(), out),
                Err(e) => out == Err::<MatrixView, Error>(e),
            }
    }
}

/// Whether the operations fit a running result of `len` elements, one after
/// the other: the first fits that result, and each later one the
/// one-by-one result of the operation before it.
pub open spec fn fits(len: nat, ops: Seq<OperationView>) -> bool
    decreases ops.len(),
{
    ops.len() == 0 || (ops[0].operand_len() == len && fits(1, ops.drop_first()))
}

/// A fold succeeds exactly when the operations fit; when it fails, it fails
/// with `ShapeMismatch`.
pub proof fn lemma_folds_fit<F: Fn(&[u64], &[u64]) -> u64>(
    dot: &F,
    acc: MatrixView,
    ops: Seq<OperationView>,
    out: Result<MatrixView, Error>,
)
    requires
        folds(dot, acc, ops, out),
    ensures
        out is Ok <==> fits(acc.d.len(), ops),
        out matches Err(e) ==> e == Error::ShapeMismatch,
    decreases ops.len(),
{
    if ops.len() > 0 {
        let mid = choose|mid: Result<MatrixView, Error>| #[trigger]
            ops[0].evaluates(dot, acc, mid) && match mid {
                Ok(m) => folds(dot, m, ops.drop_first(), out),
                Err(e) => out == Err::<MatrixView, Error>(e),
            };
        match mid {
            Ok(m) => {
                lemma_folds_fit(dot, m, ops.drop_first(), out);
            },
            Err(e) => {},
        }
    }
}

/// What a work item holds.
pub struct PieceView {
    pub lhs: MatrixView,
    pub op: Seq<OperationView>,
}

impl PieceView {
    /// The work item on `lhs` that has no operations yet.
    pub open spec fn new(lhs: MatrixView) -> PieceView {
        PieceView { lhs, op: Seq::empty() }
    }

    /// This work item with one more operation, or `CapacityExceeded` if it
    /// holds 5 already.
    pub open spec fn pushed(self, op: OperationView) -> Result<PieceView, Error> {
        if self.op.len() >= 5 {
            Err(Error::CapacityExceeded)
        } else {
            Ok(PieceView { lhs: self.lhs, op: self.op.push(op) })
        }
    }
}

/// A single piece of work: a matrix and at most 5 operations to fold over it.
#[derive(Debug)]
pub struct PieceOfWork {
    lhs: MatrixBuf,
    op: heapless::Vec<Operation, 5>,
}

impl View for PieceOfWork {
    type V = PieceView;

    closed spec fn view(&self) -> PieceView {
        PieceView { lhs: self.lhs@, op: operation_views(operations(self.op)) }
    }
}

impl PieceOfWork {
    #[verifier::type_invariant]
    spec fn inv(self) -> bool {
        operations(self.op).len() <= 5
    }

    /// A work item on `lhs` that has no operations yet.
    pub fn new(lhs: MatrixBuf) -> (piece: PieceOfWork)
        ensures
            piece@ == PieceView::new(lhs@),
    {
        let op = operations_new();
        assert(operation_views(operations(op)) =~= Seq::empty());
        PieceOfWork { lhs, op }
    }

    /// The matrix that the operations are folded over.
    pub fn lhs(&self) -> (lhs: &MatrixBuf)
        ensures
            lhs@ == self@.lhs,
    {
        &self.lhs
    }

    /// The operations, first operation first.
    pub fn operations(&self) -> (ops: &[Operation])
        ensures
            operation_views(ops@) == self@.op,
            ops@.len() <= 5,
    {
        proof {
            use_type_invariant(self);
        }
        operations_slice(&self.op)
    }

    /// The number of operations.
    pub fn len(&self) -> (k: usize)
        ensures
            k == self@.op.len(),
            k <= 5,
    {
        proof {
            use_type_invariant(self);
        }
        operations_slice(&self.op).len()
    }

    /// Appends an operation. A sixth operation is refused as
    /// `CapacityExceeded`, and the work item stays as it was.
    pub fn push(&mut self, op: Operation) -> (r: Result<(), Error>)
        ensures
            old(self)@.pushed(op@) matches Ok(grown) ==> r is Ok && final(self)@ == grown,
            old(self)@.pushed(op@) matches Err(e) ==> r == Err::<(), Error>(e) && final(self)@
                == old(self)@,
    {
        proof {
            use_type_invariant(&*self);
        }
        let ghost before = operations(self.op);
        match operations_push(&mut self.op, op) {
            Ok(()) => {
                assert(operation_views(before.push(op)) =~= operation_views(before).push(op@));
                Ok(())
            },
            Err(_) => Err(Error::CapacityExceeded),
        }
    }

    /// Executes a work item that has been read fully into memory: folds its
    /// operations over its matrix, first operation first.
    pub fn exec<F: Fn(&[u64], &[u64]) -> u64>(self, dot: &F) -> (r: Result<MatrixBuf, Error>)
        requires
            kernel_ready(dot),
        ensures
            folds(dot, self@.lhs, self@.op, matrix_result(r)),
            r is Ok <==> fits(self@.lhs.d.len(), self@.op),
            r matches Err(e) ==> e == Error::ShapeMismatch,
    {
        let ghost whole = self@;
        let r = self.fold(dot);
        proof {
            lemma_folds_fit(dot, whole.lhs, whole.op, matrix_result(r));
        }
        r
    }

    fn fold<F: Fn(&[u64], &[u64]) -> u64>(self, dot: &F) -> (r: Result<MatrixBuf, Error>)
        requires
            kernel_ready(dot),
        ensures
            folds(dot, self@.lhs, self@.op, matrix_result(r)),
    {
        let ghost whole = self@;
        let PieceOfWork { lhs, op } = self;
        let mut rest = op;
        let mut res = lhs;
        while operations_slice(&rest).len() > 0
            invariant
                kernel_ready(dot),
                whole == self@,
                forall|out: Result<MatrixView, Error>| #[trigger]
                    folds(dot, res@, operation_views(operations(rest)), out) ==> folds(
                        dot,
                        whole.lhs,
                        whole.op,
                        out,
                    ),
            decreases operations(rest).len(),
        {
            let ghost before = res@;
            let ghost ops = operation_views(operations(rest));
            let next = operations_remove(&mut rest, 0);
            assert(operation_views(operations(rest)) =~= ops.drop_first());
            assert(ops[0] == next@);
            match next.eval(res, dot) {
                Ok(m) => {
                    assert forall|out: Result<MatrixView, Error>|
                        folds(dot, m@, ops.drop_first(), out) implies folds(
                        dot,
                        whole.lhs,
                        whole.op,
                        out,
                    ) by {
                        assert(folds(dot, before, ops, out));
                    }
                    res = m;
                },
                Err(e) => {
                    assert(folds(dot, before, ops, Err(e)));
                    return Err(e);
                },
            }
        }
        assert(folds(dot, res@, operation_views(operations(rest)), Ok(res@)));
        Ok(res)
    }
}

/// To fold a single operation is to evaluate it.
pub proof fn lemma_folds_one<F: Fn(&[u64], &[u64]) -> u64>(
    dot: &F,
    acc: MatrixView,
    op: OperationView,
    out: Result<MatrixView, Error>,
)
    ensures
        folds(dot, acc, seq![op], out) <==> op.evaluates(dot, acc, out),
{
    let ops = seq![op];
    if folds(dot, acc, ops, out) {
        let mid = choose|mid: Result<MatrixView, Error>| #[trigger]
            ops[0].evaluates(dot, acc, mid) && match mid {
                Ok(m) => folds(dot, m, ops.drop_first(), out),
                Err(e) => out == Err::<MatrixView, Error>(e),
            };
    }
}

/// How a fold goes on after the outcome `mid` of its first part: over the
/// result if there is one, and no further after a failure.
pub open spec fn continues<F: Fn(&[u64], &[u64]) -> u64>(
    dot: &F,
    mid: Result<MatrixView, Error>,
    ops: Seq<OperationView>,
    out: Result<MatrixView, Error>,
) -> bool {
    match mid {
        Ok(m) => folds(dot, m, ops, out),
        Err(e) => out == Err::<MatrixView, Error>(e),
    }
}

/// A fold applies the operations in array order: to fold `first` followed
/// by `second` is to fold `first`, and then `second` over its result.
pub proof fn lemma_folds_in_order<F: Fn(&[u64], &[u64]) -> u64>(
    dot: &F,
    acc: MatrixView,
    first: Seq<OperationView>,
    second: Seq<OperationView>,
    out: Result<MatrixView, Error>,
)
    ensures
        folds(dot, acc, first + second, out) <==> exists|mid: Result<MatrixView, Error>| #[trigger]
            folds(dot, acc, first, mid) && continues(dot, mid, second, out),
    decreases first.len(),
{
    let whole = first + second;
    if first.len() == 0 {
        if folds(dot, acc, whole, out) {
            assert(folds(dot, acc, first, Ok(acc)) && continues(dot, Ok(acc), second, out));
        }
    } else {
        let rest = first.drop_first();
        assert(whole.drop_first() =~= rest + second);
        if folds(dot, acc, whole, out) {
            let step = choose|step: Result<MatrixView, Error>| #[trigger]
                whole[0].evaluates(dot, acc, step) && match step {
                    Ok(m) => folds(dot, m, whole.drop_first(), out),
                    Err(e) => out == Err::<MatrixView, Error>(e),
                };
            match step {
                Ok(m) => {
                    lemma_folds_in_order(dot, m, rest, second, out);
                    let mid = choose|mid: Result<MatrixView, Error>| #[trigger]
                        folds(dot, m, rest, mid) && continues(dot, mid, second, out);
                    assert(folds(dot, acc, first, mid) && continues(dot, mid, second, out));
                },
                Err(e) => {
                    let mid = Err::<MatrixView, Error>(e);
                    assert(folds(dot, acc, first, mid) && continues(dot, mid, second, out));
                },
            }
        }
        if exists|mid: Result<MatrixView, Error>| #[trigger]
            folds(dot, acc, first, mid) && continues(dot, mid, second, out) {
            let mid = choose|mid: Result<MatrixView, Error>| #[trigger]
                folds(dot, acc, first, mid) && continues(dot, mid, second, out);
            let step = choose|step: Result<MatrixView, Error>| #[trigger]
                first[0].evaluates(dot, acc, step) && match step {
                    Ok(m) => folds(dot, m, first.drop_first(), mid),
                    Err(e) => mid == Err::<MatrixView, Error>(e),
                };
            match step {
                Ok(m) => {
                    lemma_folds_in_order(dot, m, rest, second, out);
                },
                Err(e) => {},
            }
        }
    }
}

/// A kernel is a function of its operands when it has one answer for each
/// pair of them.
pub open spec fn kernel_functional<F: Fn(&[u64], &[u64]) -> u64>(dot: &F) -> bool {
    forall|a: Seq<u64>, b: Seq<u64>, x: u64, y: u64|
        #[trigger] kernel_yields(dot, a, b, x) && #[trigger] kernel_yields(dot, a, b, y) ==> x
            == y
}

/// With a kernel that is a function of its operands, a fold has one
/// outcome.
pub proof fn lemma_folds_once<F: Fn(&[u64], &[u64]) -> u64>(
    dot: &F,
    acc: MatrixView,
    ops: Seq<OperationView>,
    one: Result<MatrixView, Error>,
    other: Result<MatrixView, Error>,
)
    requires
        kernel_functional(dot),
        folds(dot, acc, ops, one),
        folds(dot, acc, ops, other),
    ensures
        one == other,
    decreases ops.len(),
{
    if ops.len() > 0 {
        let a = choose|mid: Result<MatrixView, Error>| #[trigger]
            ops[0].evaluates(dot, acc, mid) && match mid {
                Ok(m) => folds(dot, m, ops.drop_first(), one),
                Err(e) => one == Err::<MatrixView, Error>(e),
            };
        let b = choose|mid: Result<MatrixView, Error>| #[trigger]
            ops[0].evaluates(dot, acc, mid) && match mid {
                Ok(m) => folds(dot, m, ops.drop_first(), other),
                Err(e) => other == Err::<MatrixView, Error>(e),
            };
        let rhs = ops[0]->Dot_rhs;
        if acc.d.len() == rhs.d.len() {
            let x = choose|x: u64| #[trigger]
                kernel_yields(dot, acc.d, rhs.d, x) && a == Ok::<MatrixView, Error>(
                    MatrixView::scalar(x),
                );
            let y = choose|y: u64| #[trigger]
                kernel_yields(dot, acc.d, rhs.d, y) && b == Ok::<MatrixView, Error>(
                    MatrixView::scalar(y),
                );
            assert(x == y);
            lemma_folds_once(dot, MatrixView::scalar(x), ops.drop_first(), one, other);
        }
    }
}

} // verus!
