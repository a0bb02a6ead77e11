//! Matrix buffers: a bounded, row-major run of elements and a column count.

use vstd::prelude::*;
use crate::bounded::{elements, elements_new, elements_push, elements_slice, MAX_ELEMENTS};
use crate::error::Error;

verus! {

/// What a matrix buffer holds: the element bit patterns in row-major order,
/// and the number of columns.
pub struct MatrixView {
    pub d: Seq<u64>,
    pub n: nat,
}

impl MatrixView {
    /// At most 36 elements, at least one column, and only whole rows.
    pub open spec fn wf(self) -> bool {
        &&& self.d.len() <= 36
        &&& self.n > 0
        &&& self.d.len() % self.n == 0
    }

    /// The number of rows.
    pub open spec fn row_count(self) -> nat {
        self.d.len() / self.n
    }

    /// Row `i`: the `n` elements from position `i * n` on.
    pub open spec fn row(self, i: int) -> Seq<u64> {
        self.d.subrange(i * self.n, i * self.n + self.n)
    }

    /// All rows, first row first.
    pub open spec fn rows(self) -> Seq<Seq<u64>> {
        Seq::new(self.row_count(), |i: int| self.row(i))
    }

    /// The one-by-one matrix that holds `x`.
    pub open spec fn scalar(x: u64) -> MatrixView {
        MatrixView { d: seq![x], n: 1 }
    }

    /// The matrix of `n` columns over the data `d`, where `d` is known to
    /// fit: a column count of zero is a `ProtocolError`, a last row that is
    /// not full a `ShapeMismatch`.
    pub open spec fn checked(d: Seq<u64>, n: nat) -> Result<MatrixView, Error> {
        if n == 0 {
            Err(Error::ProtocolError)
        } else if d.len() % n != 0 {
            Err(Error::ShapeMismatch)
        } else {
            Ok(MatrixView { d, n })
        }
    }

    /// The matrix of `n` columns over the data `d`: more than 36 elements
    /// are a `CapacityExceeded`, and what fits is `checked`.
    pub open spec fn build(d: Seq<u64>, n: nat) -> Result<MatrixView, Error> {
        if d.len() > 36 {
            Err(Error::CapacityExceeded)
        } else {
            Self::checked(d, n)
        }
    }
}

/// A result that holds a matrix buffer, as a result that holds its view.
pub open spec fn matrix_result(r: Result<MatrixBuf, Error>) -> Result<MatrixView, Error> {
    match r {
        Ok(m) => Ok(m@),
        Err(e) => Err(e),
    }
}

/// Row `i` of a well-formed matrix lies within its data.
pub proof fn lemma_row_bounds(m: MatrixView, i: int)
    requires
        m.wf(),
        0 <= i < m.row_count(),
    ensures
        0 <= i * m.n,
        i * m.n + m.n <= m.d.len(),
        m.row(i).len() == m.n,
{
    let n = m.n as int;
    let len = m.d.len() as int;
    let q = len / n;
    assert(len == q * n) by (nonlinear_arith)
        requires
            n > 0,
            len % n == 0,
            q == len / n,
    ;
    assert(0 <= i * n && i * n + n <= q * n) by (nonlinear_arith)
        requires
            0 <= i < q,
            n > 0,
    ;
}

/// A buffer into which matrix data is stored: at most 36 elements in
/// row-major order, and the number of columns.
#[derive(Debug)]
pub struct MatrixBuf {
    pub(crate) d: heapless::Vec<u64, 36>,
    pub(crate) n: usize,
}

impl View for MatrixBuf {
    type V = MatrixView;

    open(crate) spec fn view(&self) -> MatrixView {
        MatrixView { d: elements(self.d), n: self.n as nat }
    }
}

impl MatrixBuf {
    #[verifier::type_invariant]
    pub(crate) open spec fn inv(self) -> bool {
        self@.wf()
    }

    /// Builds a matrix from its elements and its column count. More than 36
    /// elements are refused as `CapacityExceeded`; then a column count of
    /// zero as `ProtocolError`; then a last row that is not full as
    /// `ShapeMismatch`.
    pub fn new(d: &[u64], n: usize) -> (r: Result<MatrixBuf, Error>)
        ensures
            matrix_result(r) == MatrixView::build(d@, n as nat),
            r is Ok <==> (MatrixView { d: d@, n: n as nat }).wf(),
    {
        if d.len() > MAX_ELEMENTS {
            return Err(Error::CapacityExceeded);
        }
        let mut buf = elements_new();
        let mut i: usize = 0;
        while i < d.len()
            invariant
                i <= d@.len() <= 36,
                elements(buf) =~= d@.take(i as int),
            decreases d@.len() - i,
        {
            let pushed = elements_push(&mut buf, d[i]);
            assert(pushed.is_ok());
            i = i + 1;
        }
        assert(d@.take(d@.len() as int) =~= d@);
        MatrixBuf::assemble(buf, n)
    }

    /// Closes a decoded element buffer with its column count: a count of zero
    /// is a `ProtocolError`, a last row that is not full a `ShapeMismatch`.
    pub(crate) fn assemble(d: heapless::Vec<u64, 36>, n: usize) -> (r: Result<MatrixBuf, Error>)
        requires
            elements(d).len() <= 36,
        ensures
            matrix_result(r) == MatrixView::checked(elements(d), n as nat),
    {
        if n == 0 {
            return Err(Error::ProtocolError);
        }
        if elements_slice(&d).len() % n != 0 {
            return Err(Error::ShapeMismatch);
        }
        Ok(MatrixBuf { d, n })
    }

    /// The one-by-one matrix that holds `x`.
    pub fn scalar(x: u64) -> (m: MatrixBuf)
        ensures
            m@ == MatrixView::scalar(x),
    {
        let mut d = elements_new();
        let pushed = elements_push(&mut d, x);
        assert(pushed.is_ok());
        assert(elements(d) =~= seq![x]);
        MatrixBuf { d, n: 1 }
    }

    /// The elements in row-major order. They are those of a well-formed
    /// matrix, as the elements of every matrix buffer are.
    pub fn data(&self) -> (s: &[u64])
        ensures
            s@ == self@.d,
            self@.wf(),
    {
        proof {
            use_type_invariant(self);
        }
        elements_slice(&self.d)
    }

    /// The number of elements.
    pub fn len(&self) -> (k: usize)
        ensures
            k == self@.d.len(),
            k <= 36,
    {
        proof {
            use_type_invariant(self);
        }
        elements_slice(&self.d).len()
    }

    /// The number of columns, which is never zero.
    pub fn columns(&self) -> (n: usize)
        ensures
            n == self@.n,
            n > 0,
    {
        proof {
            use_type_invariant(self);
        }
        self.n
    }

    /// The number of rows.
    pub fn row_count(&self) -> (k: usize)
        ensures
            k == self@.row_count(),
    {
        proof {
            use_type_invariant(self);
        }
        elements_slice(&self.d).len() / self.n
    }

    /// A copy of row `i`, or `None` if there is no such row.
    pub fn row(&self, i: usize) -> (row: Option<Vec<u64>>)
        ensures
            row is Some <==> i < self@.row_count(),
            row matches Some(r) ==> r@ == self@.row(i as int),
    {
        if i < self.row_count() {
            Some(self.row_at(i))
        } else {
            None
        }
    }

    fn row_at(&self, i: usize) -> (row: Vec<u64>)
        requires
            i < self@.row_count(),
        ensures
            row@ == self@.row(i as int),
    {
        proof {
            use_type_invariant(self);
            lemma_row_bounds(self@, i as int);
        }
        let data = elements_slice(&self.d);
        let start: usize = i * self.n;
        let mut row: Vec<u64> = Vec::new();
        let mut j: usize = 0;
        while j < self.n
            invariant
                j <= self.n,
                start == i * self.n,
                start + self.n <= data@.len() <= 36,
                data@ == self@.d,
                row@ =~= self@.d.subrange(start as int, start + j),
            decreases self.n - j,
        {
            row.push(data[start + j]);
            j = j + 1;
        }
        row
    }

    /// The matrix as the host sees it: one vector per row, first row first.
    pub fn into_rows(self) -> (rows: Vec<Vec<u64>>)
        ensures
            rows.deep_view() == self@.rows(),
    {
        let count = self.row_count();
        let mut rows: Vec<Vec<u64>> = Vec::new();
        let mut i: usize = 0;
        while i < count
            invariant
                i <= count,
                count == self@.row_count(),
                rows@.len() == i,
                forall|k: int| 0 <= k < i ==> (#[trigger] rows@[k])@ == self@.row(k),
            decreases count - i,
        {
            let row = self.row_at(i);
            rows.push(row);
            i = i + 1;
        }
        assert forall|k: int| 0 <= k < count implies rows.deep_view()[k] == self@.rows()[k] by {}
        rows
    }

    /// An iterator over the rows, first row first.
    pub fn into_iter(self) -> (it: MatrixBufIter)
        ensures
            it.matrix() == self@,
            it.position() == 0,
    {
        MatrixBufIter { buf: self, i: 0 }
    }
}

/// Hands out the rows of a matrix one by one.
#[derive(Debug)]
pub struct MatrixBufIter {
    buf: MatrixBuf,
    i: usize,
}

impl MatrixBufIter {
    #[verifier::type_invariant]
    spec fn inv(self) -> bool {
        self.i <= self.buf@.row_count()
    }

    /// The matrix whose rows are handed out.
    pub closed spec fn matrix(&self) -> MatrixView {
        self.buf@
    }

    /// The number of rows handed out so far.
    pub closed spec fn position(&self) -> nat {
        self.i as nat
    }

    /// The next row, or `None` once every row was handed out.
    pub fn next(&mut self) -> (row: Option<Vec<u64>>)
        ensures
            final(self).matrix() == old(self).matrix(),
            final(self).position() == old(self).position() + (if row is Some { 1nat } else { 0nat }),
            row is Some <==> old(self).position() < old(self).matrix().row_count(),
            row matches Some(r) ==> r@ == old(self).matrix().row(old(self).position() as int),
    {
        proof {
            use_type_invariant(&*self);
        }
        if self.i >= self.buf.row_count() {
            None
        } else {
            let row = self.buf.row_at(self.i);
            self.i = self.i + 1;
            Some(row)
        }
    }

    /// The number of rows still to come.
    pub fn len(&self) -> (k: usize)
        ensures
            k == self.matrix().row_count() - self.position(),
    {
        proof {
            use_type_invariant(self);
        }
        self.buf.row_count() - self.i
    }
}

} // verus!
