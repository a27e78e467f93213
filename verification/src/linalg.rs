//! Vectors and matrices of single-precision bit patterns, with the exact
//! left-to-right accumulation order of every product pinned in spec
//! functions.

use vstd::prelude::*;

verus! {

use crate::scalar::{fadd, fsub, fmul, add_f, sub_f, mul_f, ZERO_BITS};

/// A dense matrix stored row by row. `data[r][c]` is the entry in row `r`,
/// column `c`; the number of rows is the length of `data`.
#[derive(Debug)]
pub struct Matrix {
    pub cols: usize,
    pub data: Vec<Vec<u32>>,
}

impl Matrix {
    pub open spec fn nrows(&self) -> int {
        self.data@.len() as int
    }

    pub open spec fn wf(&self) -> bool {
        forall|r: int| 0 <= r < self.data@.len() ==> (#[trigger] self.data@[r])@.len() == self.cols
    }

    pub open spec fn idx(&self, r: int, c: int) -> u32 {
        self.data@[r]@[c]
    }

    /// An all-zero matrix of the given shape.
    pub fn zero(rows: usize, cols: usize) -> (m: Matrix)
        ensures
            m.wf(),
            m.nrows() == rows,
            m.cols == cols,
            forall|r: int, c: int| 0 <= r < rows && 0 <= c < cols ==> #[trigger] m.idx(r, c) == ZERO_BITS,
    {
        let mut data: Vec<Vec<u32>> = Vec::new();
        for r in 0..rows
            invariant
                data@.len() == r,
                forall|i: int| 0 <= i < r ==> (#[trigger] data@[i])@.len() == cols,
                forall|i: int, j: int| 0 <= i < r && 0 <= j < cols ==> #[trigger] data@[i]@[j] == ZERO_BITS,
        {
            let mut row: Vec<u32> = Vec::new();
            for c in 0..cols
                invariant
                    row@.len() == c,
                    forall|j: int| 0 <= j < c ==> #[trigger] row@[j] == ZERO_BITS,
            {
                row.push(ZERO_BITS);
            }
            data.push(row);
        }
        Matrix { cols, data }
    }

    /// An entry-for-entry copy.
    pub fn duplicate(&self) -> (m: Matrix)
        ensures
            m.cols == self.cols,
            m.data@.len() == self.data@.len(),
            forall|r: int| 0 <= r < self.data@.len() ==> (#[trigger] m.data@[r])@ == self.data@[r]@,
    {
        let mut data: Vec<Vec<u32>> = Vec::new();
        let rows = self.data.len();
        for r in 0..rows
            invariant
                rows == self.data@.len(),
                data@.len() == r,
                forall|i: int| 0 <= i < r ==> (#[trigger] data@[i])@ == self.data@[i]@,
        {
            data.push(copy_vec(&self.data[r]));
        }
        Matrix { cols: self.cols, data }
    }
}

/// An element-for-element copy of a vector of scalars.
pub fn copy_vec(v: &Vec<u32>) -> (r: Vec<u32>)
    ensures
        r@ == v@,
{
    let mut out: Vec<u32> = Vec::new();
    let n = v.len();
    for i in 0..n
        invariant
            n == v@.len(),
            out@ == v@.subrange(0, i as int),
    {
        out.push(v[i]);
    }
    assert(out@ == v@);
    out
}

/// An all-zero vector of the given length.
pub fn zero_vec(n: usize) -> (r: Vec<u32>)
    ensures
        r@.len() == n,
        forall|i: int| 0 <= i < n ==> #[trigger] r@[i] == ZERO_BITS,
{
    let mut out: Vec<u32> = Vec::new();
    for i in 0..n
        invariant
            out@.len() == i,
            forall|j: int| 0 <= j < i ==> #[trigger] out@[j] == ZERO_BITS,
    {
        out.push(ZERO_BITS);
    }
    out
}

/// Elementwise sum of two vectors.
pub fn add_vecs(a: &Vec<u32>, b: &Vec<u32>) -> (r: Vec<u32>)
    requires
        a@.len() == b@.len(),
    ensures
        r@.len() == a@.len(),
        forall|i: int| 0 <= i < a@.len() ==> #[trigger] r@[i] == fadd(a@[i], b@[i]),
{
    let mut out: Vec<u32> = Vec::new();
    let n = a.len();
    for i in 0..n
        invariant
            n == a@.len(),
            a@.len() == b@.len(),
            out@.len() == i,
            forall|j: int| 0 <= j < i ==> #[trigger] out@[j] == fadd(a@[j], b@[j]),
    {
        out.push(add_f(a[i], b[i]));
    }
    out
}

/// Elementwise difference of two vectors.
pub fn sub_vecs(a: &Vec<u32>, b: &Vec<u32>) -> (r: Vec<u32>)
    requires
        a@.len() == b@.len(),
    ensures
        r@.len() == a@.len(),
        forall|i: int| 0 <= i < a@.len() ==> #[trigger] r@[i] == fsub(a@[i], b@[i]),
{
    let mut out: Vec<u32> = Vec::new();
    let n = a.len();
    for i in 0..n
        invariant
            n == a@.len(),
            a@.len() == b@.len(),
            out@.len() == i,
            forall|j: int| 0 <= j < i ==> #[trigger] out@[j] == fsub(a@[j], b@[j]),
    {
        out.push(sub_f(a[i], b[i]));
    }
    out
}

/// Elementwise product of two vectors.
pub fn mul_vecs(a: &Vec<u32>, b: &Vec<u32>) -> (r: Vec<u32>)
    requires
        a@.len() == b@.len(),
    ensures
        r@.len() == a@.len(),
        forall|i: int| 0 <= i < a@.len() ==> #[trigger] r@[i] == fmul(a@[i], b@[i]),
{
    let mut out: Vec<u32> = Vec::new();
    let n = a.len();
    for i in 0..n
        invariant
            n == a@.len(),
            a@.len() == b@.len(),
            out@.len() == i,
            forall|j: int| 0 <= j < i ==> #[trigger] out@[j] == fmul(a@[j], b@[j]),
    {
        out.push(mul_f(a[i], b[i]));
    }
    out
}

/// Elementwise sum of two matrices of the same shape.
pub fn add_mats(a: &Matrix, b: &Matrix) -> (m: Matrix)
    requires
        a.wf(),
        b.wf(),
        a.cols == b.cols,
        a.nrows() == b.nrows(),
    ensures
        m.wf(),
        m.cols == a.cols,
        m.nrows() == a.nrows(),
        forall|r: int, c: int| 0 <= r < a.nrows() && 0 <= c < a.cols ==> #[trigger] m.idx(r, c) == fadd(a.idx(r, c), b.idx(r, c)),
{
    let mut data: Vec<Vec<u32>> = Vec::new();
    let rows = a.data.len();
    for r in 0..rows
        invariant
            rows == a.data@.len(),
            a.wf(),
            b.wf(),
            a.cols == b.cols,
            a.nrows() == b.nrows(),
            data@.len() == r,
            forall|i: int| 0 <= i < r ==> (#[trigger] data@[i])@.len() == a.cols,
            forall|i: int, j: int| 0 <= i < r && 0 <= j < a.cols ==> #[trigger] data@[i]@[j] == fadd(a.idx(i, j), b.idx(i, j)),
    {
        data.push(add_vecs(&a.data[r], &b.data[r]));
    }
    Matrix { cols: a.cols, data }
}

/// Two matrices hold the same entries in the same shape.
pub open spec fn mat_eq(a: Matrix, b: Matrix) -> bool {
    &&& a.cols == b.cols
    &&& a.data@.len() == b.data@.len()
    &&& forall|r: int| 0 <= r < a.data@.len() ==> (#[trigger] a.data@[r])@ == b.data@[r]@
}

/// The left fold, from zero upward, of the products of a row vector's
/// entries with the entries of column `j` of a matrix: the first `n` terms
/// of `v · m[_, j]`, summed in index order.
pub open spec fn vm_acc(v: Seq<u32>, m: Matrix, j: int, n: int) -> u32
    decreases n,
{
    if n <= 0 {
        ZERO_BITS
    } else {
        fadd(vm_acc(v, m, j, n - 1), fmul(v[n - 1], m.idx(n - 1, j)))
    }
}

/// The left fold, from zero upward, of the products of row `i` of a matrix
/// with a column vector's entries: the first `n` terms of `m[i, _] · v`,
/// summed in index order.
pub open spec fn mv_acc(m: Matrix, v: Seq<u32>, i: int, n: int) -> u32
    decreases n,
{
    if n <= 0 {
        ZERO_BITS
    } else {
        fadd(mv_acc(m, v, i, n - 1), fmul(m.idx(i, n - 1), v[n - 1]))
    }
}

/// The left fold, from zero upward, of the squares of a vector's first `n`
/// entries: its squared Euclidean norm, summed in index order.
pub open spec fn sq_acc(v: Seq<u32>, n: int) -> u32
    decreases n,
{
    if n <= 0 {
        ZERO_BITS
    } else {
        fadd(sq_acc(v, n - 1), fmul(v[n - 1], v[n - 1]))
    }
}

/// A row vector times a matrix: entry `j` of the result is `v · m[_, j]`.
pub fn row_times_matrix(v: &Vec<u32>, m: &Matrix) -> (r: Vec<u32>)
    requires
        m.wf(),
        v@.len() == m.nrows(),
    ensures
        r@.len() == m.cols,
        forall|j: int| 0 <= j < m.cols ==> #[trigger] r@[j] == vm_acc(v@, *m, j, m.nrows()),
{
    let mut out: Vec<u32> = Vec::new();
    let rows = m.data.len();
    let cols = m.cols;
    for j in 0..cols
        invariant
            rows == m.data@.len(),
            cols == m.cols,
            m.wf(),
            v@.len() == m.nrows(),
            out@.len() == j,
            forall|jj: int| 0 <= jj < j ==> #[trigger] out@[jj] == vm_acc(v@, *m, jj, m.nrows()),
    {
        let mut acc = ZERO_BITS;
        for k in 0..rows
            invariant
                rows == m.data@.len(),
                cols == m.cols,
                j < cols,
                m.wf(),
                v@.len() == m.nrows(),
                acc == vm_acc(v@, *m, j as int, k as int),
        {
            acc = add_f(acc, mul_f(v[k], m.data[k][j]));
        }
        out.push(acc);
    }
    out
}

/// A matrix times a column vector: entry `i` of the result is `m[i, _] · v`.
pub fn matrix_times_col(m: &Matrix, v: &Vec<u32>) -> (r: Vec<u32>)
    requires
        m.wf(),
        v@.len() == m.cols,
    ensures
        r@.len() == m.nrows(),
        forall|i: int| 0 <= i < m.nrows() ==> #[trigger] r@[i] == mv_acc(*m, v@, i, m.cols as int),
{
    let mut out: Vec<u32> = Vec::new();
    let rows = m.data.len();
    let cols = m.cols;
    for i in 0..rows
        invariant
            rows == m.data@.len(),
            cols == m.cols,
            m.wf(),
            v@.len() == m.cols,
            out@.len() == i,
            forall|ii: int| 0 <= ii < i ==> #[trigger] out@[ii] == mv_acc(*m, v@, ii, m.cols as int),
    {
        let mut acc = ZERO_BITS;
        for k in 0..cols
            invariant
                rows == m.data@.len(),
                cols == m.cols,
                i < rows,
                m.wf(),
                v@.len() == m.cols,
                acc == mv_acc(*m, v@, i as int, k as int),
        {
            acc = add_f(acc, mul_f(m.data[i][k], v[k]));
        }
        out.push(acc);
    }
    out
}

/// The outer product of a column vector and a row vector: entry `(r, c)` is
/// `a[r] * b[c]`.
pub fn outer_product(a: &Vec<u32>, b: &Vec<u32>) -> (m: Matrix)
    ensures
        m.wf(),
        m.nrows() == a@.len(),
        m.cols == b@.len(),
        forall|r: int, c: int| 0 <= r < a@.len() && 0 <= c < b@.len() ==> #[trigger] m.idx(r, c) == fmul(a@[r], b@[c]),
{
    let mut data: Vec<Vec<u32>> = Vec::new();
    let rows = a.len();
    let cols = b.len();
    for r in 0..rows
        invariant
            rows == a@.len(),
            cols == b@.len(),
            data@.len() == r,
            forall|i: int| 0 <= i < r ==> (#[trigger] data@[i])@.len() == cols,
            forall|i: int, j: int| 0 <= i < r && 0 <= j < cols ==> #[trigger] data@[i]@[j] == fmul(a@[i], b@[j]),
    {
        let mut row: Vec<u32> = Vec::new();
        for c in 0..cols
            invariant
                rows == a@.len(),
                cols == b@.len(),
                r < rows,
                row@.len() == c,
                forall|j: int| 0 <= j < c ==> #[trigger] row@[j] == fmul(a@[r as int], b@[j]),
        {
            row.push(mul_f(a[r], b[c]));
        }
        data.push(row);
    }
    Matrix { cols, data }
}

/// The squared Euclidean norm of a vector, summed in index order.
pub fn sum_squares(v: &Vec<u32>) -> (r: u32)
    ensures
        r == sq_acc(v@, v@.len() as int),
{
    let mut acc = ZERO_BITS;
    let n = v.len();
    for i in 0..n
        invariant
            n == v@.len(),
            acc == sq_acc(v@, i as int),
    {
        acc = add_f(acc, mul_f(v[i], v[i]));
    }
    acc
}

} // verus!
