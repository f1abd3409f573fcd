//! Row-major matrices, and how a matrix product walks through them.
//!
//! A product reads its operands by strides: one step along the rows of an
//! operand and one along its columns. A transposed operand is the same memory
//! with the two strides exchanged. The [`Gemm`] of a product holds its sizes
//! and strides; what is multiplied and added is up to whoever runs it.
use vstd::prelude::*;
use vstd::slice::slice_subrange;

verus! {

/// A row-major matrix.
#[derive(Debug, PartialEq)]
pub struct Matrix<T> {
    pub rows: usize,
    pub cols: usize,
    pub data: Vec<T>,
}

/// Where an entry of a row-major matrix of so many columns stands.
pub open spec fn entry(cols: int, r: int, c: int) -> int {
    r * cols + c
}

/// Entries of a matrix stand inside it, and different ones at different places.
pub proof fn lemma_entry(rows: int, cols: int, r: int, c: int)
    requires
        0 <= r < rows,
        0 <= c < cols,
    ensures
        0 <= entry(cols, r, c) < rows * cols,
        0 <= r * cols,
        r * cols + cols <= rows * cols,
{
    assert(0 <= r * cols && r * cols + cols <= rows * cols) by (nonlinear_arith)
        requires
            0 <= r < rows,
            0 <= cols,
    ;
}

/// Different entries of a matrix stand at different places.
pub proof fn lemma_entry_injective(cols: int, r: int, c: int, s: int, d: int)
    requires
        0 <= c < cols,
        0 <= d < cols,
        entry(cols, r, c) == entry(cols, s, d),
    ensures
        r == s,
        c == d,
{
    assert(r == s) by (nonlinear_arith)
        requires
            0 <= c < cols,
            0 <= d < cols,
            r * cols + c == s * cols + d,
    ;
}

impl<T> Matrix<T> {
    /// Whether the entries are as many as the shape says.
    pub open spec fn wf(&self) -> bool {
        self.data@.len() == self.rows * self.cols
    }

    /// An entry.
    pub open spec fn at(&self, r: int, c: int) -> T {
        self.data@[entry(self.cols as int, r, c)]
    }

    /// A row.
    pub open spec fn line(&self, r: int) -> Seq<T> {
        self.data@.subrange(r * self.cols, r * self.cols + self.cols)
    }
}

impl<T: Copy> Matrix<T> {
    /// A matrix of one value.
    pub fn new(rows: usize, cols: usize, value: T) -> (matrix: Matrix<T>)
        requires
            rows * cols <= usize::MAX,
        ensures
            matrix.wf(),
            matrix.rows == rows,
            matrix.cols == cols,
            matrix.data@ == Seq::new((rows * cols) as nat, |i: int| value),
    {
        let total: usize = rows * cols;
        let mut data: Vec<T> = Vec::new();
        let mut i: usize = 0;
        while i < total
            invariant
                i <= total,
                data@ == Seq::new(i as nat, |i: int| value),
            decreases total - i,
        {
            data.push(value);
            i = i + 1;
            assert(data@ =~= Seq::new(i as nat, |i: int| value));
        }
        Matrix { rows, cols, data }
    }

    /// A matrix of the given entries.
    pub fn from_vec(rows: usize, cols: usize, data: Vec<T>) -> (matrix: Matrix<T>)
        requires
            data@.len() == rows * cols,
        ensures
            matrix.wf(),
            matrix.rows == rows,
            matrix.cols == cols,
            matrix.data == data,
    {
        Matrix { rows, cols, data }
    }

    /// Sets every entry to one value.
    pub fn zeros(&mut self, zero: T)
        requires
            old(self).wf(),
        ensures
            final(self).wf(),
            final(self).rows == old(self).rows,
            final(self).cols == old(self).cols,
            final(self).data@ == Seq::new(old(self).data@.len(), |i: int| zero),
    {
        let ghost start = self.data@;
        let mut i: usize = 0;
        while i < self.data.len()
            invariant
                i <= self.data@.len(),
                self.data@.len() == start.len(),
                self.rows == old(self).rows,
                self.cols == old(self).cols,
                forall|k: int| 0 <= k < i ==> #[trigger] self.data@[k] == zero,
            decreases self.data.len() - i,
        {
            self.data.set(i, zero);
            i = i + 1;
        }
        assert(self.data@ =~= Seq::new(start.len(), |i: int| zero));
    }

    /// Takes over the given entries.
    pub fn copy_from_slice(&mut self, source: &[T])
        requires
            old(self).wf(),
            source@.len() == old(self).data@.len(),
        ensures
            final(self).wf(),
            final(self).rows == old(self).rows,
            final(self).cols == old(self).cols,
            final(self).data@ == source@,
    {
        let mut i: usize = 0;
        while i < source.len()
            invariant
                i <= source@.len(),
                self.data@.len() == source@.len(),
                self.rows == old(self).rows,
                self.cols == old(self).cols,
                forall|k: int| 0 <= k < i ==> #[trigger] self.data@[k] == source@[k],
            decreases source.len() - i,
        {
            self.data.set(i, source[i]);
            i = i + 1;
        }
        assert(self.data@ =~= source@);
    }

    /// A row, as a contiguous slice.
    pub fn row(&self, index: usize) -> (row: &[T])
        requires
            self.wf(),
            index < self.rows,
        ensures
            row@ == self.line(index as int),
            row@.len() == self.cols,
    {
        let total: usize = self.data.len();
        proof {
            if self.cols > 0 {
                lemma_entry(self.rows as int, self.cols as int, index as int, 0);
            } else {
                assert(index * self.cols == 0) by (nonlinear_arith)
                    requires
                        self.cols == 0,
                ;
            }
        }
        let start: usize = index * self.cols;
        slice_subrange(self.data.as_slice(), start, start + self.cols)
    }

    /// Replaces an entry.
    pub fn set(&mut self, r: usize, c: usize, value: T)
        requires
            old(self).wf(),
            r < old(self).rows,
            c < old(self).cols,
        ensures
            final(self).wf(),
            final(self).rows == old(self).rows,
            final(self).cols == old(self).cols,
            final(self).data@ == old(self).data@.update(
                entry(old(self).cols as int, r as int, c as int),
                value,
            ),
    {
        let total: usize = self.data.len();
        proof {
            lemma_entry(self.rows as int, self.cols as int, r as int, c as int);
        }
        let at: usize = r * self.cols + c;
        self.data.set(at, value);
    }

    /// An entry.
    pub fn get(&self, r: usize, c: usize) -> (value: T)
        requires
            self.wf(),
            r < self.rows,
            c < self.cols,
        ensures
            value == self.at(r as int, c as int),
    {
        let total: usize = self.data.len();
        proof {
            lemma_entry(self.rows as int, self.cols as int, r as int, c as int);
        }
        self.data[r * self.cols + c]
    }

    /// The given rows, one after another.
    pub fn gather_rows(&self, rows: &Vec<usize>) -> (gathered: Matrix<T>)
        requires
            self.wf(),
            rows@.len() * self.cols <= usize::MAX,
            forall|i: int| 0 <= i < rows@.len() ==> (#[trigger] rows@[i]) < self.rows,
        ensures
            gathered.wf(),
            gathered.rows == rows@.len(),
            gathered.cols == self.cols,
            forall|i: int, c: int|
                0 <= i < rows@.len() && 0 <= c < self.cols ==> #[trigger] gathered.at(i, c)
                    == self.at(rows@[i] as int, c),
    {
        let mut data: Vec<T> = Vec::new();
        let ghost width = self.cols as int;
        let mut i: usize = 0;
        assert(0 * width == 0);
        while i < rows.len()
            invariant
                i <= rows@.len(),
                width == self.cols,
                self.wf(),
                rows@.len() * self.cols <= usize::MAX,
                forall|i: int| 0 <= i < rows@.len() ==> (#[trigger] rows@[i]) < self.rows,
                data@.len() == i * width,
                forall|k: int, c: int|
                    0 <= k < i && 0 <= c < width ==> data@[#[trigger] entry(width, k, c)]
                        == self.at(rows@[k] as int, c),
            decreases rows.len() - i,
        {
            let ghost before = data@;
            let row = self.row(rows[i]);
            let mut c: usize = 0;
            while c < row.len()
                invariant
                    c <= row@.len(),
                    data@ == before + row@.take(c as int),
                decreases row.len() - c,
            {
                data.push(row[c]);
                c = c + 1;
                assert(data@ =~= before + row@.take(c as int));
            }
            proof {
                assert(row@.take(c as int) =~= row@);
                assert((i + 1) * width == i * width + width) by (nonlinear_arith);
                assert forall|k: int, c: int| 0 <= k < i + 1 && 0 <= c < width implies data@[
                #[trigger] entry(width, k, c)] == self.at(rows@[k] as int, c) by {
                    lemma_entry(i + 1, width, k, c);
                    if k < i {
                        lemma_entry(i as int, width, k, c);
                        assert(before[entry(width, k, c)] == self.at(rows@[k] as int, c));
                    } else {
                        lemma_entry(self.rows as int, width, rows@[k] as int, c);
                        assert(data@[entry(width, k, c)] == row@[c]);
                    }
                }
            }
            i = i + 1;
        }
        let gathered = Matrix { rows: rows.len(), cols: self.cols, data };
        assert forall|i: int, c: int|
            0 <= i < rows@.len() && 0 <= c < self.cols implies #[trigger] gathered.at(i, c)
            == self.at(rows@[i] as int, c) by {
            assert(gathered.at(i, c) == data@[entry(width, i, c)]);
        }
        gathered
    }
}

// -- Products ----------------------------------------------------------------

/// The sizes and strides of a product `c[m, n] = a[m, k] * b[k, n]`, added to
/// what the target holds when `accumulate` says so.
#[derive(Clone, Copy, Debug, PartialEq, Eq, Structural)]
pub struct Gemm {
    pub m: usize,
    pub k: usize,
    pub n: usize,
    pub a_row: usize,
    pub a_col: usize,
    pub b_row: usize,
    pub b_col: usize,
    pub c_row: usize,
    pub c_col: usize,
    pub accumulate: bool,
}

impl Gemm {
    /// Whether the first operand is read as the given matrix.
    pub open spec fn reads_a<T>(self, a: Matrix<T>) -> bool {
        self.m == a.rows && self.k == a.cols && self.a_row == a.cols && self.a_col == 1
    }

    /// Whether the first operand is read as the transpose of the given matrix.
    pub open spec fn reads_a_transposed<T>(self, a: Matrix<T>) -> bool {
        self.m == a.cols && self.k == a.rows && self.a_row == 1 && self.a_col == a.cols
    }

    /// Whether the first operand is read as the first column of a matrix.
    pub open spec fn reads_a_column<T>(self, a: Matrix<T>) -> bool {
        self.m == a.rows && self.k == 1 && self.a_row == a.cols && self.a_col == 1 && a.cols >= 1
    }

    /// Whether the second operand is read as the first column of a matrix.
    pub open spec fn reads_b_column<T>(self, b: Matrix<T>) -> bool {
        self.k == b.rows && self.n == 1 && self.b_row == b.cols && self.b_col == 1 && b.cols >= 1
    }

    /// Whether the second operand is read as the given matrix.
    pub open spec fn reads_b<T>(self, b: Matrix<T>) -> bool {
        self.k == b.rows && self.n == b.cols && self.b_row == b.cols && self.b_col == 1
    }

    /// Whether the second operand is read as the transpose of the given matrix.
    pub open spec fn reads_b_transposed<T>(self, b: Matrix<T>) -> bool {
        self.k == b.cols && self.n == b.rows && self.b_row == 1 && self.b_col == b.cols
    }

    /// Whether the target is written as the given matrix.
    pub open spec fn writes<T>(self, c: Matrix<T>) -> bool {
        self.m == c.rows && self.n == c.cols && self.c_row == c.cols && self.c_col == 1
    }

    /// Where entry `(i, l)` of the first operand is read.
    pub open spec fn a_at(self, i: int, l: int) -> int {
        i * self.a_row + l * self.a_col
    }

    /// Where entry `(l, j)` of the second operand is read.
    pub open spec fn b_at(self, l: int, j: int) -> int {
        l * self.b_row + j * self.b_col
    }

    /// Where entry `(i, j)` of the target is written.
    pub open spec fn c_at(self, i: int, j: int) -> int {
        i * self.c_row + j * self.c_col
    }
}

/// A product never reads or writes outside its matrices: each entry it names
/// is the entry of the matrix that the product means.
pub proof fn law_product_in_bounds<T>(
    g: Gemm,
    a: Matrix<T>,
    b: Matrix<T>,
    c: Matrix<T>,
    i: int,
    l: int,
    j: int,
)
    requires
        a.wf(),
        b.wf(),
        c.wf(),
        g.reads_a(a) || g.reads_a_transposed(a) || g.reads_a_column(a),
        g.reads_b(b) || g.reads_b_transposed(b) || g.reads_b_column(b),
        g.writes(c),
        0 <= i < g.m,
        0 <= l < g.k,
        0 <= j < g.n,
    ensures
        0 <= g.a_at(i, l) < a.data@.len(),
        g.reads_a(a) || g.reads_a_column(a) ==> a.data@[g.a_at(i, l)] == a.at(i, l),
        g.reads_a_transposed(a) ==> a.data@[g.a_at(i, l)] == a.at(l, i),
        0 <= g.b_at(l, j) < b.data@.len(),
        g.reads_b(b) || g.reads_b_column(b) ==> b.data@[g.b_at(l, j)] == b.at(l, j),
        g.reads_b_transposed(b) ==> b.data@[g.b_at(l, j)] == b.at(j, l),
        0 <= g.c_at(i, j) < c.data@.len(),
        c.data@[g.c_at(i, j)] == c.at(i, j),
{
    lemma_entry(c.rows as int, c.cols as int, i, j);
    assert(j * g.c_col == j) by (nonlinear_arith)
        requires
            g.c_col == 1,
    ;
    if g.reads_a(a) || g.reads_a_column(a) {
        lemma_entry(a.rows as int, a.cols as int, i, l);
        assert(l * g.a_col == l) by (nonlinear_arith)
            requires
                g.a_col == 1,
        ;
    }
    if g.reads_a_transposed(a) {
        lemma_entry(a.rows as int, a.cols as int, l, i);
        assert(i * g.a_row == i) by (nonlinear_arith)
            requires
                g.a_row == 1,
        ;
    }
    if g.reads_b(b) || g.reads_b_column(b) {
        lemma_entry(b.rows as int, b.cols as int, l, j);
        assert(j * g.b_col == j) by (nonlinear_arith)
            requires
                g.b_col == 1,
        ;
    }
    if g.reads_b_transposed(b) {
        lemma_entry(b.rows as int, b.cols as int, j, l);
        assert(l * g.b_row == l) by (nonlinear_arith)
            requires
                g.b_row == 1,
        ;
    }
}

/// A product writes every entry of its target once: different entries stand
/// at different places.
pub proof fn law_product_writes_once<T>(g: Gemm, c: Matrix<T>, i: int, j: int, p: int, q: int)
    requires
        g.writes(c),
        0 <= i < g.m,
        0 <= p < g.m,
        0 <= j < g.n,
        0 <= q < g.n,
        g.c_at(i, j) == g.c_at(p, q),
    ensures
        i == p,
        j == q,
{
    assert(j * g.c_col == j && q * g.c_col == q) by (nonlinear_arith)
        requires
            g.c_col == 1,
    ;
    lemma_entry_injective(c.cols as int, i, j, p, q);
}

impl<T> Matrix<T> {
    /// `target = self * other`.
    pub fn dot(&self, other: &Matrix<T>, target: &Matrix<T>) -> (g: Gemm)
        requires
            self.cols == other.rows,
            target.rows == self.rows,
            target.cols == other.cols,
        ensures
            g.reads_a(*self),
            g.reads_b(*other),
            g.writes(*target),
            !g.accumulate,
    {
        Gemm {
            m: self.rows,
            k: self.cols,
            n: other.cols,
            a_row: self.cols,
            a_col: 1,
            b_row: other.cols,
            b_col: 1,
            c_row: target.cols,
            c_col: 1,
            accumulate: false,
        }
    }

    /// `target = self * other^T`.
    pub fn dot_rhs_transposed(&self, other: &Matrix<T>, target: &Matrix<T>) -> (g: Gemm)
        requires
            self.cols == other.cols,
            target.rows == self.rows,
            target.cols == other.rows,
        ensures
            g.reads_a(*self),
            g.reads_b_transposed(*other),
            g.writes(*target),
            !g.accumulate,
    {
        Gemm {
            m: self.rows,
            k: self.cols,
            n: other.rows,
            a_row: self.cols,
            a_col: 1,
            b_row: 1,
            b_col: other.cols,
            c_row: target.cols,
            c_col: 1,
            accumulate: false,
        }
    }

    /// `target = self^T * other`.
    pub fn dot_self_transposed(&self, other: &Matrix<T>, target: &Matrix<T>) -> (g: Gemm)
        requires
            self.rows == other.rows,
            target.rows == self.cols,
            target.cols == other.cols,
        ensures
            g.reads_a_transposed(*self),
            g.reads_b(*other),
            g.writes(*target),
            !g.accumulate,
    {
        Gemm {
            m: self.cols,
            k: self.rows,
            n: other.cols,
            a_row: 1,
            a_col: self.cols,
            b_row: other.cols,
            b_col: 1,
            c_row: target.cols,
            c_col: 1,
            accumulate: false,
        }
    }

    /// `target += self^T * other`.
    pub fn dot_self_transposed_accumulate(&self, other: &Matrix<T>, target: &Matrix<T>) -> (g: Gemm)
        requires
            self.rows == other.rows,
            target.rows == self.cols,
            target.cols == other.cols,
        ensures
            g.reads_a_transposed(*self),
            g.reads_b(*other),
            g.writes(*target),
            g.accumulate,
    {
        Gemm { accumulate: true, ..self.dot_self_transposed(other, target) }
    }

    /// `target = self * input^T`, for the first column of `self` and a single
    /// column.
    pub fn outer_product(&self, input: &Matrix<T>, target: &Matrix<T>) -> (g: Gemm)
        requires
            self.cols >= 1,
            input.cols == 1,
            target.rows == self.rows,
            target.cols == input.rows,
        ensures
            g.reads_a_column(*self),
            g.reads_b_transposed(*input),
            g.writes(*target),
            !g.accumulate,
    {
        Gemm {
            m: self.rows,
            k: 1,
            n: input.rows,
            a_row: self.cols,
            a_col: 1,
            b_row: 1,
            b_col: input.cols,
            c_row: target.cols,
            c_col: 1,
            accumulate: false,
        }
    }

    /// `target = self^T * error`, for the first column of `error` and a target
    /// of one column.
    pub fn dot_transpose_self(&self, error: &Matrix<T>, target: &Matrix<T>) -> (g: Gemm)
        requires
            self.rows == error.rows,
            error.cols >= 1,
            target.rows == self.cols,
            target.cols == 1,
        ensures
            g.reads_a_transposed(*self),
            g.reads_b_column(*error),
            g.writes(*target),
            !g.accumulate,
    {
        Gemm {
            m: self.cols,
            k: self.rows,
            n: 1,
            a_row: 1,
            a_col: self.cols,
            b_row: error.cols,
            b_col: 1,
            c_row: target.cols,
            c_col: 1,
            accumulate: false,
        }
    }
}

} // verus!
