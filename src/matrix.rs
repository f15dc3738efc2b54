use vstd::prelude::*;

use vstd::arithmetic::div_mod::lemma_fundamental_div_mod_converse;

use crate::error::MatrixError;
use crate::text::{decimal, decimal_nat, push_decimal, push_digits};
use crate::vector::{dot, dot_fits, dot_in_range, dot_prefix, dot_product, Vector};

verus! {

/// Number of workers that share the cells of one product.
pub const NUM_THREADS: usize = 4;

/// A dense matrix, stored row by row: element `(i, j)` sits at `i * col + j`.
pub struct Matrix {
    data: Vec<i64>,
    row: usize,
    col: usize,
}

/// One cell of a product: its flat index, and the row and column whose dot
/// product it holds.
pub struct MsgInput {
    pub idx: usize,
    pub row: Vector,
    pub col: Vector,
}

/// A worker's answer for one cell.
pub struct MsgOutput {
    pub idx: usize,
    pub value: i64,
}

impl Matrix {
    /// The buffer holds exactly `row * col` elements.
    pub closed spec fn wf(&self) -> bool {
        self.data@.len() == self.row * self.col
    }

    pub closed spec fn nrows(&self) -> nat {
        self.row as nat
    }

    pub closed spec fn ncols(&self) -> nat {
        self.col as nat
    }

    /// The flat row-major buffer.
    pub closed spec fn cells(&self) -> Seq<i64> {
        self.data@
    }

    pub open spec fn entry(&self, i: int, j: int) -> i64 {
        self.cells()[i * self.ncols() + j]
    }

    /// Row `i`, of length `ncols()`.
    pub open spec fn row_seq(&self, i: int) -> Seq<i64> {
        Seq::new(self.ncols(), |k: int| self.entry(i, k))
    }

    /// Column `j`, of length `nrows()`.
    pub open spec fn col_seq(&self, j: int) -> Seq<i64> {
        Seq::new(self.nrows(), |k: int| self.entry(k, j))
    }

    /// Wraps a row-major buffer of exactly `row * col` elements.
    pub fn new(data: Vec<i64>, row: usize, col: usize) -> (r: Self)
        requires
            data@.len() == row * col,
        ensures
            r.wf(),
            r.nrows() == row,
            r.ncols() == col,
            r.cells() == data@,
    {
        Matrix { data, row, col }
    }

    pub fn row(&self) -> (r: usize)
        ensures
            r == self.nrows(),
    {
        self.row
    }

    pub fn col(&self) -> (r: usize)
        ensures
            r == self.ncols(),
    {
        self.col
    }

    pub fn data(&self) -> (r: &Vec<i64>)
        ensures
            r@ == self.cells(),
    {
        &self.data
    }

    /// Row `i` as an owned vector.
    pub fn row_vector(&self, i: usize) -> (r: Vector)
        requires
            self.wf(),
            i < self.nrows(),
        ensures
            r@ == self.row_seq(i as int),
    {
        let mut v: Vec<i64> = Vec::new();
        let c = self.col;
        let len = self.data.len();
        for k in 0..c
            invariant
                len == self.cells().len(),
                self.wf(),
                c == self.ncols(),
                i < self.nrows(),
                v@ == self.row_seq(i as int).subrange(0, k as int),
        {
            proof {
                lemma_cell_in_bounds(self.row as int, c as int, i as int, k as int);
            }
            v.push(self.data[i * c + k]);
            assert(v@ =~= self.row_seq(i as int).subrange(0, k + 1));
        }
        assert(v@ =~= self.row_seq(i as int));
        Vector::new(v)
    }

    /// Column `j` gathered with stride `col` into an owned vector.
    pub fn column_vector(&self, j: usize) -> (r: Vector)
        requires
            self.wf(),
            j < self.ncols(),
        ensures
            r@ == self.col_seq(j as int),
    {
        let mut v: Vec<i64> = Vec::new();
        let c = self.col;
        let len = self.data.len();
        for k in 0..self.row
            invariant
                len == self.cells().len(),
                self.wf(),
                c == self.ncols(),
                j < self.ncols(),
                v@ == self.col_seq(j as int).subrange(0, k as int),
        {
            proof {
                lemma_cell_in_bounds(self.row as int, c as int, k as int, j as int);
            }
            v.push(self.data[k * c + j]);
            assert(v@ =~= self.col_seq(j as int).subrange(0, k + 1));
        }
        assert(v@ =~= self.col_seq(j as int));
        Vector::new(v)
    }
}

/// The first `n` values of row `i`, each in decimal, separated by spaces.
pub open spec fn row_text(m: Matrix, i: int, n: int) -> Seq<char>
    decreases n,
{
    if n <= 0 {
        seq![]
    } else if n == 1 {
        decimal(m.entry(i, 0) as int)
    } else {
        row_text(m, i, n - 1) + seq![' '] + decimal(m.entry(i, n - 1) as int)
    }
}

/// The texts of the first `n` rows, joined by `", "`.
pub open spec fn rows_text(m: Matrix, n: int) -> Seq<char>
    decreases n,
{
    if n <= 0 {
        seq![]
    } else if n == 1 {
        row_text(m, 0, m.ncols() as int)
    } else {
        rows_text(m, n - 1) + seq![',', ' '] + row_text(m, n - 1, m.ncols() as int)
    }
}

/// The display form: `{v00 v01 ..., v10 v11 ..., ...}`.
pub open spec fn display_text(m: Matrix) -> Seq<char> {
    seq!['{'] + rows_text(m, m.nrows() as int) + seq!['}']
}

/// The diagnostic form: `Matrix(row=R, col=C, {...})`.
pub open spec fn debug_text(m: Matrix) -> Seq<char> {
    "Matrix(row="@ + decimal_nat(m.nrows()) + ", col="@ + decimal_nat(m.ncols()) + ", "@
        + display_text(m) + ")"@
}

impl Matrix {
    /// The display form of the matrix.
    pub fn to_string(&self) -> (r: String)
        requires
            self.wf(),
        ensures
            r@ == display_text(*self),
    {
        let mut s = String::new();
        proof {
            reveal_strlit("{");
            reveal_strlit("}");
        }
        s.append("{");
        let c = self.col;
        let len = self.data.len();
        for i in 0..self.row
            invariant
                len == self.cells().len(),
                self.wf(),
                c == self.ncols(),
                s@ == seq!['{'] + rows_text(*self, i as int),
        {
            if i > 0 {
                proof {
                    reveal_strlit(", ");
                }
                s.append(", ");
            }
            let ghost pre = s@;
            for j in 0..c
                invariant
                    len == self.cells().len(),
                    self.wf(),
                    c == self.ncols(),
                    i < self.nrows(),
                    s@ == pre + row_text(*self, i as int, j as int),
            {
                let ghost mid = s@;
                if j > 0 {
                    proof {
                        reveal_strlit(" ");
                    }
                    s.append(" ");
                }
                let ghost sep = s@;
                proof {
                    lemma_cell_in_bounds(self.row as int, c as int, i as int, j as int);
                }
                let v = self.data[i * c + j];
                assert(v == self.entry(i as int, j as int));
                push_decimal(&mut s, v);
                if j > 0 {
                    assert(sep =~= pre + row_text(*self, i as int, j as int) + seq![' ']);
                    assert(s@ =~= pre + (row_text(*self, i as int, j as int) + seq![' '] + decimal(
                        v as int,
                    )));
                } else {
                    assert(sep == pre);
                }
                assert(s@ =~= pre + row_text(*self, i as int, j + 1));
            }
            if i > 0 {
                assert(pre =~= seq!['{'] + (rows_text(*self, i as int) + seq![',', ' ']));
            }
            assert(s@ =~= seq!['{'] + rows_text(*self, i + 1));
        }
        s.append("}");
        assert(s@ =~= display_text(*self));
        s
    }

    /// The diagnostic form of the matrix, with its shape.
    pub fn to_debug_string(&self) -> (r: String)
        requires
            self.wf(),
        ensures
            r@ == debug_text(*self),
    {
        let mut s = String::new();
        proof {
            reveal_strlit("Matrix(row=");
            reveal_strlit(", col=");
            reveal_strlit(", ");
            reveal_strlit(")");
        }
        s.append("Matrix(row=");
        push_digits(&mut s, self.row as u64);
        s.append(", col=");
        push_digits(&mut s, self.col as u64);
        s.append(", ");
        let body = self.to_string();
        s.append(body.as_str());
        s.append(")");
        assert(s@ =~= debug_text(*self));
        s
    }
}

proof fn lemma_cell_in_bounds(r: int, c: int, i: int, j: int)
    requires
        0 <= i < r,
        0 <= j < c,
    ensures
        0 <= i * c + j < r * c,
{
    assert(0 <= i * c + j < r * c) by (nonlinear_arith)
        requires
            0 <= i < r,
            0 <= j < c,
    ;
}

/// Cell `(i, j)` of the product of `a` and `b`.
pub open spec fn product_entry(a: Matrix, b: Matrix, i: int, j: int) -> int {
    dot(a.row_seq(i), b.col_seq(j))
}

/// Every cell of the product is computed without leaving `i64`.
pub open spec fn product_fits(a: Matrix, b: Matrix) -> bool {
    forall|i: int, j: int|
        0 <= i < a.nrows() && 0 <= j < b.ncols() ==> #[trigger] dot_fits(
            a.row_seq(i),
            b.col_seq(j),
        )
}

/// What a product of `a` and `b` needs beyond matching shapes: a result that
/// a `Vec` can index, and cells that fit in `i64`.
pub open spec fn product_in_range(a: Matrix, b: Matrix) -> bool {
    &&& a.nrows() * b.ncols() <= usize::MAX
    &&& product_fits(a, b)
}

/// Whether `a` and `b` can be multiplied: their shapes fit, and the
/// product stays in range.
pub fn can_multiply(a: &Matrix, b: &Matrix) -> (r: bool)
    requires
        a.wf(),
        b.wf(),
    ensures
        r == (a.ncols() == b.nrows() && product_in_range(*a, *b)),
{
    if a.col != b.row {
        return false;
    }
    if a.row.checked_mul(b.col).is_none() {
        return false;
    }
    let rows = a.row;
    let cols = b.col;
    for i in 0..rows
        invariant
            a.wf(),
            b.wf(),
            a.ncols() == b.nrows(),
            rows == a.nrows(),
            cols == b.ncols(),
            forall|p: int, q: int|
                0 <= p < i && 0 <= q < cols ==> #[trigger] dot_fits(a.row_seq(p), b.col_seq(q)),
    {
        let row = a.row_vector(i);
        for j in 0..cols
            invariant
                a.wf(),
                b.wf(),
                a.ncols() == b.nrows(),
                rows == a.nrows(),
                cols == b.ncols(),
                i < rows,
                row@ == a.row_seq(i as int),
                forall|p: int, q: int|
                    0 <= p < i && 0 <= q < cols ==> #[trigger] dot_fits(a.row_seq(p), b.col_seq(q)),
                forall|q: int| 0 <= q < j ==> #[trigger] dot_fits(a.row_seq(i as int), b.col_seq(q)),
        {
            let col = b.column_vector(j);
            if !dot_in_range(&row, &col) {
                return false;
            }
        }
    }
    true
}

/// Task `k` of the product of `a` and `b`: the cell at flat index `k`.
pub open spec fn is_task_for(t: MsgInput, a: Matrix, b: Matrix, k: int) -> bool {
    &&& t.idx == k
    &&& t.row@ == a.row_seq(k / (b.ncols() as int))
    &&& t.col@ == b.col_seq(k % (b.ncols() as int))
}

/// The worker that task `idx` is sent to: tasks go round-robin by index.
pub fn worker_of(idx: usize) -> (r: usize)
    ensures
        r == idx % NUM_THREADS,
        r < NUM_THREADS,
{
    idx % NUM_THREADS
}

/// The scatter phase: one task per output cell, in row-major order.
pub fn scatter(a: &Matrix, b: &Matrix) -> (r: Vec<MsgInput>)
    requires
        a.wf(),
        b.wf(),
        a.ncols() == b.nrows(),
        a.nrows() * b.ncols() <= usize::MAX,
    ensures
        r@.len() == a.nrows() * b.ncols(),
        forall|k: int| 0 <= k < r@.len() ==> #[trigger] is_task_for(r@[k], *a, *b, k),
{
    let mut tasks: Vec<MsgInput> = Vec::new();
    let ghost rows = a.nrows() as int;
    let c = b.col;
    assert(0 * c == 0) by (nonlinear_arith);
    for i in 0..a.row
        invariant
            a.wf(),
            b.wf(),
            a.ncols() == b.nrows(),
            rows == a.nrows(),
            c == b.ncols(),
            rows * c <= usize::MAX,
            tasks@.len() == i * c,
            forall|k: int| 0 <= k < tasks@.len() ==> #[trigger] is_task_for(tasks@[k], *a, *b, k),
    {
        for j in 0..c
            invariant
                a.wf(),
                b.wf(),
                a.ncols() == b.nrows(),
                rows == a.nrows(),
                c == b.ncols(),
                rows * c <= usize::MAX,
                i < rows,
                tasks@.len() == i * c + j,
                forall|k: int|
                    0 <= k < tasks@.len() ==> #[trigger] is_task_for(tasks@[k], *a, *b, k),
        {
            proof {
                lemma_cell_in_bounds(rows, c as int, i as int, j as int);
                lemma_fundamental_div_mod_converse(i * c + j, c as int, i as int, j as int);
            }
            let idx = i * c + j;
            let row = a.row_vector(i);
            let col = b.column_vector(j);
            tasks.push(MsgInput::new(idx, row, col));
            assert(is_task_for(tasks@[idx as int], *a, *b, idx as int));
        }
        assert(i * c + c == (i + 1) * c) by (nonlinear_arith);
    }
    tasks
}

impl MsgInput {
    pub fn new(idx: usize, row: Vector, col: Vector) -> (r: Self)
        ensures
            r.idx == idx,
            r.row@ == row@,
            r.col@ == col@,
    {
        MsgInput { idx, row, col }
    }
}

/// A worker's step: the dot product of the task's row and column, tagged
/// with the task's index.
pub fn process(task: MsgInput) -> (r: Result<MsgOutput, MatrixError>)
    requires
        task.row@.len() == task.col@.len() ==> dot_fits(task.row@, task.col@),
    ensures
        r is Err <==> task.row@.len() != task.col@.len(),
        r matches Err(e) ==> e == MatrixError::DimensionMismatch,
        r matches Ok(o) ==> o.idx == task.idx && o.value == dot(task.row@, task.col@),
{
    let idx = task.idx;
    match dot_product(task.row, task.col) {
        Ok(value) => Ok(MsgOutput { idx, value }),
        Err(e) => Err(e),
    }
}

/// The gather phase: the replies, one per cell in submission order, become
/// the `row × col` result.
pub fn gather(replies: Vec<MsgOutput>, row: usize, col: usize) -> (r: Result<Matrix, MatrixError>)
    requires
        row * col <= usize::MAX,
    ensures
        r is Ok <==> (replies@.len() == row * col && forall|k: int|
            0 <= k < replies@.len() ==> #[trigger] replies@[k].idx == k),
        r matches Err(e) ==> e == MatrixError::ReplyMismatch,
        r matches Ok(m) ==> {
            &&& m.wf()
            &&& m.nrows() == row
            &&& m.ncols() == col
            &&& forall|k: int| 0 <= k < replies@.len() ==> m.cells()[k] == #[trigger] replies@[k].value
        },
{
    let n = row * col;
    if replies.len() != n {
        return Err(MatrixError::ReplyMismatch);
    }
    let mut data: Vec<i64> = Vec::new();
    for k in 0..n
        invariant
            n == row * col,
            replies@.len() == n,
            data@.len() == k,
            forall|q: int| 0 <= q < k ==> #[trigger] replies@[q].idx == q,
            forall|q: int| 0 <= q < k ==> data@[q] == #[trigger] replies@[q].value,
    {
        if replies[k].idx != k {
            return Err(MatrixError::ReplyMismatch);
        }
        data.push(replies[k].value);
    }
    Ok(Matrix { data, row, col })
}

/// `m` is the product of `a` and `b`: shape `a.row × b.col`, and each cell
/// the dot product of a row of `a` with a column of `b`.
pub open spec fn is_product(a: Matrix, b: Matrix, m: Matrix) -> bool {
    &&& m.wf()
    &&& m.nrows() == a.nrows()
    &&& m.ncols() == b.ncols()
    &&& forall|i: int, j: int|
        0 <= i < m.nrows() && 0 <= j < m.ncols() ==> #[trigger] m.entry(i, j) == product_entry(
            a,
            b,
            i,
            j,
        )
}

/// Σ a[i][k] * b[k][j] over `k < n`, as a triple loop adds it up.
pub open spec fn naive_cell(a: Matrix, b: Matrix, i: int, j: int, n: int) -> int
    decreases n,
{
    if n <= 0 {
        0
    } else {
        naive_cell(a, b, i, j, n - 1) + a.entry(i, n - 1) * b.entry(n - 1, j)
    }
}

proof fn lemma_dot_is_naive(a: Matrix, b: Matrix, i: int, j: int, n: int)
    requires
        0 <= n <= a.ncols(),
        a.ncols() == b.nrows(),
    ensures
        dot_prefix(a.row_seq(i), b.col_seq(j), n) == naive_cell(a, b, i, j, n),
    decreases n,
{
    if n > 0 {
        lemma_dot_is_naive(a, b, i, j, n - 1);
    }
}

/// Each cell of a product equals the sum that the plain triple loop
/// computes: `m[i][j] == Σ_k a[i][k] * b[k][j]`.
pub proof fn lemma_product_is_triple_loop(a: Matrix, b: Matrix, m: Matrix, i: int, j: int)
    requires
        a.ncols() == b.nrows(),
        is_product(a, b, m),
        0 <= i < m.nrows(),
        0 <= j < m.ncols(),
    ensures
        m.entry(i, j) == naive_cell(a, b, i, j, a.ncols() as int),
{
    lemma_dot_is_naive(a, b, i, j, a.ncols() as int);
    assert(m.entry(i, j) == product_entry(a, b, i, j));
}

/// Two products of the same operands are identical, cell for cell.
pub proof fn lemma_product_deterministic(a: Matrix, b: Matrix, m1: Matrix, m2: Matrix)
    requires
        is_product(a, b, m1),
        is_product(a, b, m2),
    ensures
        m1.nrows() == m2.nrows(),
        m1.ncols() == m2.ncols(),
        m1.cells() == m2.cells(),
{
    let c = m1.ncols() as int;
    assert forall|k: int| 0 <= k < m1.cells().len() implies m1.cells()[k] == m2.cells()[k] by {
        lemma_cell_of_index(k, m1.nrows() as int, c);
        vstd::arithmetic::div_mod::lemma_fundamental_div_mod(k, c);
        assert(k == (k / c) * c + k % c) by (nonlinear_arith)
            requires
                k == c * (k / c) + k % c,
        ;
        assert(m1.entry(k / c, k % c) == m2.entry(k / c, k % c));
    }
    assert(m1.cells() =~= m2.cells());
}

/// Multiplies `a` (R×K) by `b` (K×C) through the scatter, worker and gather
/// steps, run in the calling thread; fails when `a.col != b.row`.
pub fn multiply(a: &Matrix, b: &Matrix) -> (r: Result<Matrix, MatrixError>)
    requires
        a.wf(),
        b.wf(),
        a.ncols() == b.nrows() ==> product_in_range(*a, *b),
    ensures
        r is Err <==> a.ncols() != b.nrows(),
        r matches Err(e) ==> e == MatrixError::DimensionMismatch,
        r matches Ok(m) ==> is_product(*a, *b, m),
{
    if a.col != b.row {
        return Err(MatrixError::DimensionMismatch);
    }
    let n = a.row * b.col;
    let c = b.col;
    let mut tasks = scatter(a, b);
    let ghost all = tasks@;
    let mut replies: Vec<MsgOutput> = Vec::new();
    for k in 0..n
        invariant
            replies@.len() == k,
    {
        replies.push(MsgOutput { idx: 0, value: 0 });
    }
    while tasks.len() > 0
        invariant
            a.wf(),
            b.wf(),
            a.ncols() == b.nrows(),
            product_fits(*a, *b),
            n == a.nrows() * b.ncols(),
            c == b.ncols(),
            all.len() == n,
            replies@.len() == n,
            tasks@.len() <= n,
            tasks@ == all.subrange(0, tasks@.len() as int),
            forall|k: int| 0 <= k < all.len() ==> #[trigger] is_task_for(all[k], *a, *b, k),
            forall|k: int|
                tasks@.len() <= k < n ==> (#[trigger] replies@[k]).idx == k && replies@[k].value
                    == dot(all[k].row@, all[k].col@),
        decreases tasks@.len(),
    {
        // Tasks are taken from the back; each reply lands at its own index.
        let task = tasks.pop().unwrap();
        let k = tasks.len();
        proof {
            assert(task == all[k as int]);
            assert(is_task_for(all[k as int], *a, *b, k as int));
            lemma_cell_of_index(k as int, a.nrows() as int, c as int);
            assert(dot_fits(a.row_seq(k as int / c as int), b.col_seq(k as int % c as int)));
            assert(tasks@ =~= all.subrange(0, tasks@.len() as int));
        }
        match process(task) {
            Ok(out) => {
                replies[k] = out;
            },
            Err(e) => {
                return Err(e);
            },
        }
    }
    let ghost rs = replies@;
    match gather(replies, a.row, b.col) {
        Ok(m) => {
            assert forall|i: int, j: int|
                0 <= i < m.nrows() && 0 <= j < m.ncols() implies #[trigger] m.entry(i, j)
                == product_entry(*a, *b, i, j) by {
                lemma_cell_in_bounds(a.nrows() as int, c as int, i, j);
                lemma_fundamental_div_mod_converse(i * c + j, c as int, i, j);
                let k = i * c + j;
                assert(is_task_for(all[k], *a, *b, k));
                assert(rs[k].value == dot(all[k].row@, all[k].col@));
                assert(m.cells()[k] == rs[k].value);
            }
            Ok(m)
        },
        Err(e) => Err(e),
    }
}

/// Flat index `k` below `r * c` names the cell `(k / c, k % c)` of an `r × c`
/// matrix.
proof fn lemma_cell_of_index(k: int, r: int, c: int)
    requires
        0 <= k < r * c,
        r >= 0,
        c >= 0,
    ensures
        0 <= k / c < r,
        0 <= k % c < c,
{
    assert(c > 0) by (nonlinear_arith)
        requires
            0 <= k < r * c,
            r >= 0,
            c >= 0,
    ;
    vstd::arithmetic::div_mod::lemma_fundamental_div_mod(k, c);
    assert(0 <= k % c < c);
    assert(0 <= k / c < r) by (nonlinear_arith)
        requires
            0 <= k < r * c,
            c > 0,
            k == c * (k / c) + k % c,
            0 <= k % c < c,
    ;
}

} // verus!
