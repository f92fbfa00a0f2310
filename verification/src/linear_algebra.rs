//! Vectors, matrices and stacks of matrices.
use crate::scalar;
use crate::scalar::Scalar;
use vstd::prelude::*;

verus! {

/// `r` is the inner product of `xs` and `ys`: starting from a zero, each
/// product `xs[i] * ys[i]` is added to the running value, in index order.
pub open spec fn is_dot<T: Scalar>(xs: Seq<T>, ys: Seq<T>, r: T) -> bool
    decreases xs.len(),
{
    if xs.len() == 0 {
        scalar::is_zero(r)
    } else {
        exists|before: T, term: T|
            #![trigger scalar::is_sum(before, term, r)]
            {
                &&& is_dot(xs.drop_last(), ys.drop_last(), before)
                &&& scalar::is_product(xs.last(), ys.last(), term)
                &&& scalar::is_sum(before, term, r)
            }
    }
}

/// `r` is the Euclidean norm of `xs`: the root of its inner product with itself.
pub open spec fn is_norm<T: Scalar>(xs: Seq<T>, r: T) -> bool {
    exists|squares: T| #[trigger] is_dot(xs, xs, squares) && scalar::is_root(squares, r)
}

/// `r` is `a * b - c * d`.
pub open spec fn is_cross_term<T: Scalar>(a: T, b: T, c: T, d: T, r: T) -> bool {
    exists|left: T, right: T|
        #![trigger scalar::is_difference(left, right, r)]
        {
            &&& scalar::is_product(a, b, left)
            &&& scalar::is_product(c, d, right)
            &&& scalar::is_difference(left, right, r)
        }
}

/// In a grid of `rows` by `cols`, cell `(i, j)` has a place of its own in the
/// row-major order, and that place is within the grid.
proof fn lemma_flat_index(rows: int, cols: int, i: int, j: int)
    requires
        0 <= i < rows,
        0 <= j < cols,
    ensures
        0 <= i * cols + j < rows * cols,
        (i * cols + j) / cols == i,
        (i * cols + j) % cols == j,
{
    assert(0 <= i * cols + j < rows * cols) by (nonlinear_arith)
        requires
            0 <= i < rows,
            0 <= j < cols,
    ;
    vstd::arithmetic::div_mod::lemma_fundamental_div_mod_converse(i * cols + j, cols, i, j);
}

/// `n` copies of `value`.
fn repeated<T: Copy>(value: T, n: usize) -> (r: Vec<T>)
    ensures
        r@.len() == n,
        forall|i: int| 0 <= i < n ==> #[trigger] r@[i] == value,
{
    let mut out: Vec<T> = Vec::new();
    let mut i: usize = 0;
    while i < n
        invariant
            i <= n,
            out@.len() == i,
            forall|k: int| 0 <= k < i ==> #[trigger] out@[k] == value,
        decreases n - i,
    {
        out.push(value);
        i += 1;
    }
    out
}

/// The entrywise sums of two runs of one length.
fn plus_each<T: Scalar>(xs: &Vec<T>, ys: &Vec<T>) -> (r: Vec<T>)
    requires
        xs@.len() == ys@.len(),
    ensures
        r@.len() == xs@.len(),
        forall|i: int| 0 <= i < xs@.len() ==> scalar::is_sum(xs@[i], ys@[i], #[trigger] r@[i]),
{
    let mut out: Vec<T> = Vec::new();
    let mut i: usize = 0;
    while i < xs.len()
        invariant
            xs@.len() == ys@.len(),
            i <= xs@.len(),
            out@.len() == i,
            forall|k: int| 0 <= k < i ==> scalar::is_sum(xs@[k], ys@[k], #[trigger] out@[k]),
        decreases xs@.len() - i,
    {
        out.push(xs[i].plus(ys[i]));
        i += 1;
    }
    out
}

/// The entrywise differences of two runs of one length.
fn minus_each<T: Scalar>(xs: &Vec<T>, ys: &Vec<T>) -> (r: Vec<T>)
    requires
        xs@.len() == ys@.len(),
    ensures
        r@.len() == xs@.len(),
        forall|i: int|
            0 <= i < xs@.len() ==> scalar::is_difference(xs@[i], ys@[i], #[trigger] r@[i]),
{
    let mut out: Vec<T> = Vec::new();
    let mut i: usize = 0;
    while i < xs.len()
        invariant
            xs@.len() == ys@.len(),
            i <= xs@.len(),
            out@.len() == i,
            forall|k: int| 0 <= k < i ==> scalar::is_difference(xs@[k], ys@[k], #[trigger] out@[k]),
        decreases xs@.len() - i,
    {
        out.push(xs[i].minus(ys[i]));
        i += 1;
    }
    out
}

/// Every entry of a run times `factor`.
fn times_each<T: Scalar>(xs: &Vec<T>, factor: T) -> (r: Vec<T>)
    ensures
        r@.len() == xs@.len(),
        forall|i: int| 0 <= i < xs@.len() ==> scalar::is_product(xs@[i], factor, #[trigger] r@[i]),
{
    let mut out: Vec<T> = Vec::new();
    let mut i: usize = 0;
    while i < xs.len()
        invariant
            i <= xs@.len(),
            out@.len() == i,
            forall|k: int| 0 <= k < i ==> scalar::is_product(xs@[k], factor, #[trigger] out@[k]),
        decreases xs@.len() - i,
    {
        out.push(xs[i].times(factor));
        i += 1;
    }
    out
}

/// Every entry of a run divided by `divisor`.
fn over_each<T: Scalar>(xs: &Vec<T>, divisor: T) -> (r: Vec<T>)
    ensures
        r@.len() == xs@.len(),
        forall|i: int|
            0 <= i < xs@.len() ==> scalar::is_quotient(xs@[i], divisor, #[trigger] r@[i]),
{
    let mut out: Vec<T> = Vec::new();
    let mut i: usize = 0;
    while i < xs.len()
        invariant
            i <= xs@.len(),
            out@.len() == i,
            forall|k: int| 0 <= k < i ==> scalar::is_quotient(xs@[k], divisor, #[trigger] out@[k]),
        decreases xs@.len() - i,
    {
        out.push(xs[i].over(divisor));
        i += 1;
    }
    out
}

/// The inner product of two runs of one length.
fn inner<T: Scalar>(xs: &Vec<T>, ys: &Vec<T>) -> (r: T)
    requires
        xs@.len() == ys@.len(),
    ensures
        is_dot(xs@, ys@, r),
{
    let mut total = T::zero();
    let mut i: usize = 0;
    while i < xs.len()
        invariant
            xs@.len() == ys@.len(),
            i <= xs@.len(),
            is_dot(xs@.take(i as int), ys@.take(i as int), total),
        decreases xs@.len() - i,
    {
        let term = xs[i].times(ys[i]);
        let next = total.plus(term);
        proof {
            let head = xs@.take(i + 1);
            let other = ys@.take(i + 1);
            assert(head.drop_last() == xs@.take(i as int));
            assert(other.drop_last() == ys@.take(i as int));
            assert(scalar::is_product(head.last(), other.last(), term));
            assert(scalar::is_sum(total, term, next));
        }
        total = next;
        i += 1;
    }
    proof {
        assert(xs@.take(i as int) == xs@);
        assert(ys@.take(i as int) == ys@);
    }
    total
}

/// A column of `size` scalars.
#[derive(Debug, Clone)]
pub struct Vector<T> {
    pub size: usize,
    pub data: Vec<T>,
}

impl<T> View for Vector<T> {
    type V = Seq<T>;

    open spec fn view(&self) -> Seq<T> {
        self.data@
    }
}

impl<T: Scalar> Vector<T> {
    /// The entries are as many as `size` says.
    pub open spec fn wf(&self) -> bool {
        self.data@.len() == self.size
    }

    /// The vector of `size` zeros.
    pub fn new(size: usize) -> (r: Vector<T>)
        ensures
            r.wf(),
            r.size == size,
            forall|i: int| 0 <= i < size ==> scalar::is_zero(#[trigger] r@[i]),
    {
        Vector { size, data: repeated(T::zero(), size) }
    }

    /// Replaces the entries by `list`, which must be as long as the vector.
    pub fn vector_set(&mut self, list: Vec<T>)
        requires
            old(self).size == list@.len(),
        ensures
            final(self).wf(),
            final(self).size == old(self).size,
            final(self).data == list,
    {
        self.data = list;
    }

    /// The entrywise sum of two vectors of one size.
    pub fn vector_add(v: &Vector<T>, u: &Vector<T>) -> (r: Vector<T>)
        requires
            v.wf(),
            u.wf(),
            v.size == u.size,
        ensures
            r.wf(),
            r.size == v.size,
            forall|i: int| 0 <= i < v.size ==> scalar::is_sum(v@[i], u@[i], #[trigger] r@[i]),
    {
        Vector { size: v.size, data: plus_each(&v.data, &u.data) }
    }

    /// The entrywise difference of two vectors of one size.
    pub fn vector_sub(v: &Vector<T>, u: &Vector<T>) -> (r: Vector<T>)
        requires
            v.wf(),
            u.wf(),
            v.size == u.size,
        ensures
            r.wf(),
            r.size == v.size,
            forall|i: int|
                0 <= i < v.size ==> scalar::is_difference(v@[i], u@[i], #[trigger] r@[i]),
    {
        Vector { size: v.size, data: minus_each(&v.data, &u.data) }
    }

    /// Every entry times `scalar`.
    pub fn vector_scale(v: &Vector<T>, scalar: T) -> (r: Vector<T>)
        requires
            v.wf(),
        ensures
            r.wf(),
            r.size == v.size,
            forall|i: int|
                0 <= i < v.size ==> scalar::is_product(v@[i], scalar, #[trigger] r@[i]),
    {
        Vector { size: v.size, data: times_each(&v.data, scalar) }
    }

    /// The inner product of two vectors of one size.
    pub fn vector_dot(v1: &Vector<T>, v2: &Vector<T>) -> (r: T)
        requires
            v1.wf(),
            v2.wf(),
            v1.size == v2.size,
        ensures
            is_dot(v1@, v2@, r),
    {
        inner(&v1.data, &v2.data)
    }

    /// The Euclidean norm.
    pub fn vector_norm(v: &Vector<T>) -> (r: T)
        ensures
            is_norm(v@, r),
    {
        let squares = inner(&v.data, &v.data);
        squares.root()
    }

    /// Every entry divided by the norm. Nothing is made of a norm that is zero:
    /// the entries are whatever the division gives.
    pub fn vector_normalize(v: &Vector<T>) -> (r: Vector<T>)
        requires
            v.wf(),
        ensures
            r.wf(),
            r.size == v.size,
            exists|norm: T|
                #[trigger] is_norm(v@, norm) && forall|i: int|
                    0 <= i < v.size ==> scalar::is_quotient(v@[i], norm, #[trigger] r@[i]),
    {
        let norm = Vector::vector_norm(v);
        Vector { size: v.size, data: over_each(&v.data, norm) }
    }

    /// The cross product, carried to any size by rotating the indices: entry `i`
    /// is `v1[i+1] * v2[i+2] - v1[i+2] * v2[i+1]`, with the indices taken
    /// modulo the size.
    pub fn vector_cross(v1: &Vector<T>, v2: &Vector<T>) -> (r: Vector<T>)
        requires
            v1.wf(),
            v2.wf(),
            v1.size == v2.size,
        ensures
            r.wf(),
            r.size == v1.size,
            forall|i: int|
                0 <= i < v1.size ==> is_cross_term(
                    v1@[(i + 1) % (v1.size as int)],
                    v2@[(i + 2) % (v1.size as int)],
                    v1@[(i + 2) % (v1.size as int)],
                    v2@[(i + 1) % (v1.size as int)],
                    #[trigger] r@[i],
                ),
    {
        let n = v1.size;
        let mut data: Vec<T> = Vec::new();
        let mut i: usize = 0;
        while i < n
            invariant
                v1.wf(),
                v2.wf(),
                n == v1.size,
                n == v2.size,
                i <= n,
                data@.len() == i,
                forall|k: int|
                    0 <= k < i ==> is_cross_term(
                        v1@[(k + 1) % (n as int)],
                        v2@[(k + 2) % (n as int)],
                        v1@[(k + 2) % (n as int)],
                        v2@[(k + 1) % (n as int)],
                        #[trigger] data@[k],
                    ),
            decreases n - i,
        {
            let one_on: usize = (i + 1) % n;
            let two_on: usize = (one_on + 1) % n;
            assert(two_on == (i + 2) % (n as int)) by {
                if i + 1 == n {
                    vstd::arithmetic::div_mod::lemma_mod_self_0(n as int);
                    vstd::arithmetic::div_mod::lemma_mod_add_multiples_vanish(1, n as int);
                } else {
                    vstd::arithmetic::div_mod::lemma_small_mod((i + 1) as nat, n as nat);
                }
            }
            let left = v1.data[one_on].times(v2.data[two_on]);
            let right = v1.data[two_on].times(v2.data[one_on]);
            let entry = left.minus(right);
            proof {
                assert(scalar::is_product(v1@[one_on as int], v2@[two_on as int], left));
                assert(scalar::is_product(v1@[two_on as int], v2@[one_on as int], right));
                assert(scalar::is_difference(left, right, entry));
            }
            data.push(entry);
            i += 1;
        }
        Vector { size: n, data }
    }
}

/// A grid of `rows` by `cols` scalars, held row by row.
#[derive(Debug, Clone)]
pub struct Matrix<T> {
    pub rows: usize,
    pub cols: usize,
    pub data: Vec<Vec<T>>,
}

impl<T> View for Matrix<T> {
    type V = Seq<Seq<T>>;

    /// The rows, each as the sequence of its cells.
    open spec fn view(&self) -> Seq<Seq<T>> {
        Seq::new(self.data@.len(), |i: int| self.data@[i]@)
    }
}

impl<T: Scalar> Matrix<T> {
    /// There are `rows` rows, each of `cols` cells.
    pub open spec fn wf(&self) -> bool {
        &&& self@.len() == self.rows
        &&& forall|i: int| 0 <= i < self.rows ==> (#[trigger] self@[i]).len() == self.cols
    }

    /// Column `j`, read from the top.
    pub open spec fn column(&self, j: int) -> Seq<T> {
        Seq::new(self@.len(), |k: int| self@[k][j])
    }

    /// `self` has the shape of `a` and holds, cell by cell, `a` plus `b`.
    pub open spec fn is_sum_of(&self, a: &Matrix<T>, b: &Matrix<T>) -> bool {
        &&& self.wf()
        &&& self.rows == a.rows
        &&& self.cols == a.cols
        &&& forall|i: int, j: int|
            0 <= i < a.rows && 0 <= j < a.cols ==> scalar::is_sum(
                a@[i][j],
                b@[i][j],
                #[trigger] self@[i][j],
            )
    }

    /// `self` has the shape of `a` and holds, cell by cell, `a` minus `b`.
    pub open spec fn is_difference_of(&self, a: &Matrix<T>, b: &Matrix<T>) -> bool {
        &&& self.wf()
        &&& self.rows == a.rows
        &&& self.cols == a.cols
        &&& forall|i: int, j: int|
            0 <= i < a.rows && 0 <= j < a.cols ==> scalar::is_difference(
                a@[i][j],
                b@[i][j],
                #[trigger] self@[i][j],
            )
    }

    /// `self` is `m` with rows and columns exchanged.
    pub open spec fn is_transpose_of(&self, m: &Matrix<T>) -> bool {
        &&& self.wf()
        &&& self.rows == m.cols
        &&& self.cols == m.rows
        &&& forall|i: int, j: int|
            0 <= i < m.rows && 0 <= j < m.cols ==> #[trigger] self@[j][i] == m@[i][j]
    }

    /// The `rows` by `cols` matrix of zeros.
    pub fn new(rows: usize, cols: usize) -> (r: Matrix<T>)
        ensures
            r.wf(),
            r.rows == rows,
            r.cols == cols,
            forall|i: int, j: int|
                0 <= i < rows && 0 <= j < cols ==> scalar::is_zero(#[trigger] r@[i][j]),
    {
        let zero = T::zero();
        let mut data: Vec<Vec<T>> = Vec::new();
        let mut i: usize = 0;
        while i < rows
            invariant
                i <= rows,
                data@.len() == i,
                scalar::is_zero(zero),
                forall|k: int| 0 <= k < i ==> (#[trigger] data@[k])@.len() == cols,
                forall|k: int, j: int|
                    0 <= k < i && 0 <= j < cols ==> #[trigger] data@[k]@[j] == zero,
            decreases rows - i,
        {
            data.push(repeated(zero, cols));
            i += 1;
        }
        Matrix { rows, cols, data }
    }

    /// Fills the matrix from a flat list in row-major order: the value at
    /// position `n` goes to row `n / cols`, column `n % cols`.
    pub fn matrix_set(&mut self, data: Vec<T>)
        requires
            old(self).rows * old(self).cols == data@.len(),
        ensures
            final(self).wf(),
            final(self).rows == old(self).rows,
            final(self).cols == old(self).cols,
            forall|i: int, j: int|
                0 <= i < old(self).rows && 0 <= j < old(self).cols ==> #[trigger] final(self)@[i][j]
                    == data@[i * old(self).cols + j],
            forall|n: int|
                0 <= n < data@.len() ==> #[trigger] data@[n]
                    == final(self)@[n / (old(self).cols as int)][n % (old(self).cols as int)],
    {
        let rows = self.rows;
        let cols = self.cols;
        let total: usize = data.len();
        let mut grid: Vec<Vec<T>> = Vec::new();
        let mut next: usize = 0;
        let mut i: usize = 0;
        while i < rows
            invariant
                rows * cols == total,
                total == data@.len(),
                i <= rows,
                next == i * cols,
                grid@.len() == i,
                forall|k: int| 0 <= k < i ==> (#[trigger] grid@[k])@.len() == cols,
                forall|k: int, j: int|
                    0 <= k < i && 0 <= j < cols ==> #[trigger] grid@[k]@[j] == data@[k * cols + j],
            decreases rows - i,
        {
            let mut row: Vec<T> = Vec::new();
            let mut j: usize = 0;
            while j < cols
                invariant
                    rows * cols == total,
                total == data@.len(),
                    i < rows,
                    j <= cols,
                    next == i * cols + j,
                    row@.len() == j,
                    forall|c: int| 0 <= c < j ==> #[trigger] row@[c] == data@[i * cols + c],
                decreases cols - j,
            {
                proof {
                    lemma_flat_index(rows as int, cols as int, i as int, j as int);
                }
                row.push(data[next]);
                next += 1;
                j += 1;
            }
            assert(i * cols + cols == (i + 1) * cols) by (nonlinear_arith);
            grid.push(row);
            i += 1;
        }
        self.data = grid;
        proof {
            let c = cols as int;
            assert forall|n: int| 0 <= n < data@.len() implies self@[n / c][n % c]
                == #[trigger] data@[n] by {
                assert(c > 0) by (nonlinear_arith)
                    requires
                        0 <= n < rows * c,
                        c >= 0,
                ;
                vstd::arithmetic::div_mod::lemma_fundamental_div_mod(n, c);
                vstd::arithmetic::div_mod::lemma_mod_bound(n, c);
                let q = n / c;
                assert(0 <= q < rows) by (nonlinear_arith)
                    requires
                        n == c * q + n % c,
                        0 <= n % c < c,
                        0 <= n < rows * c,
                ;
                assert(c * q == q * c) by (nonlinear_arith);
                assert(self@[q][n % c] == data@[q * c + n % c]);
            }
        }
    }

    /// The cell-by-cell sum of two matrices of one shape.
    pub fn matrix_add(a: &Matrix<T>, b: &Matrix<T>) -> (r: Matrix<T>)
        requires
            a.wf(),
            b.wf(),
            a.rows == b.rows,
            a.cols == b.cols,
        ensures
            r.is_sum_of(a, b),
    {
        let mut data: Vec<Vec<T>> = Vec::new();
        let mut i: usize = 0;
        while i < a.rows
            invariant
                a.wf(),
                b.wf(),
                a.rows == b.rows,
                a.cols == b.cols,
                i <= a.rows,
                data@.len() == i,
                forall|k: int| 0 <= k < i ==> (#[trigger] data@[k])@.len() == a.cols,
                forall|k: int, j: int|
                    0 <= k < i && 0 <= j < a.cols ==> scalar::is_sum(
                        a@[k][j],
                        b@[k][j],
                        #[trigger] data@[k]@[j],
                    ),
            decreases a.rows - i,
        {
            assert(a@[i as int].len() == a.cols && b@[i as int].len() == b.cols);
            data.push(plus_each(&a.data[i], &b.data[i]));
            i += 1;
        }
        Matrix { rows: a.rows, cols: a.cols, data }
    }

    /// The cell-by-cell difference of two matrices of one shape.
    pub fn matrix_sub(a: &Matrix<T>, b: &Matrix<T>) -> (r: Matrix<T>)
        requires
            a.wf(),
            b.wf(),
            a.rows == b.rows,
            a.cols == b.cols,
        ensures
            r.is_difference_of(a, b),
    {
        let mut data: Vec<Vec<T>> = Vec::new();
        let mut i: usize = 0;
        while i < a.rows
            invariant
                a.wf(),
                b.wf(),
                a.rows == b.rows,
                a.cols == b.cols,
                i <= a.rows,
                data@.len() == i,
                forall|k: int| 0 <= k < i ==> (#[trigger] data@[k])@.len() == a.cols,
                forall|k: int, j: int|
                    0 <= k < i && 0 <= j < a.cols ==> scalar::is_difference(
                        a@[k][j],
                        b@[k][j],
                        #[trigger] data@[k]@[j],
                    ),
            decreases a.rows - i,
        {
            assert(a@[i as int].len() == a.cols && b@[i as int].len() == b.cols);
            data.push(minus_each(&a.data[i], &b.data[i]));
            i += 1;
        }
        Matrix { rows: a.rows, cols: a.cols, data }
    }

    /// Every cell times `s`.
    pub fn matrix_scale(m: &Matrix<T>, s: T) -> (r: Matrix<T>)
        requires
            m.wf(),
        ensures
            r.wf(),
            r.rows == m.rows,
            r.cols == m.cols,
            forall|i: int, j: int|
                0 <= i < m.rows && 0 <= j < m.cols ==> scalar::is_product(
                    m@[i][j],
                    s,
                    #[trigger] r@[i][j],
                ),
    {
        let mut data: Vec<Vec<T>> = Vec::new();
        let mut i: usize = 0;
        while i < m.rows
            invariant
                m.wf(),
                i <= m.rows,
                data@.len() == i,
                forall|k: int| 0 <= k < i ==> (#[trigger] data@[k])@.len() == m.cols,
                forall|k: int, j: int|
                    0 <= k < i && 0 <= j < m.cols ==> scalar::is_product(
                        m@[k][j],
                        s,
                        #[trigger] data@[k]@[j],
                    ),
            decreases m.rows - i,
        {
            assert(m@[i as int].len() == m.cols);
            data.push(times_each(&m.data[i], s));
            i += 1;
        }
        Matrix { rows: m.rows, cols: m.cols, data }
    }

    /// The inner product of row `i` of `a` with column `j` of `b`.
    fn row_by_column(a: &Matrix<T>, i: usize, b: &Matrix<T>, j: usize) -> (r: T)
        requires
            a.wf(),
            b.wf(),
            a.cols == b.rows,
            i < a.rows,
            j < b.cols,
        ensures
            is_dot(a@[i as int], b.column(j as int), r),
    {
        let ghost row = a@[i as int];
        let ghost col = b.column(j as int);
        let mut total = T::zero();
        let mut k: usize = 0;
        while k < a.cols
            invariant
                a.wf(),
                b.wf(),
                a.cols == b.rows,
                i < a.rows,
                j < b.cols,
                k <= a.cols,
                row == a@[i as int],
                col == b.column(j as int),
                is_dot(row.take(k as int), col.take(k as int), total),
            decreases a.cols - k,
        {
            assert(row.len() == a.cols);
            assert(b@[k as int].len() == b.cols);
            let term = a.data[i][k].times(b.data[k][j]);
            let next = total.plus(term);
            proof {
                let head = row.take(k + 1);
                let other = col.take(k + 1);
                assert(head.drop_last() == row.take(k as int));
                assert(other.drop_last() == col.take(k as int));
                assert(scalar::is_product(head.last(), other.last(), term));
                assert(scalar::is_sum(total, term, next));
            }
            total = next;
            k += 1;
        }
        proof {
            assert(row.take(k as int) == row);
            assert(col.take(k as int) == col);
        }
        total
    }

    /// The matrix product: cell `(i, j)` is the inner product of row `i` of `a`
    /// with column `j` of `b`.
    pub fn matrix_mul(a: &Matrix<T>, b: &Matrix<T>) -> (r: Matrix<T>)
        requires
            a.wf(),
            b.wf(),
            a.cols == b.rows,
        ensures
            r.wf(),
            r.rows == a.rows,
            r.cols == b.cols,
            forall|i: int, j: int|
                0 <= i < a.rows && 0 <= j < b.cols ==> is_dot(
                    a@[i],
                    b.column(j),
                    #[trigger] r@[i][j],
                ),
    {
        let mut data: Vec<Vec<T>> = Vec::new();
        let mut i: usize = 0;
        while i < a.rows
            invariant
                a.wf(),
                b.wf(),
                a.cols == b.rows,
                i <= a.rows,
                data@.len() == i,
                forall|k: int| 0 <= k < i ==> (#[trigger] data@[k])@.len() == b.cols,
                forall|k: int, j: int|
                    0 <= k < i && 0 <= j < b.cols ==> is_dot(
                        a@[k],
                        b.column(j),
                        #[trigger] data@[k]@[j],
                    ),
            decreases a.rows - i,
        {
            let mut row: Vec<T> = Vec::new();
            let mut j: usize = 0;
            while j < b.cols
                invariant
                    a.wf(),
                    b.wf(),
                    a.cols == b.rows,
                    i < a.rows,
                    j <= b.cols,
                    row@.len() == j,
                    forall|c: int|
                        0 <= c < j ==> is_dot(a@[i as int], b.column(c), #[trigger] row@[c]),
                decreases b.cols - j,
            {
                row.push(Matrix::row_by_column(a, i, b, j));
                j += 1;
            }
            data.push(row);
            i += 1;
        }
        Matrix { rows: a.rows, cols: b.cols, data }
    }

    /// The product of a matrix with a vector, as a matrix of one column:
    /// cell `(i, 0)` is the inner product of row `i` of `m` with `v`.
    pub fn matrix_vector_mul(m: &Matrix<T>, v: &Vector<T>) -> (r: Matrix<T>)
        requires
            m.wf(),
            v.wf(),
            m.cols == v.size,
        ensures
            r.wf(),
            r.rows == m.rows,
            r.cols == 1,
            forall|i: int| 0 <= i < m.rows ==> is_dot(m@[i], v@, #[trigger] r@[i][0]),
    {
        let mut data: Vec<Vec<T>> = Vec::new();
        let mut i: usize = 0;
        while i < m.rows
            invariant
                m.wf(),
                v.wf(),
                m.cols == v.size,
                i <= m.rows,
                data@.len() == i,
                forall|k: int| 0 <= k < i ==> (#[trigger] data@[k])@.len() == 1,
                forall|k: int| 0 <= k < i ==> is_dot(m@[k], v@, #[trigger] data@[k]@[0]),
            decreases m.rows - i,
        {
            assert(m@[i as int].len() == m.cols);
            let mut row: Vec<T> = Vec::new();
            row.push(inner(&m.data[i], &v.data));
            data.push(row);
            i += 1;
        }
        Matrix { rows: m.rows, cols: 1, data }
    }

    /// The transpose: cell `(j, i)` of the result is cell `(i, j)` of `m`.
    pub fn matrix_transpose(m: &Matrix<T>) -> (r: Matrix<T>)
        requires
            m.wf(),
        ensures
            r.is_transpose_of(m),
    {
        let mut data: Vec<Vec<T>> = Vec::new();
        let mut j: usize = 0;
        while j < m.cols
            invariant
                m.wf(),
                j <= m.cols,
                data@.len() == j,
                forall|c: int| 0 <= c < j ==> (#[trigger] data@[c])@.len() == m.rows,
                forall|c: int, i: int|
                    0 <= c < j && 0 <= i < m.rows ==> #[trigger] data@[c]@[i] == m@[i][c],
            decreases m.cols - j,
        {
            let mut row: Vec<T> = Vec::new();
            let mut i: usize = 0;
            while i < m.rows
                invariant
                    m.wf(),
                    j < m.cols,
                    i <= m.rows,
                    row@.len() == i,
                    forall|k: int| 0 <= k < i ==> #[trigger] row@[k] == m@[k][j as int],
                decreases m.rows - i,
            {
                assert(m@[i as int].len() == m.cols);
                row.push(m.data[i][j]);
                i += 1;
            }
            data.push(row);
            j += 1;
        }
        Matrix { rows: m.cols, cols: m.rows, data }
    }

    /// Sets every cell to `value`; the shape stays.
    pub fn matrix_fill(&mut self, value: T)
        ensures
            final(self).rows == old(self).rows,
            final(self).cols == old(self).cols,
            final(self)@.len() == old(self)@.len(),
            forall|i: int|
                0 <= i < old(self)@.len() ==> (#[trigger] final(self)@[i]).len()
                    == old(self)@[i].len(),
            forall|i: int, j: int|
                0 <= i < old(self)@.len() && 0 <= j < old(self)@[i].len()
                    ==> #[trigger] final(self)@[i][j] == value,
            old(self).wf() ==> final(self).wf(),
    {
        let mut data: Vec<Vec<T>> = Vec::new();
        let mut i: usize = 0;
        while i < self.data.len()
            invariant
                *self == *old(self),
                i <= self.data@.len(),
                data@.len() == i,
                forall|k: int| 0 <= k < i ==> (#[trigger] data@[k])@.len() == self.data@[k]@.len(),
                forall|k: int, j: int|
                    0 <= k < i && 0 <= j < self.data@[k]@.len() ==> #[trigger] data@[k]@[j]
                        == value,
            decreases self.data@.len() - i,
        {
            data.push(repeated(value, self.data[i].len()));
            i += 1;
        }
        self.data = data;
        proof {
            if old(self).wf() {
                assert forall|k: int| 0 <= k < self.rows implies (#[trigger] self@[k]).len()
                    == self.cols by {
                    assert(old(self)@[k].len() == self.cols);
                }
            }
        }
    }
}

/// Transposing twice gives the matrix back: if `t` is the transpose of `m` and
/// `back` the transpose of `t`, then `back` has the shape and the cells of `m`.
pub proof fn lemma_transpose_involution<T: Scalar>(m: Matrix<T>, t: Matrix<T>, back: Matrix<T>)
    requires
        m.wf(),
        t.is_transpose_of(&m),
        back.is_transpose_of(&t),
    ensures
        back.rows == m.rows,
        back.cols == m.cols,
        back@ == m@,
{
    assert forall|i: int| 0 <= i < m.rows implies #[trigger] back@[i] == m@[i] by {
        assert(back@[i].len() == m@[i].len());
        assert forall|j: int| 0 <= j < m.cols implies back@[i][j] == m@[i][j] by {
            assert(t@[j][i] == m@[i][j]);
            assert(back@[i][j] == t@[j][i]);
        }
        assert(back@[i] =~= m@[i]);
    }
    assert(back@ =~= m@);
}

/// A stack of `rank` matrices that share the shape `rows` by `cols`.
#[derive(Debug, Clone)]
pub struct Tensor<T> {
    pub rank: usize,
    pub rows: usize,
    pub cols: usize,
    pub data: Vec<Matrix<T>>,
}

impl<T: Scalar> Tensor<T> {
    /// There are `rank` slots, and each holds a well-formed matrix.
    pub open spec fn stacked(&self) -> bool {
        &&& self.data@.len() == self.rank
        &&& forall|k: int| 0 <= k < self.rank ==> (#[trigger] self.data@[k]).wf()
    }

    /// The slots are stacked and every one has the shape the tensor declares.
    pub open spec fn wf(&self) -> bool {
        &&& self.stacked()
        &&& forall|k: int|
            0 <= k < self.rank ==> (#[trigger] self.data@[k]).rows == self.rows
                && self.data@[k].cols == self.cols
    }

    /// The slots of `self` and `other` agree in shape, one by one.
    pub open spec fn matches(&self, other: &Tensor<T>) -> bool {
        &&& self.rank == other.rank
        &&& self.rows == other.rows
        &&& self.cols == other.cols
        &&& forall|k: int|
            0 <= k < self.rank ==> (#[trigger] self.data@[k]).rows == other.data@[k].rows
                && self.data@[k].cols == other.data@[k].cols
    }

    /// The stack of `rank` zero matrices of `rows` by `cols`.
    pub fn tensor_new(rank: usize, rows: usize, cols: usize) -> (r: Tensor<T>)
        ensures
            r.wf(),
            r.rank == rank,
            r.rows == rows,
            r.cols == cols,
            forall|k: int, i: int, j: int|
                0 <= k < rank && 0 <= i < rows && 0 <= j < cols ==> scalar::is_zero(
                    #[trigger] r.data@[k]@[i][j],
                ),
    {
        let mut data: Vec<Matrix<T>> = Vec::new();
        let mut k: usize = 0;
        while k < rank
            invariant
                k <= rank,
                data@.len() == k,
                forall|s: int|
                    0 <= s < k ==> (#[trigger] data@[s]).wf() && data@[s].rows == rows
                        && data@[s].cols == cols,
                forall|s: int, i: int, j: int|
                    0 <= s < k && 0 <= i < rows && 0 <= j < cols ==> scalar::is_zero(
                        #[trigger] data@[s]@[i][j],
                    ),
            decreases rank - k,
        {
            data.push(Matrix::new(rows, cols));
            k += 1;
        }
        Tensor { rank, rows, cols, data }
    }

    /// Replaces the slots by `data`, which must hold `rank` matrices. Their
    /// shapes are taken as they come.
    pub fn tensor_set(&mut self, data: Vec<Matrix<T>>)
        requires
            old(self).rank == data@.len(),
        ensures
            final(self).rank == old(self).rank,
            final(self).rows == old(self).rows,
            final(self).cols == old(self).cols,
            final(self).data == data,
    {
        self.data = data;
    }

    /// Puts `data`, which must have the shape of the tensor, into slot `index`.
    pub fn tensor_insert(&mut self, data: Matrix<T>, index: usize)
        requires
            old(self).rows == data.rows,
            old(self).cols == data.cols,
            index < old(self).data@.len(),
        ensures
            final(self).rank == old(self).rank,
            final(self).rows == old(self).rows,
            final(self).cols == old(self).cols,
            final(self).data@ == old(self).data@.update(index as int, data),
            old(self).wf() && data.wf() ==> final(self).wf(),
    {
        self.data[index] = data;
    }

    /// The slot-by-slot sum of two stacks whose slots agree in shape.
    pub fn tensor_add(a: &Tensor<T>, b: &Tensor<T>) -> (r: Tensor<T>)
        requires
            a.stacked(),
            b.stacked(),
            a.matches(b),
        ensures
            r.stacked(),
            r.matches(a),
            forall|k: int|
                0 <= k < a.rank ==> (#[trigger] r.data@[k]).is_sum_of(&a.data@[k], &b.data@[k]),
    {
        let mut data: Vec<Matrix<T>> = Vec::new();
        let mut k: usize = 0;
        while k < a.rank
            invariant
                a.stacked(),
                b.stacked(),
                a.matches(b),
                k <= a.rank,
                data@.len() == k,
                forall|s: int|
                    0 <= s < k ==> (#[trigger] data@[s]).is_sum_of(&a.data@[s], &b.data@[s]),
            decreases a.rank - k,
        {
            assert(a.data@[k as int].wf() && b.data@[k as int].wf());
            assert(a.data@[k as int].rows == b.data@[k as int].rows);
            data.push(Matrix::matrix_add(&a.data[k], &b.data[k]));
            k += 1;
        }
        Tensor { rank: a.rank, rows: a.rows, cols: a.cols, data }
    }

    /// The slot-by-slot difference of two stacks whose slots agree in shape.
    pub fn tensor_sub(a: &Tensor<T>, b: &Tensor<T>) -> (r: Tensor<T>)
        requires
            a.stacked(),
            b.stacked(),
            a.matches(b),
        ensures
            r.stacked(),
            r.matches(a),
            forall|k: int|
                0 <= k < a.rank ==> (#[trigger] r.data@[k]).is_difference_of(
                    &a.data@[k],
                    &b.data@[k],
                ),
    {
        let mut data: Vec<Matrix<T>> = Vec::new();
        let mut k: usize = 0;
        while k < a.rank
            invariant
                a.stacked(),
                b.stacked(),
                a.matches(b),
                k <= a.rank,
                data@.len() == k,
                forall|s: int|
                    0 <= s < k ==> (#[trigger] data@[s]).is_difference_of(
                        &a.data@[s],
                        &b.data@[s],
                    ),
            decreases a.rank - k,
        {
            assert(a.data@[k as int].wf() && b.data@[k as int].wf());
            assert(a.data@[k as int].rows == b.data@[k as int].rows);
            data.push(Matrix::matrix_sub(&a.data[k], &b.data[k]));
            k += 1;
        }
        Tensor { rank: a.rank, rows: a.rows, cols: a.cols, data }
    }
}

} // verus!
