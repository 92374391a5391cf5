//! A row-major 2D array with a fixed number of columns.

use vstd::prelude::*;

verus! {

pub struct Simple2DArray<const COLS: usize, T> {
    arr: Vec<T>,
}

impl<const COLS: usize, T> View for Simple2DArray<COLS, T> {
    type V = Seq<T>;

    /// The cells in row-major order.
    closed spec fn view(&self) -> Seq<T> {
        self.arr@
    }
}

/// Index `i` is one of `(row + n) * cols + col` for `n` in `0..n_rows`.
pub open spec fn in_column_run(i: int, row: int, col: int, n_rows: int, cols: int) -> bool {
    exists|n: int| 0 <= n < n_rows && i == #[trigger] ((row + n) * cols) + col
}

proof fn lemma_mul_mono(a: int, b: int, c: int)
    requires
        0 <= a <= b,
        0 <= c,
    ensures
        a * c <= b * c,
{
    assert(a * c <= b * c) by (nonlinear_arith)
        requires
            0 <= a <= b,
            0 <= c,
    ;
}

impl<const COLS: usize, T: Copy + Default> Simple2DArray<COLS, T> {
    /// `rows` rows of the default value.
    pub fn new(rows: usize) -> (r: Self)
        requires
            rows * COLS <= usize::MAX,
        ensures
            r@.len() == rows * COLS,
            forall|i: int, j: int| 0 <= i < r@.len() && 0 <= j < r@.len() ==> r@[i] == r@[j],
            forall|i: int| 0 <= i < r@.len() ==> call_ensures(T::default, (), #[trigger] r@[i]),
    {
        let n = rows * COLS;
        let d = T::default();
        let mut arr: Vec<T> = Vec::new();
        let mut i: usize = 0;
        while i < n
            invariant
                i <= n,
                arr@.len() == i,
                call_ensures(T::default, (), d),
                forall|j: int| 0 <= j < i ==> arr@[j] == d,
            decreases n - i,
        {
            arr.push(d);
            i += 1;
        }
        Simple2DArray { arr }
    }
}

impl<const COLS: usize, T: Copy> Simple2DArray<COLS, T> {
    pub fn get(&self, row: usize, col: usize) -> (r: T)
        requires
            row * COLS + col < self@.len(),
        ensures
            r == self@[row * COLS + col],
    {
        let len = self.arr.len();
        proof {
            lemma_mul_mono(0, row as int, COLS as int);
        }
        self.arr[row * COLS + col]
    }

    pub fn rows(&self) -> (r: usize)
        requires
            COLS > 0,
        ensures
            r == self@.len() / (COLS as nat),
    {
        self.arr.len() / COLS
    }

    /// Sets every cell of row `row`.
    pub fn fill(&mut self, row: usize, value: T)
        requires
            row + 1 <= usize::MAX,
            (row + 1) * COLS <= old(self)@.len(),
        ensures
            final(self)@.len() == old(self)@.len(),
            forall|i: int|
                0 <= i < old(self)@.len() ==> #[trigger] final(self)@[i] == if row * COLS <= i < (row + 1)
                    * COLS {
                    value
                } else {
                    old(self)@[i]
                },
    {
        self.fill_rows(row, 1, value);
    }

    /// Sets every cell of rows `row..row + n_rows`.
    pub fn fill_rows(&mut self, row: usize, n_rows: usize, value: T)
        requires
            row + n_rows <= usize::MAX,
            (row + n_rows) * COLS <= old(self)@.len(),
        ensures
            final(self)@.len() == old(self)@.len(),
            forall|i: int|
                0 <= i < old(self)@.len() ==> #[trigger] final(self)@[i] == if row * COLS <= i < (row
                    + n_rows) * COLS {
                    value
                } else {
                    old(self)@[i]
                },
    {
        let len = self.arr.len();
        proof {
            lemma_mul_mono(row as int, (row + n_rows) as int, COLS as int);
        }
        let start = row * COLS;
        let end = (row + n_rows) * COLS;
        let mut i = start;
        while i < end
            invariant
                start <= i <= end,
                start == row * COLS,
                end == (row + n_rows) * COLS,
                end <= self.arr@.len(),
                self.arr@.len() == old(self)@.len(),
                forall|j: int|
                    0 <= j < self.arr@.len() ==> #[trigger] self.arr@[j] == if start <= j < i {
                        value
                    } else {
                        old(self)@[j]
                    },
            decreases end - i,
        {
            self.arr.set(i, value);
            i += 1;
        }
    }

    /// The cells in row-major order.
    pub fn into_vec(self) -> (r: Vec<T>)
        ensures
            r@ == self@,
    {
        self.arr
    }

    /// Sets the cell at `row`, `col`.
    pub fn assign(&mut self, row: usize, col: usize, value: T)
        requires
            row * COLS + col < old(self)@.len(),
        ensures
            final(self)@ == old(self)@.update(row * COLS + col, value),
    {
        let len = self.arr.len();
        proof {
            lemma_mul_mono(0, row as int, COLS as int);
        }
        self.arr.set(row * COLS + col, value);
    }

    /// Sets column `col` of rows `row..row + n_rows`.
    pub fn assign_rows(&mut self, row: usize, col: usize, n_rows: usize, value: T)
        requires
            n_rows > 0 ==> row + n_rows - 1 <= usize::MAX,
            n_rows > 0 ==> (row + n_rows - 1) * COLS + col < old(self)@.len(),
        ensures
            final(self)@.len() == old(self)@.len(),
            forall|i: int|
                0 <= i < old(self)@.len() ==> #[trigger] final(self)@[i] == if in_column_run(
                    i,
                    row as int,
                    col as int,
                    n_rows as int,
                    COLS as int,
                ) {
                    value
                } else {
                    old(self)@[i]
                },
    {
        let mut n: usize = 0;
        while n < n_rows
            invariant
                n <= n_rows,
                n_rows > 0 ==> row + n_rows - 1 <= usize::MAX,
                n_rows > 0 ==> (row + n_rows - 1) * COLS + col < old(self)@.len(),
                self.arr@.len() == old(self)@.len(),
                forall|i: int|
                    0 <= i < self.arr@.len() ==> #[trigger] self.arr@[i] == if in_column_run(
                        i,
                        row as int,
                        col as int,
                        n as int,
                        COLS as int,
                    ) {
                        value
                    } else {
                        old(self)@[i]
                    },
            decreases n_rows - n,
        {
            let len = self.arr.len();
            proof {
                lemma_mul_mono((row + n) as int, (row + n_rows - 1) as int, COLS as int);
            }
            let idx = (row + n) * COLS + col;
            self.arr.set(idx, value);
            proof {
                assert forall|i: int| 0 <= i < self.arr@.len() implies #[trigger] self.arr@[i] == if in_column_run(
                    i,
                    row as int,
                    col as int,
                    n + 1,
                    COLS as int,
                ) {
                    value
                } else {
                    old(self)@[i]
                } by {
                    if i == idx {
                        assert(i == ((row + n) * COLS) + col);
                    } else if in_column_run(i, row as int, col as int, n + 1, COLS as int) {
                        let w = choose|w: int| 0 <= w < n + 1 && i == #[trigger] ((row + w) * COLS) + col;
                        assert(w != n);
                        assert(in_column_run(i, row as int, col as int, n as int, COLS as int));
                    } else {
                        assert(!in_column_run(i, row as int, col as int, n as int, COLS as int));
                    }
                }
            }
            n += 1;
        }
    }
}

} // verus!
