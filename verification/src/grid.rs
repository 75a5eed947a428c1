//! Two-dimensional arrays and sums over them.

use crate::float_trait::Bm3dFloat;
use vstd::arithmetic::div_mod::lemma_fundamental_div_mod_converse;
use vstd::prelude::*;

verus! {

/// The largest number of cells, and the longest axis, of a [`Grid`]: more four-byte scalars
/// than this do not fit into the address space.
pub const MAX_CELLS: usize = usize::MAX / 8;

/// Whether a grid can have this many rows and columns.
pub open spec fn shape_fits(rows: int, cols: int) -> bool {
    &&& 0 <= rows <= MAX_CELLS
    &&& 0 <= cols <= MAX_CELLS
    &&& rows * cols <= MAX_CELLS
}

/// A grid can have every shape whose axes and number of cells fit into the address space eight
/// times, and no other.
pub proof fn law_shapes_that_fit(rows: int, cols: int)
    requires
        rows >= 0,
        cols >= 0,
    ensures
        shape_fits(rows, cols) <==> 8 * rows <= usize::MAX && 8 * cols <= usize::MAX && 8 * (rows
            * cols) <= usize::MAX,
{
}

/// The mathematical content of a grid: its shape and its cells, row by row.
pub struct Matrix<T> {
    /// Number of rows.
    pub rows: nat,
    /// Number of columns.
    pub cols: nat,
    /// The rows from top to bottom, each from left to right.
    pub cells: Seq<Seq<T>>,
}

impl<T> Matrix<T> {
    /// The matrix with `f(r, c)` in row `r` and column `c`.
    pub open spec fn from_fn(rows: nat, cols: nat, f: spec_fn(int, int) -> T) -> Matrix<T> {
        Matrix { rows, cols, cells: Seq::new(rows, |r: int| Seq::new(cols, |c: int| f(r, c))) }
    }

    /// The matrix whose rows lie one after the other in `flat`.
    pub open spec fn from_flat(rows: nat, cols: nat, flat: Seq<T>) -> Matrix<T> {
        Matrix::from_fn(rows, cols, |r: int, c: int| flat[r * cols + c])
    }

    /// The cell in row `r` and column `c`.
    pub open spec fn at(self, r: int, c: int) -> T {
        self.cells[r][c]
    }

    /// Whether there are as many cells as the shape says.
    pub open spec fn wf(self) -> bool {
        &&& self.cells.len() == self.rows
        &&& forall|r: int| 0 <= r < self.rows ==> (#[trigger] self.cells[r]).len() == self.cols
    }

    /// Whether `(r, c)` names a cell.
    pub open spec fn has(self, r: int, c: int) -> bool {
        0 <= r < self.rows && 0 <= c < self.cols
    }

    /// Whether there is no cell at all.
    pub open spec fn is_empty(self) -> bool {
        self.rows == 0 || self.cols == 0
    }

    /// The matrix of the same shape with `f` applied to every cell.
    pub open spec fn map<U>(self, f: spec_fn(T) -> U) -> Matrix<U> {
        Matrix::from_fn(self.rows, self.cols, |r: int, c: int| f(self.at(r, c)))
    }

    /// The `rows x cols` part whose first cell is `(top, left)`.
    pub open spec fn part(self, top: int, left: int, rows: nat, cols: nat) -> Matrix<T> {
        Matrix::from_fn(rows, cols, |r: int, c: int| self.at(top + r, left + c))
    }
}

/// Two matrices of one shape that agree in every cell are the same matrix.
pub proof fn lemma_same_matrix<T>(a: Matrix<T>, b: Matrix<T>)
    requires
        a.wf(),
        b.wf(),
        a.rows == b.rows,
        a.cols == b.cols,
        forall|r: int, c: int| a.has(r, c) ==> #[trigger] a.at(r, c) == b.at(r, c),
    ensures
        a == b,
{
    assert forall|r: int| 0 <= r < a.rows implies a.cells[r] =~= b.cells[r] by {
        assert forall|c: int| 0 <= c < a.cols implies a.cells[r][c] == b.cells[r][c] by {
            assert(a.has(r, c));
            assert(a.at(r, c) == b.at(r, c));
        }
    }
    assert(a.cells =~= b.cells);
}

/// The sum of the cells of `m` before cell `(a, b)`, taken row by row from the left.
pub open spec fn partial_sum<F: Bm3dFloat>(m: Matrix<F>, a: nat, b: nat) -> F
    decreases a, b,
{
    if b > 0 {
        partial_sum(m, a, (b - 1) as nat).plus_spec(m.at(a as int, b - 1))
    } else if a > 0 {
        partial_sum(m, (a - 1) as nat, m.cols)
    } else {
        F::zero_spec()
    }
}

/// The sum of all cells of `m`, taken row by row from the left.
pub open spec fn total<F: Bm3dFloat>(m: Matrix<F>) -> F {
    partial_sum(m, m.rows, 0)
}

/// The place of cell `(r, c)` when the rows lie one after the other.
proof fn lemma_place(r: int, c: int, rows: int, cols: int)
    requires
        0 <= r < rows,
        0 <= c < cols,
    ensures
        0 <= r * cols,
        r * cols + c < rows * cols,
        (r + 1) * cols == r * cols + cols,
        r * cols <= rows * cols,
{
    assert(r * cols >= 0 && r * cols + c < rows * cols && (r + 1) * cols == r * cols + cols)
        by (nonlinear_arith)
        requires
            0 <= r < rows,
            0 <= c < cols,
    ;
}

/// Different cells have different places.
proof fn lemma_place_is_unique(r: int, c: int, i: int, j: int, cols: int)
    requires
        0 <= c < cols,
        0 <= j < cols,
        r * cols + c == i * cols + j,
    ensures
        r == i && c == j,
{
    lemma_fundamental_div_mod_converse(r * cols + c, cols, r, c);
    lemma_fundamental_div_mod_converse(i * cols + j, cols, i, j);
}

/// A two-dimensional array, stored row by row.
#[derive(Debug)]
pub struct Grid<T> {
    rows: usize,
    cols: usize,
    data: Vec<T>,
}

impl<T> Grid<T> {
    #[verifier::type_invariant]
    spec fn inv(&self) -> bool {
        &&& shape_fits(self.rows as int, self.cols as int)
        &&& self.data@.len() == self.rows * self.cols
    }
}

impl<T> View for Grid<T> {
    type V = Matrix<T>;

    closed spec fn view(&self) -> Matrix<T> {
        Matrix::from_flat(self.rows as nat, self.cols as nat, self.data@)
    }
}

impl<T: Copy> Grid<T> {
    /// The content of a grid has as many cells as its shape says.
    pub broadcast proof fn lemma_view_wf(&self)
        ensures
            (#[trigger] self@).wf(),
    {
    }

    /// The grid of the given shape whose rows lie one after the other in `data`.
    pub fn new(rows: usize, cols: usize, data: Vec<T>) -> (r: Grid<T>)
        requires
            shape_fits(rows as int, cols as int),
            data@.len() == rows * cols,
        ensures
            r@ == Matrix::from_flat(rows as nat, cols as nat, data@),
            r@.rows == rows,
            r@.cols == cols,
            forall|i: int, j: int| r@.has(i, j) ==> #[trigger] r@.at(i, j) == data@[i * cols + j],
    {
        Grid { rows, cols, data }
    }

    /// The grid of the given shape whose rows lie one after the other in `data`, or `None`
    /// if `data` does not have as many cells as the shape or the shape is too large.
    pub fn from_shape_vec(rows: usize, cols: usize, data: Vec<T>) -> (r: Option<Grid<T>>)
        ensures
            match r {
                Some(grid) => {
                    &&& shape_fits(rows as int, cols as int)
                    &&& data@.len() == rows * cols
                    &&& grid@ == Matrix::from_flat(rows as nat, cols as nat, data@)
                    &&& forall|i: int, j: int|
                        grid@.has(i, j) ==> #[trigger] grid@.at(i, j) == data@[i * cols + j]
                },
                None => !(shape_fits(rows as int, cols as int) && data@.len() == rows * cols),
            },
    {
        match checked_cells(rows, cols) {
            Some(cells) => if cells == data.len() {
                Some(Grid::new(rows, cols, data))
            } else {
                None
            },
            None => None,
        }
    }

    /// The grid with `f(r, c)` in row `r` and column `c`.
    pub fn from_shape_fn<G: Fn(usize, usize) -> T>(rows: usize, cols: usize, f: &G) -> (r: Grid<T>)
        requires
            shape_fits(rows as int, cols as int),
            forall|i: usize, j: usize| i < rows && j < cols ==> call_requires(*f, (i, j)),
        ensures
            r@.rows == rows,
            r@.cols == cols,
            r@.wf(),
            forall|i: usize, j: usize|
                i < rows && j < cols ==> #[trigger] call_ensures(
                    *f,
                    (i, j),
                    r@.at(i as int, j as int),
                ),
            forall|i: int, j: int|
                r@.has(i, j) ==> call_ensures(
                    *f,
                    (i as usize, j as usize),
                    #[trigger] r@.at(i, j),
                ),
    {
        let mut data: Vec<T> = Vec::new();
        let mut i: usize = 0;
        while i < rows
            invariant
                shape_fits(rows as int, cols as int),
                forall|r: usize, c: usize| r < rows && c < cols ==> call_requires(*f, (r, c)),
                i <= rows,
                data@.len() == i * cols,
                forall|r: int, c: int|
                    0 <= r < i && 0 <= c < cols ==> call_ensures(
                        *f,
                        (r as usize, c as usize),
                        #[trigger] data@[r * cols + c],
                    ),
            decreases rows - i,
        {
            let mut j: usize = 0;
            while j < cols
                invariant
                    shape_fits(rows as int, cols as int),
                    forall|r: usize, c: usize| r < rows && c < cols ==> call_requires(*f, (r, c)),
                    i < rows,
                    j <= cols,
                    data@.len() == i * cols + j,
                    forall|r: int, c: int|
                        (0 <= r < i && 0 <= c < cols) || (r == i && 0 <= c < j) ==> call_ensures(
                            *f,
                            (r as usize, c as usize),
                            #[trigger] data@[r * cols + c],
                        ),
                decreases cols - j,
            {
                let ghost before = data@;
                let value = f(i, j);
                data.push(value);
                proof {
                    lemma_place(i as int, j as int, rows as int, cols as int);
                    assert forall|r: int, c: int|
                        (0 <= r < i && 0 <= c < cols) || (r == i && 0 <= c < j + 1) implies
                        call_ensures(
                        *f,
                        (r as usize, c as usize),
                        #[trigger] data@[r * cols + c],
                    ) by {
                        if r == i && c == j {
                        } else if r == i {
                            assert(data@[r * cols + c] == before[r * cols + c]);
                        } else {
                            lemma_place(r, c, i as int, cols as int);
                            assert(data@[r * cols + c] == before[r * cols + c]);
                        }
                    }
                }
                j = j + 1;
            }
            proof {
                if cols > 0 {
                    lemma_place(i as int, 0, rows as int, cols as int);
                } else {
                    assert((i + 1) * cols == i * cols + cols) by (nonlinear_arith);
                }
            }
            i = i + 1;
        }
        let grid = Grid::new(rows, cols, data);
        proof {
            assert forall|r: int, c: int| grid@.has(r, c) implies call_ensures(
                *f,
                (r as usize, c as usize),
                #[trigger] grid@.at(r, c),
            ) by {
                assert(grid@.at(r, c) == data@[r * cols + c]);
            }
            assert forall|r: usize, c: usize| r < rows && c < cols implies #[trigger] call_ensures(
                *f,
                (r, c),
                grid@.at(r as int, c as int),
            ) by {
                assert(grid@.has(r as int, c as int));
            }
        }
        grid
    }

    /// The number of rows and of columns.
    pub fn dim(&self) -> (r: (usize, usize))
        ensures
            r.0 == self@.rows,
            r.1 == self@.cols,
            shape_fits(r.0 as int, r.1 as int),
    {
        proof {
            use_type_invariant(self);
        }
        (self.rows, self.cols)
    }

    /// The cell in row `r` and column `c`.
    pub fn get(&self, r: usize, c: usize) -> (v: T)
        requires
            self@.has(r as int, c as int),
        ensures
            v == self@.at(r as int, c as int),
    {
        proof {
            use_type_invariant(self);
            lemma_place(r as int, c as int, self.rows as int, self.cols as int);
        }
        self.data[r * self.cols + c]
    }

    /// The grid with the cell in row `r` and column `c` replaced.
    pub fn with_cell(self, r: usize, c: usize, value: T) -> (g: Grid<T>)
        requires
            self@.has(r as int, c as int),
        ensures
            g@.rows == self@.rows,
            g@.cols == self@.cols,
            forall|i: int, j: int|
                self@.has(i, j) ==> #[trigger] g@.at(i, j) == if i == r && j == c {
                    value
                } else {
                    self@.at(i, j)
                },
    {
        proof {
            use_type_invariant(&self);
            lemma_place(r as int, c as int, self.rows as int, self.cols as int);
        }
        let Grid { rows, cols, mut data } = self;
        let ghost before = data@;
        data.set(r * cols + c, value);
        let g = Grid::new(rows, cols, data);
        proof {
            assert forall|i: int, j: int| self@.has(i, j) implies #[trigger] g@.at(i, j) == if i
                == r && j == c {
                value
            } else {
                self@.at(i, j)
            } by {
                lemma_place(i, j, rows as int, cols as int);
                if i * cols + j == r * cols + c {
                    lemma_place_is_unique(i, j, r as int, c as int, cols as int);
                }
            }
        }
        g
    }

    /// The cells row by row.
    pub fn as_vec(&self) -> (v: &Vec<T>)
        ensures
            v@.len() == self@.rows * self@.cols,
            self@ == Matrix::from_flat(self@.rows, self@.cols, v@),
            forall|i: int, j: int|
                self@.has(i, j) ==> #[trigger] self@.at(i, j) == v@[i * self@.cols + j],
    {
        proof {
            use_type_invariant(self);
        }
        &self.data
    }
}

impl<T: Copy> Clone for Grid<T> {
    fn clone(&self) -> (g: Self)
        ensures
            g@ == self@,
    {
        let (rows, cols) = self.dim();
        let cell = |r: usize, c: usize| -> (v: T)
            requires
                self@.has(r as int, c as int),
            ensures
                v == self@.at(r as int, c as int),
            { self.get(r, c) };
        let g = Grid::from_shape_fn(rows, cols, &cell);
        proof {
            self.lemma_view_wf();
            lemma_same_matrix(g@, self@);
        }
        g
    }
}

/// The number of cells of a shape, if a grid can have that shape.
pub fn checked_cells(rows: usize, cols: usize) -> (r: Option<usize>)
    ensures
        match r {
            Some(cells) => shape_fits(rows as int, cols as int) && cells == rows * cols,
            None => !shape_fits(rows as int, cols as int),
        },
{
    if rows > MAX_CELLS || cols > MAX_CELLS {
        return None;
    }
    match rows.checked_mul(cols) {
        Some(cells) => if cells <= MAX_CELLS {
            Some(cells)
        } else {
            None
        },
        None => None,
    }
}

/// Adds up `f(r, c)` over all cells of a shape, row by row from the left.
pub(crate) fn sum_over<F: Bm3dFloat, G: Fn(usize, usize) -> F>(
    rows: usize,
    cols: usize,
    f: &G,
    Ghost(m): Ghost<Matrix<F>>,
) -> (r: F)
    requires
        m.rows == rows,
        m.cols == cols,
        forall|i: usize, j: usize| i < rows && j < cols ==> call_requires(*f, (i, j)),
        forall|i: usize, j: usize, v: F|
            i < rows && j < cols && #[trigger] call_ensures(*f, (i, j), v) ==> v == m.at(
                i as int,
                j as int,
            ),
    ensures
        r == total(m),
{
    let mut acc: F = F::zero();
    let mut i: usize = 0;
    while i < rows
        invariant
            m.rows == rows,
            m.cols == cols,
            forall|i: usize, j: usize| i < rows && j < cols ==> call_requires(*f, (i, j)),
            forall|i: usize, j: usize, v: F|
                i < rows && j < cols && #[trigger] call_ensures(*f, (i, j), v) ==> v == m.at(
                    i as int,
                    j as int,
                ),
            i <= rows,
            acc == partial_sum(m, i as nat, 0),
        decreases rows - i,
    {
        let mut j: usize = 0;
        while j < cols
            invariant
                m.rows == rows,
                m.cols == cols,
                forall|i: usize, j: usize| i < rows && j < cols ==> call_requires(*f, (i, j)),
                forall|i: usize, j: usize, v: F|
                    i < rows && j < cols && #[trigger] call_ensures(*f, (i, j), v) ==> v == m.at(
                        i as int,
                        j as int,
                    ),
                i < rows,
                j <= cols,
                acc == partial_sum(m, i as nat, j as nat),
            decreases cols - j,
        {
            let value = f(i, j);
            acc = acc.plus(value);
            j = j + 1;
        }
        i = i + 1;
    }
    acc
}

impl<F: Bm3dFloat> Grid<F> {
    /// The sum of all cells, taken row by row from the left.
    pub fn sum(&self) -> (r: F)
        ensures
            r == total(self@),
    {
        let (rows, cols) = self.dim();
        let cell = |r: usize, c: usize| -> (v: F)
            requires
                self@.has(r as int, c as int),
            ensures
                v == self@.at(r as int, c as int),
            { self.get(r, c) };
        sum_over(rows, cols, &cell, Ghost(self@))
    }
}

} // verus!
