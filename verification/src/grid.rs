//! A two-dimensional grid of integer values, stored in an `ndarray` array,
//! and rectangular windows into it.

use vstd::prelude::*;

verus! {

/// A grid of values with a fixed number of rows and columns.
///
/// The values live in an `ndarray::Array2<i64>`; the verifier sees the grid
/// only through `grid_rows`, `grid_cols` and `grid_values`.
#[verifier::external_body]
pub struct Grid {
    cells: ndarray::Array2<i64>,
}

/// The values of a grid, row after row.
pub uninterp spec fn grid_values(g: Grid) -> Seq<i64>;

/// The number of rows of a grid.
pub uninterp spec fn grid_rows(g: Grid) -> nat;

/// The number of columns of a grid.
pub uninterp spec fn grid_cols(g: Grid) -> nat;

/// The part of the matrix `m` that starts at row `r0` and column `c0` and
/// has `rows` rows and `cols` columns.
pub open spec fn sub_matrix(m: Seq<Seq<i64>>, r0: int, rows: int, c0: int, cols: int) -> Seq<
    Seq<i64>,
> {
    Seq::new(rows as nat, |r: int| Seq::new(cols as nat, |c: int| m[r0 + r][c0 + c]))
}

/// A grid of `rows` rows and `cols` columns can hold exactly `len` values.
pub open spec fn shape_fits(rows: usize, cols: usize, len: nat) -> bool {
    rows * cols == len && rows <= isize::MAX && cols <= isize::MAX
}

impl View for Grid {
    type V = Seq<Seq<i64>>;

    /// The grid as a matrix: a sequence of rows of equal length.
    open spec fn view(&self) -> Seq<Seq<i64>> {
        Seq::new(
            grid_rows(*self),
            |r: int| Seq::new(grid_cols(*self), |c: int| grid_values(*self)[r * grid_cols(*self) + c]),
        )
    }
}

/// The matrix `m` has `rows` rows of `cols` values each, which are those of
/// `values` taken row after row.
pub open spec fn is_matrix_of(
    m: Seq<Seq<i64>>,
    rows: usize,
    cols: usize,
    values: Seq<i64>,
) -> bool {
    &&& m.len() == rows
    &&& forall|r: int| 0 <= r < rows ==> (#[trigger] m[r]).len() == cols
    &&& forall|r: int, c: int| 0 <= r < rows && 0 <= c < cols ==>
        #[trigger] m[r][c] == values[r * cols + c]
}

/// Calls `ndarray::Array2::from_shape_vec`, which accepts a shape exactly
/// when the product of its non-zero axis lengths fits in `isize` and the
/// shape's size is the vector's length, and which lays the vector out row
/// after row.
#[verifier::external_body]
fn array_from_shape_vec(rows: usize, cols: usize, values: Vec<i64>) -> (g: Option<Grid>)
    ensures
        g is Some <==> shape_fits(rows, cols, values@.len()),
        g matches Some(grid) ==> grid_rows(grid) == rows && grid_cols(grid) == cols
            && grid_values(grid) == values@,
{
    match ndarray::Array2::from_shape_vec((rows, cols), values) {
        Ok(cells) => Some(Grid { cells }),
        Err(_) => None,
    }
}

impl Grid {
    /// Builds a grid of `rows` rows and `cols` columns from its values, given
    /// row after row. There is no grid where the number of values is not
    /// `rows * cols`, or where a dimension is beyond `isize::MAX`.
    pub fn from_shape_vec(rows: usize, cols: usize, values: Vec<i64>) -> (g: Option<Grid>)
        ensures
            g is Some <==> shape_fits(rows, cols, values@.len()),
            g matches Some(grid) ==> grid_rows(grid) == rows && grid_cols(grid) == cols
                && grid_values(grid) == values@,
            g matches Some(grid) ==> is_matrix_of(grid@, rows, cols, values@),
    {
        let g = array_from_shape_vec(rows, cols, values);
        proof {
            if g is Some {
                let grid = g->0;
                assert(grid@.len() == rows);
            }
        }
        g
    }

    /// The number of rows. Calls `ndarray`'s `nrows`, the length of axis 0.
    #[verifier::external_body]
    pub(crate) fn nrows(&self) -> (n: usize)
        ensures
            n == grid_rows(*self),
    {
        self.cells.nrows()
    }

    /// The number of columns. Calls `ndarray`'s `ncols`, the length of
    /// axis 1.
    #[verifier::external_body]
    pub(crate) fn ncols(&self) -> (n: usize)
        ensures
            n == grid_cols(*self),
    {
        self.cells.ncols()
    }

    /// The value at row `r` and column `c`. Indexes the `ndarray` array with
    /// `[r, c]`, which panics outside the shape and else gives the element
    /// of that row and column.
    #[verifier::external_body]
    pub(crate) fn get(&self, r: usize, c: usize) -> (v: i64)
        requires
            r < grid_rows(*self),
            c < grid_cols(*self),
        ensures
            v == grid_values(*self)[r * grid_cols(*self) + c],
    {
        self.cells[[r, c]]
    }

    /// A window over the whole grid.
    pub fn view_all(&self) -> (w: GridView<'_>)
        ensures
            w.wf(),
            w.grid == self,
            w@ == self@,
    {
        let rows = self.nrows();
        let cols = self.ncols();
        let w = GridView { grid: self, row0: 0, rows, col0: 0, cols };
        assert(w@ =~~= self@);
        w
    }
}

/// A rectangular window into a grid: `rows` rows from row `row0` on and
/// `cols` columns from column `col0` on. Positions in a window count from
/// its own first row and column.
pub struct GridView<'a> {
    pub grid: &'a Grid,
    pub row0: usize,
    pub rows: usize,
    pub col0: usize,
    pub cols: usize,
}

impl<'a> View for GridView<'a> {
    type V = Seq<Seq<i64>>;

    /// The window's part of the grid, as a matrix of its own.
    open spec fn view(&self) -> Seq<Seq<i64>> {
        sub_matrix(self.grid@, self.row0 as int, self.rows as int, self.col0 as int, self.cols as int)
    }
}

impl<'a> GridView<'a> {
    /// The window lies inside its grid.
    pub open spec fn wf(&self) -> bool {
        &&& self.row0 + self.rows <= grid_rows(*self.grid)
        &&& self.col0 + self.cols <= grid_cols(*self.grid)
        &&& self.row0 + self.rows <= usize::MAX
        &&& self.col0 + self.cols <= usize::MAX
    }

    /// The value at row `r` and column `c` of the window.
    pub fn get(&self, r: usize, c: usize) -> (v: i64)
        requires
            self.wf(),
            r < self.rows,
            c < self.cols,
        ensures
            v == self@[r as int][c as int],
    {
        self.grid.get(self.row0 + r, self.col0 + c)
    }

    /// The window of `rows` rows and `cols` columns that starts at row `r0`
    /// and column `c0` of this window.
    pub fn slice(&self, r0: usize, rows: usize, c0: usize, cols: usize) -> (w: GridView<'a>)
        requires
            self.wf(),
            r0 + rows <= self.rows,
            c0 + cols <= self.cols,
        ensures
            w.wf(),
            w.grid == self.grid,
            w.rows == rows,
            w.cols == cols,
            w.row0 == self.row0 + r0,
            w.col0 == self.col0 + c0,
            w@ == sub_matrix(self@, r0 as int, rows as int, c0 as int, cols as int),
    {
        let w = GridView {
            grid: self.grid,
            row0: self.row0 + r0,
            rows,
            col0: self.col0 + c0,
            cols,
        };
        assert(w@ =~~= sub_matrix(self@, r0 as int, rows as int, c0 as int, cols as int));
        w
    }
}

} // verus!
