use vstd::prelude::*;

verus! {

/// A `rows x columns` grid of samples stored row by row, with the sentinel
/// value that marks a missing sample.
pub struct Grid<T> {
    rows: usize,
    columns: usize,
    nodata: T,
    cells: Vec<T>,
}

/// The index of cell `(row, column)` in a row-major layout of width `columns`.
pub open spec fn cell_index(columns: int, row: int, column: int) -> int {
    row * columns + column
}

impl<T: Copy> Grid<T> {
    pub closed spec fn spec_rows(&self) -> nat {
        self.rows as nat
    }

    pub closed spec fn spec_columns(&self) -> nat {
        self.columns as nat
    }

    pub closed spec fn spec_nodata(&self) -> T {
        self.nodata
    }

    /// The samples, row after row.
    pub closed spec fn cells(&self) -> Seq<T> {
        self.cells@
    }

    pub open spec fn wf(&self) -> bool {
        self.cells().len() == self.spec_rows() * self.spec_columns()
    }

    /// The sample at `(row, column)`.
    pub open spec fn cell(&self, row: int, column: int) -> T {
        self.cells()[cell_index(self.spec_columns() as int, row, column)]
    }

    /// The samples of one row.
    pub open spec fn row_cells(&self, row: int) -> Seq<T> {
        self.cells().subrange(
            row * self.spec_columns(),
            row * self.spec_columns() + self.spec_columns(),
        )
    }

    /// Builds a grid from its samples in row-major order; `None` when their
    /// number is not `rows * columns`.
    pub fn new(rows: usize, columns: usize, nodata: T, cells: Vec<T>) -> (r: Option<Grid<T>>)
        ensures
            r is Some <==> cells@.len() == rows * columns,
            r matches Some(g) ==> (g.wf() && g.spec_rows() == rows && g.spec_columns() == columns
                && g.spec_nodata() == nodata && g.cells() == cells@),
    {
        if columns != 0 && rows > cells.len() / columns {
            proof {
                let n = cells.len() as int;
                vstd::arithmetic::div_mod::lemma_fundamental_div_mod(n, columns as int);
                assert(rows * columns > n) by (nonlinear_arith)
                    requires rows >= n / (columns as int) + 1, columns > 0,
                    n == columns * (n / (columns as int)) + n % (columns as int),
                    n % (columns as int) < columns;
            }
            return None;
        }
        proof {
            if columns != 0 {
                vstd::arithmetic::div_mod::lemma_fundamental_div_mod(cells.len() as int, columns as int);
                assert(rows * columns <= cells.len()) by (nonlinear_arith)
                    requires rows <= cells.len() / columns, columns > 0,
                    cells.len() == columns * (cells.len() / columns) + cells.len() % columns;
            }
        }
        if rows * columns != cells.len() {
            return None;
        }
        Some(Grid { rows, columns, nodata, cells })
    }

    pub fn rows(&self) -> (r: usize)
        ensures
            r == self.spec_rows(),
    {
        self.rows
    }

    pub fn columns(&self) -> (r: usize)
        ensures
            r == self.spec_columns(),
    {
        self.columns
    }

    pub fn nodata(&self) -> (r: T)
        ensures
            r == self.spec_nodata(),
    {
        self.nodata
    }

    /// The number of samples.
    pub fn cell_count(&self) -> (r: usize)
        requires
            self.wf(),
        ensures
            r == self.spec_rows() * self.spec_columns(),
    {
        self.cells.len()
    }

    /// The sample at `(row, column)`.
    pub fn get(&self, row: usize, column: usize) -> (r: T)
        requires
            self.wf(),
            row < self.spec_rows(),
            column < self.spec_columns(),
        ensures
            r == self.cell(row as int, column as int),
    {
        let n = self.cells.len();
        proof { lemma_cell_in_bounds(self.rows as int, self.columns as int, row as int, column as int); }
        self.cells[row * self.columns + column]
    }

    /// A copy of one row's samples.
    pub fn row(&self, row: usize) -> (r: Vec<T>)
        requires
            self.wf(),
            row < self.spec_rows(),
        ensures
            r@ == self.row_cells(row as int),
            r@.len() == self.spec_columns(),
    {
        let n = self.cells.len();
        proof { lemma_row_in_bounds(self.rows as int, self.columns as int, row as int); }
        let start = row * self.columns;
        let mut out: Vec<T> = Vec::new();
        let mut c: usize = 0;
        while c < self.columns
            invariant
                self.wf(),
                c <= self.columns,
                start == row * self.columns,
                start + self.columns <= self.cells@.len(),
                n == self.cells@.len(),
                out@ == self.cells@.subrange(start as int, start + c),
            decreases self.columns - c,
        {
            out.push(self.cells[start + c]);
            c += 1;
            assert(out@ =~= self.cells@.subrange(start as int, start + c));
        }
        out
    }
}

/// Two grids of one shape whose rows are all equal are equal cell for cell.
pub proof fn lemma_rows_determine_grid<T: Copy>(g1: Grid<T>, g2: Grid<T>)
    requires
        g1.wf(),
        g2.wf(),
        g1.spec_rows() == g2.spec_rows(),
        g1.spec_columns() == g2.spec_columns(),
        forall|row: int| 0 <= row < g1.spec_rows() ==> #[trigger] g1.row_cells(row) == g2.row_cells(row),
    ensures
        g1.cells() == g2.cells(),
{
    let rows = g1.spec_rows() as int;
    let columns = g1.spec_columns() as int;
    assert forall|i: int| 0 <= i < g1.cells().len() implies g1.cells()[i] == g2.cells()[i] by {
        let row = i / columns;
        let column = i % columns;
        assert(columns > 0) by (nonlinear_arith)
            requires 0 <= i < rows * columns, rows >= 0, columns >= 0;
        vstd::arithmetic::div_mod::lemma_fundamental_div_mod(i, columns);
        vstd::arithmetic::div_mod::lemma_mod_bound(i, columns);
        vstd::arithmetic::div_mod::lemma_div_pos_is_pos(i, columns);
        assert(row < rows) by (nonlinear_arith)
            requires i == columns * row + column, 0 <= column, i < rows * columns, columns > 0;
        lemma_row_in_bounds(rows, columns, row);
        assert(g1.row_cells(row)[column] == g2.row_cells(row)[column]);
        assert(row * columns + column == i) by (nonlinear_arith)
            requires i == columns * row + column;
    }
    assert(g1.cells() =~= g2.cells());
}

/// A cell inside a `rows x columns` grid has an index below `rows * columns`.
pub proof fn lemma_cell_in_bounds(rows: int, columns: int, row: int, column: int)
    requires
        0 <= row < rows,
        0 <= column < columns,
    ensures
        0 <= cell_index(columns, row, column) < rows * columns,
{
    assert(0 <= row * columns + column < rows * columns) by (nonlinear_arith)
        requires 0 <= row < rows, 0 <= column < columns;
}

/// A row of a `rows x columns` grid ends at or before `rows * columns`.
pub proof fn lemma_row_in_bounds(rows: int, columns: int, row: int)
    requires
        0 <= row < rows,
        0 <= columns,
    ensures
        0 <= row * columns,
        row * columns + columns <= rows * columns,
{
    assert(0 <= row * columns && row * columns + columns <= rows * columns) by (nonlinear_arith)
        requires 0 <= row < rows, 0 <= columns;
}

} // verus!
