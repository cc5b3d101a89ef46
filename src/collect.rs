use vstd::prelude::*;
use crate::error::EngineError;
use crate::grid::{Grid, cell_index, lemma_row_in_bounds};

verus! {

/// How many entries of `s` are `true`.
pub open spec fn count_true(s: Seq<bool>) -> nat
    decreases s.len(),
{
    if s.len() == 0 {
        0
    } else {
        count_true(s.drop_last()) + if s.last() { 1nat } else { 0nat }
    }
}

/// The single consumer that assembles computed rows into the output grid.
/// Rows may arrive in any order: each one is keyed by its index.
pub struct Collector<T> {
    rows: usize,
    columns: usize,
    nodata: T,
    cells: Vec<T>,
    written: Vec<bool>,
    received: usize,
}

impl<T: Copy> Collector<T> {
    pub closed spec fn spec_rows(&self) -> nat {
        self.rows as nat
    }

    pub closed spec fn spec_columns(&self) -> nat {
        self.columns as nat
    }

    pub closed spec fn spec_nodata(&self) -> T {
        self.nodata
    }

    /// The output buffer, row after row.
    pub closed spec fn cells(&self) -> Seq<T> {
        self.cells@
    }

    /// Which rows have been written.
    pub closed spec fn written(&self) -> Seq<bool> {
        self.written@
    }

    /// How many rows have been accepted.
    pub closed spec fn spec_received(&self) -> nat {
        self.received as nat
    }

    pub open spec fn wf(&self) -> bool {
        &&& self.cells().len() == self.spec_rows() * self.spec_columns()
        &&& self.written().len() == self.spec_rows()
        &&& self.spec_received() == count_true(self.written())
    }

    /// The cells of one row of the output buffer.
    pub open spec fn row_cells_of(&self, row: int) -> Seq<T> {
        self.cells().subrange(
            row * self.spec_columns(),
            row * self.spec_columns() + self.spec_columns(),
        )
    }

    /// The cell `(row, column)` of the output buffer.
    pub open spec fn cell(&self, row: int, column: int) -> T {
        self.cells()[cell_index(self.spec_columns() as int, row, column)]
    }

    /// An output buffer of `rows x columns` cells, each set to `nodata`, with
    /// no row written; `None` when the cell count does not fit in `usize`.
    pub fn new(rows: usize, columns: usize, nodata: T) -> (r: Option<Collector<T>>)
        ensures
            r is Some <==> rows * columns <= usize::MAX,
            r matches Some(c) ==> {
                &&& c.wf()
                &&& c.spec_rows() == rows && c.spec_columns() == columns
                &&& c.spec_nodata() == nodata
                &&& forall|i: int| 0 <= i < c.cells().len() ==> #[trigger] c.cells()[i] == nodata
                &&& forall|i: int| 0 <= i < rows ==> !#[trigger] c.written()[i]
                &&& c.spec_received() == 0
            },
    {
        let n = match rows.checked_mul(columns) {
            Some(n) => n,
            None => return None,
        };
        let mut cells: Vec<T> = Vec::new();
        let mut i: usize = 0;
        while i < n
            invariant
                i <= n,
                cells@.len() == i,
                forall|j: int| 0 <= j < i ==> #[trigger] cells@[j] == nodata,
            decreases n - i,
        {
            cells.push(nodata);
            i += 1;
        }
        let mut written: Vec<bool> = Vec::new();
        let mut r: usize = 0;
        while r < rows
            invariant
                r <= rows,
                written@.len() == r,
                forall|j: int| 0 <= j < r ==> !#[trigger] written@[j],
                count_true(written@) == 0,
            decreases rows - r,
        {
            let ghost prev = written@;
            written.push(false);
            proof { assert(written@.drop_last() =~= prev); }
            r += 1;
        }
        Some(Collector { rows, columns, nodata, cells, written, received: 0 })
    }

    pub fn received(&self) -> (r: usize)
        ensures
            r == self.spec_received(),
    {
        self.received
    }

    /// Whether every row has been written.
    pub fn is_complete(&self) -> (r: bool)
        requires
            self.wf(),
        ensures
            r <==> forall|i: int| 0 <= i < self.spec_rows() ==> #[trigger] self.written()[i],
    {
        proof { lemma_count_true_full(self.written()); }
        self.received == self.rows
    }

    /// Writes the values of one computed row into the output buffer. A row
    /// index beyond the grid, a row of the wrong length, or a row already
    /// written is refused and leaves the collector as it was.
    pub fn accept(&mut self, row: usize, values: &Vec<T>) -> (r: Result<(), EngineError>)
        requires
            old(self).wf(),
        ensures
            final(self).wf(),
            final(self).spec_rows() == old(self).spec_rows(),
            final(self).spec_columns() == old(self).spec_columns(),
            final(self).spec_nodata() == old(self).spec_nodata(),
            row >= old(self).spec_rows() ==> r == Err::<(), EngineError>(EngineError::RowOutOfRange),
            row < old(self).spec_rows() && values@.len() != old(self).spec_columns()
                ==> r == Err::<(), EngineError>(EngineError::RowLengthMismatch),
            row < old(self).spec_rows() && values@.len() == old(self).spec_columns()
                && old(self).written()[row as int]
                ==> r == Err::<(), EngineError>(EngineError::DuplicateRow),
            row < old(self).spec_rows() && values@.len() == old(self).spec_columns()
                && !old(self).written()[row as int] ==> r is Ok,
            r is Err ==> *final(self) == *old(self),
            r is Ok ==> {
                &&& row < old(self).spec_rows()
                &&& values@.len() == old(self).spec_columns()
                &&& !old(self).written()[row as int]
                &&& final(self).written() == old(self).written().update(row as int, true)
                &&& final(self).spec_received() == old(self).spec_received() + 1
                &&& forall|rr: int, c: int| 0 <= rr < old(self).spec_rows() && 0 <= c < old(self).spec_columns()
                    ==> #[trigger] final(self).cell(rr, c) == if rr == row { values@[c] } else { old(self).cell(rr, c) }
            },
    {
        if row >= self.rows {
            return Err(EngineError::RowOutOfRange);
        }
        if values.len() != self.columns {
            return Err(EngineError::RowLengthMismatch);
        }
        if self.written[row] {
            return Err(EngineError::DuplicateRow);
        }
        let ghost before = self.cells@;
        let n = self.cells.len();
        proof { lemma_row_in_bounds(self.rows as int, self.columns as int, row as int); }
        let start = row * self.columns;
        let mut c: usize = 0;
        while c < self.columns
            invariant
                c <= self.columns,
                self.columns == old(self).columns,
                self.rows == old(self).rows,
                self.nodata == old(self).nodata,
                self.written@ == old(self).written@,
                self.received == old(self).received,
                values@.len() == self.columns,
                start == row * self.columns,
                start + self.columns <= n,
                n == self.cells@.len(),
                n == before.len(),
                forall|i: int| 0 <= i < n ==> #[trigger] self.cells@[i] == if start <= i < start + c {
                    values@[i - start]
                } else {
                    before[i]
                },
            decreases self.columns - c,
        {
            self.cells.set(start + c, values[c]);
            c += 1;
        }
        proof { lemma_count_true_update(self.written@, row as int); }
        self.written.set(row, true);
        proof { lemma_count_true_full(self.written@); }
        self.received = self.received + 1;
        proof {
            assert forall|rr: int, cc: int| 0 <= rr < self.rows && 0 <= cc < self.columns
                implies #[trigger] self.cell(rr, cc) == if rr == row { values@[cc] } else { old(self).cell(rr, cc) } by {
                crate::grid::lemma_cell_in_bounds(self.rows as int, self.columns as int, rr, cc);
                lemma_cell_in_other_row(self.columns as int, rr, cc, row as int);
            }
        }
        Ok(())
    }

    /// Hands over the assembled output grid once every row has been written;
    /// a collector still missing rows reports a stall instead of waiting.
    pub fn finish(self) -> (r: Result<Grid<T>, EngineError>)
        requires
            self.wf(),
        ensures
            r is Ok <==> forall|i: int| 0 <= i < self.spec_rows() ==> #[trigger] self.written()[i],
            r matches Err(e) ==> e == EngineError::WorkerStall,
            r matches Ok(g) ==> {
                &&& g.wf()
                &&& g.spec_rows() == self.spec_rows()
                &&& g.spec_columns() == self.spec_columns()
                &&& g.spec_nodata() == self.spec_nodata()
                &&& g.cells() == self.cells()
            },
    {
        proof { lemma_count_true_full(self.written()); }
        if self.received != self.rows {
            return Err(EngineError::WorkerStall);
        }
        match Grid::new(self.rows, self.columns, self.nodata, self.cells) {
            Some(g) => Ok(g),
            None => Err(EngineError::WorkerStall),
        }
    }
}

/// Every message names a row of `[0, rows)` and holds `columns` values, and no
/// two messages name the same row.
pub open spec fn messages_well_formed<T>(messages: Seq<(usize, Vec<T>)>, rows: nat, columns: nat) -> bool {
    &&& forall|m: int| 0 <= m < messages.len() ==> (#[trigger] messages[m]).0 < rows
        && messages[m].1@.len() == columns
    &&& forall|m: int, n: int| 0 <= m < n < messages.len() ==> (#[trigger] messages[m]).0 != (#[trigger] messages[n]).0
}

/// Some message names `row`.
pub open spec fn names_row<T>(messages: Seq<(usize, Vec<T>)>, row: int) -> bool {
    exists|m: int| 0 <= m < messages.len() && #[trigger] messages[m].0 == row
}

/// Drains the row messages of all workers, in the order they arrived, into
/// a `rows x columns` grid whose unwritten cells hold `nodata`. Succeeds
/// exactly when the messages name each row once and hold full rows; each
/// row of the result is then the values of the message that names it,
/// whatever the arrival order.
pub fn assemble_rows<T: Copy>(rows: usize, columns: usize, nodata: T, messages: &Vec<(usize, Vec<T>)>) -> (r: Result<Grid<T>, EngineError>)
    requires
        rows * columns <= usize::MAX,
    ensures
        r is Ok <==> (messages@.len() == rows && messages_well_formed(messages@, rows as nat, columns as nat)),
        r matches Ok(g) ==> {
            &&& g.wf()
            &&& g.spec_rows() == rows && g.spec_columns() == columns && g.spec_nodata() == nodata
            &&& forall|m: int| 0 <= m < messages@.len() ==> #[trigger] g.row_cells(messages@[m].0 as int) == messages@[m].1@
            &&& forall|row: int| 0 <= row < rows ==> #[trigger] names_row(messages@, row)
        },
{
    let mut collector = match Collector::new(rows, columns, nodata) {
        Some(c) => c,
        None => return Err(EngineError::WorkerStall),
    };
    let mut i: usize = 0;
    while i < messages.len()
        invariant
            collector.wf(),
            collector.spec_rows() == rows,
            collector.spec_columns() == columns,
            collector.spec_nodata() == nodata,
            i <= messages@.len(),
            collector.spec_received() == i,
            messages_well_formed(messages@.subrange(0, i as int), rows as nat, columns as nat),
            forall|j: int| 0 <= j < i ==> #[trigger] collector.written()[messages@[j].0 as int],
            forall|row: int| 0 <= row < rows && #[trigger] collector.written()[row]
                ==> exists|j: int| 0 <= j < i && #[trigger] messages@[j].0 == row,
            forall|j: int, c: int| 0 <= j < i && 0 <= c < columns
                ==> #[trigger] collector.cell(messages@[j].0 as int, c) == messages@[j].1@[c],
        decreases messages@.len() - i,
    {
        let row = messages[i].0;
        let ghost before = collector;
        match collector.accept(row, &messages[i].1) {
            Ok(()) => {}
            Err(e) => {
                proof {
                    if messages@.len() == rows && messages_well_formed(messages@, rows as nat, columns as nat) {
                        assert(messages@[i as int].0 < rows);
                        assert(messages@[i as int].1@.len() == columns);
                        assert(collector.written()[row as int]);
                        let j = choose|j: int| 0 <= j < i && #[trigger] messages@[j].0 == row;
                        assert(messages@[j].0 != messages@[i as int].0);
                    }
                }
                return Err(e);
            }
        }
        proof {
            let sub = messages@.subrange(0, i + 1);
            assert forall|m: int, n: int| 0 <= m < n < sub.len() implies (#[trigger] sub[m]).0 != (#[trigger] sub[n]).0 by {
                if n == i {
                    assert(before.written()[sub[m].0 as int]);
                } else {
                    assert(messages@.subrange(0, i as int)[m] == sub[m]);
                    assert(messages@.subrange(0, i as int)[n] == sub[n]);
                }
            }
            assert forall|m: int| 0 <= m < sub.len() implies (#[trigger] sub[m]).0 < rows
                && sub[m].1@.len() == columns by {
                if m < i {
                    assert(messages@.subrange(0, i as int)[m] == sub[m]);
                }
            }
            assert forall|row2: int| 0 <= row2 < rows && #[trigger] collector.written()[row2]
                implies exists|j: int| 0 <= j < i + 1 && #[trigger] messages@[j].0 == row2 by {
                if row2 != row {
                    assert(before.written()[row2]);
                    let j = choose|j: int| 0 <= j < i && #[trigger] messages@[j].0 == row2;
                    assert(0 <= j < i + 1 && messages@[j].0 == row2);
                } else {
                    assert(messages@[i as int].0 == row2);
                }
            }
            assert forall|j: int| 0 <= j < i + 1 implies #[trigger] collector.written()[messages@[j].0 as int] by {
                assert(sub[j] == messages@[j]);
                if j < i {
                    assert(before.written()[messages@[j].0 as int]);
                }
            }
            assert forall|j: int, c: int| 0 <= j < i + 1 && 0 <= c < columns
                implies #[trigger] collector.cell(messages@[j].0 as int, c) == messages@[j].1@[c] by {
                assert(messages@[i as int].0 < rows) by {
                    assert(sub[i as int] == messages@[i as int]);
                }
                if j < i {
                    assert(messages@.subrange(0, i as int)[j] == messages@[j]);
                    assert(before.written()[messages@[j].0 as int]);
                    assert(messages@[j].0 != row);
                    assert(before.cell(messages@[j].0 as int, c) == messages@[j].1@[c]);
                }
            }
        }
        i += 1;
    }
    proof { assert(messages@.subrange(0, i as int) =~= messages@); }
    if i != rows {
        proof {
            lemma_count_true_full(collector.written());
        }
        return Err(EngineError::WorkerStall);
    }
    let ghost done = collector;
    let result = collector.finish();
    proof {
        lemma_count_true_full(done.written());
        assert forall|row: int| 0 <= row < rows implies #[trigger] names_row(messages@, row) by {
            assert(done.written()[row]);
        }
        assert forall|m: int| 0 <= m < messages@.len() implies #[trigger] done.row_cells_of(messages@[m].0 as int) == messages@[m].1@ by {
            let row = messages@[m].0 as int;
            lemma_row_in_bounds(rows as int, columns as int, row);
            assert forall|c: int| 0 <= c < columns implies #[trigger] done.row_cells_of(row)[c] == messages@[m].1@[c] by {
                assert(done.cell(row, c) == messages@[m].1@[c]);
            }
            assert(done.row_cells_of(row) =~= messages@[m].1@);
        }
        match &result {
            Ok(g) => {
                assert forall|m: int| 0 <= m < messages@.len() implies #[trigger] g.row_cells(messages@[m].0 as int) == messages@[m].1@ by {
                    assert(g.row_cells(messages@[m].0 as int) == done.row_cells_of(messages@[m].0 as int));
                }
            }
            Err(_) => {}
        }
    }
    result
}

/// The output does not depend on the order in which rows arrive, and so not
/// on how many workers computed them: two grids of one shape, each holding
/// in every named row the values of the message that names it, and built
/// from messages that are the same up to order, are equal.
pub proof fn lemma_assembly_independent_of_arrival<T: Copy>(
    first: Seq<(usize, Vec<T>)>,
    second: Seq<(usize, Vec<T>)>,
    g1: Grid<T>,
    g2: Grid<T>,
)
    requires
        g1.wf(),
        g2.wf(),
        g1.spec_rows() == g2.spec_rows(),
        g1.spec_columns() == g2.spec_columns(),
        forall|a: int| 0 <= a < first.len() ==> second.contains(#[trigger] first[a]),
        forall|m: int| 0 <= m < first.len() ==> #[trigger] g1.row_cells(first[m].0 as int) == first[m].1@,
        forall|m: int| 0 <= m < second.len() ==> #[trigger] g2.row_cells(second[m].0 as int) == second[m].1@,
        forall|row: int| 0 <= row < g1.spec_rows() ==> #[trigger] names_row(first, row),
    ensures
        g1.cells() == g2.cells(),
{
    assert forall|row: int| 0 <= row < g1.spec_rows() implies #[trigger] g1.row_cells(row) == g2.row_cells(row) by {
        assert(names_row(first, row));
        let a = choose|a: int| 0 <= a < first.len() && #[trigger] first[a].0 == row;
        assert(second.contains(first[a]));
        let b = choose|b: int| 0 <= b < second.len() && second[b] == first[a];
        assert(g2.row_cells(second[b].0 as int) == second[b].1@);
    }
    crate::grid::lemma_rows_determine_grid(g1, g2);
}

/// A cell lies in the cells of its own row and outside those of any other row.
proof fn lemma_cell_in_other_row(columns: int, row: int, column: int, other: int)
    requires
        0 <= column < columns,
        0 <= row,
        0 <= other,
    ensures
        row == other ==> other * columns <= cell_index(columns, row, column) < other * columns + columns
            && cell_index(columns, row, column) - other * columns == column,
        row != other ==> !(other * columns <= cell_index(columns, row, column) < other * columns + columns),
{
    if row < other {
        assert(row * columns + column < other * columns) by (nonlinear_arith)
            requires row < other, 0 <= column < columns;
    } else if row > other {
        assert(row * columns + column >= other * columns + columns) by (nonlinear_arith)
            requires row > other, 0 <= column < columns;
    }
}

/// Setting an unset entry to `true` adds one to the count.
pub proof fn lemma_count_true_update(s: Seq<bool>, i: int)
    requires
        0 <= i < s.len(),
        !s[i],
    ensures
        count_true(s.update(i, true)) == count_true(s) + 1,
    decreases s.len(),
{
    let t = s.update(i, true);
    if i == s.len() - 1 {
        assert(t.drop_last() =~= s.drop_last());
    } else {
        assert(t.drop_last() =~= s.drop_last().update(i, true));
        lemma_count_true_update(s.drop_last(), i);
    }
}

/// The count never exceeds the length, and equals it exactly when every entry is `true`.
pub proof fn lemma_count_true_full(s: Seq<bool>)
    ensures
        count_true(s) <= s.len(),
        count_true(s) == s.len() <==> forall|i: int| 0 <= i < s.len() ==> #[trigger] s[i],
    decreases s.len(),
{
    if s.len() > 0 {
        lemma_count_true_full(s.drop_last());
        if forall|i: int| 0 <= i < s.len() ==> #[trigger] s[i] {
            assert forall|i: int| 0 <= i < s.drop_last().len() implies #[trigger] s.drop_last()[i] by {
                assert(s[i]);
            }
        }
        if count_true(s) == s.len() {
            assert forall|i: int| 0 <= i < s.len() implies #[trigger] s[i] by {
                if i < s.len() - 1 {
                    assert(s.drop_last()[i]);
                }
            }
        }
    }
}

} // verus!
