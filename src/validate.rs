use vstd::prelude::*;
use crate::error::EngineError;
use crate::collect::Collector;
use crate::grid::Grid;

verus! {

/// Checks that two grids have the same shape, before any work is scheduled.
/// Returns the shared `(rows, columns)`.
pub fn check_dimensions<A: Copy, B: Copy>(a: &Grid<A>, b: &Grid<B>) -> (r: Result<(usize, usize), EngineError>)
    ensures
        r is Ok <==> (a.spec_rows() == b.spec_rows() && a.spec_columns() == b.spec_columns()),
        r matches Ok((rows, columns)) ==> rows == a.spec_rows() && columns == a.spec_columns(),
        r matches Err(e) ==> e == EngineError::DimensionMismatch,
{
    if a.rows() != b.rows() || a.columns() != b.columns() {
        Err(EngineError::DimensionMismatch)
    } else {
        Ok((a.rows(), a.columns()))
    }
}

/// Validates the two input grids and, when their shapes agree, sets up the
/// output buffer: the first grid's shape and nodata value, every cell nodata,
/// no row written. A mismatch is reported before any output exists.
pub fn prepare_output<A: Copy, B: Copy>(a: &Grid<A>, b: &Grid<B>) -> (r: Result<Collector<A>, EngineError>)
    requires
        a.wf(),
    ensures
        r is Ok <==> (a.spec_rows() == b.spec_rows() && a.spec_columns() == b.spec_columns()),
        r matches Err(e) ==> e == EngineError::DimensionMismatch,
        r matches Ok(c) ==> {
            &&& c.wf()
            &&& c.spec_rows() == a.spec_rows() && c.spec_columns() == a.spec_columns()
            &&& c.spec_nodata() == a.spec_nodata()
            &&& forall|i: int| 0 <= i < c.cells().len() ==> #[trigger] c.cells()[i] == a.spec_nodata()
            &&& forall|i: int| 0 <= i < c.spec_rows() ==> !#[trigger] c.written()[i]
            &&& c.spec_received() == 0
        },
{
    let (rows, columns) = check_dimensions(a, b)?;
    // `a` holds all its cells, so the buffer's cell count fits in `usize`.
    let _cells = a.cell_count();
    match Collector::new(rows, columns, a.nodata()) {
        Some(c) => Ok(c),
        None => Err(EngineError::DimensionMismatch),
    }
}

} // verus!
