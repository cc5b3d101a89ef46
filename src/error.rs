use vstd::prelude::*;

verus! {

/// What can stop a run of the engine.
#[derive(Clone, Copy, Debug, PartialEq, Eq, Structural)]
pub enum EngineError {
    /// The two input grids differ in rows or in columns.
    DimensionMismatch,
    /// A row index at or beyond the grid's row count was reported.
    RowOutOfRange,
    /// A row was reported a second time.
    DuplicateRow,
    /// A row arrived with a number of values other than the column count.
    RowLengthMismatch,
    /// Fewer rows than the grid holds were ever reported.
    WorkerStall,
}

impl EngineError {
    /// A short description of the error.
    pub fn message(&self) -> &'static str {
        match self {
            EngineError::DimensionMismatch => "the input grids must have the same number of rows and columns",
            EngineError::RowOutOfRange => "a row index beyond the grid was reported",
            EngineError::DuplicateRow => "a row was reported twice",
            EngineError::RowLengthMismatch => "a row has the wrong number of values",
            EngineError::WorkerStall => "not every row was computed",
        }
    }
}

} // verus!
