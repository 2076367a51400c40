use vstd::prelude::*;

verus! {

/// Why a set of values could not be laid out as the requested shape.
#[derive(Debug, PartialEq, Eq)]
pub enum ShapeError {
    /// `len` values cannot be split into rows of `ncols` columns
    /// (`ncols` is zero or does not divide `len`).
    NotRectangular { len: usize, ncols: usize },
    /// A matrix has `found` rows where `expected` were declared.
    RowCount { expected: usize, found: usize },
    /// Two matrices that must share their columns do not.
    ColumnCount { expected: usize, found: usize },
    /// The observed values do not match the number of observed rows.
    ValueCount { expected: usize, found: usize },
}

/// A configuration that cannot describe a valid dimension.
#[derive(Debug, PartialEq, Eq)]
pub enum ConfigError {
    /// The kind, kernel and coordinate type of a dimension do not go together.
    InvalidCombination,
    /// A hierarchical kernel needs at least one level.
    MaxLevelOutOfRange { maxlvl: i32 },
    /// A kernel radius lies outside the domain that its kernel accepts.
    RadiusOutOfRange,
}

/// A requested column that the input cannot provide.
#[derive(Debug, PartialEq, Eq)]
pub enum ColumnError {
    /// No column of that name exists.
    ColumnMissing(String),
    /// The column exists but holds another element type.
    TypeMismatch(String),
}

} // verus!
