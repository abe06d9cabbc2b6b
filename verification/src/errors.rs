//! Usage errors: fatal misconfigurations detected before any fetch starts.

use vstd::prelude::*;

verus! {

/// A fatal configuration error. Every variant aborts the run before any
/// tile is fetched; per-tile network and write failures are not errors of
/// this kind but entries in the fetch report.
#[derive(Clone, Copy, Debug, PartialEq, Eq, Structural)]
pub enum UsageError {
    /// Coordinate text was not exactly one comma-separated pair.
    CoordinateFormat,
    /// The grid split factor was zero.
    SplitZero,
    /// The grid split factor was positive but not a perfect square.
    SplitNotSquare,
    /// Neither a corner pair nor a center with a size was supplied.
    MissingBoundingBox,
    /// Both a corner pair and a center with a size were supplied.
    ConflictingBoundingBox,
}

impl UsageError {
    /// A human-readable description of the error.
    pub fn message(&self) -> (m: &'static str)
        ensures
            self is CoordinateFormat ==> m@ == "Coordinates must be in format 'latitude,longitude'"@,
            self is SplitZero ==> m@ == "Split parameter must be greater than 0"@,
            self is SplitNotSquare ==> m@
                == "Split parameter must be a perfect square (1, 4, 9, 16, 25, etc.)"@,
            self is MissingBoundingBox ==> m@
                == "Must specify either both corners or a center and a size"@,
            self is ConflictingBoundingBox ==> m@
                == "Corner coordinates and center/size are mutually exclusive"@,
    {
        match self {
            UsageError::CoordinateFormat => "Coordinates must be in format 'latitude,longitude'",
            UsageError::SplitZero => "Split parameter must be greater than 0",
            UsageError::SplitNotSquare => "Split parameter must be a perfect square (1, 4, 9, 16, 25, etc.)",
            UsageError::MissingBoundingBox => "Must specify either both corners or a center and a size",
            UsageError::ConflictingBoundingBox => "Corner coordinates and center/size are mutually exclusive",
        }
    }
}

} // verus!
