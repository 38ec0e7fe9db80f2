//! The fatal conditions of one fitness evaluation.

use vstd::prelude::*;

verus! {

/// Why an evaluation cannot proceed. Each of these aborts the evaluation;
/// none is retried.
#[derive(Clone, Copy, Debug, PartialEq, Eq, Structural)]
pub enum EloError {
    /// The flat parameter list holds fewer than the six fixed scalars plus
    /// at least one division weight.
    BadConfigLength,
    /// The flat hyperparameter list does not hold exactly eight entries.
    BadHyperparameterLength,
    /// A year of the requested range has no matches in the data.
    MissingYear(u16),
    /// The data does not cover the training window plus at least one season
    /// to simulate after it.
    YearRangeNotCovered,
    /// An error average was requested over zero entries.
    EmptyDenominator,
    /// No random variation was requested, so there is no error to average.
    NoVariations,
    /// A match names a division outside the division weight vector.
    DivisionOutOfRange,
}

} // verus!
