//! The failures that the library reports.

use vstd::prelude::*;

verus! {

/// Why a report or a merge could not be produced. Each failure ends the
/// operation it occurred in; nothing is recovered from locally.
#[derive(Debug, Clone, PartialEq, Eq)]
pub enum Error {
    /// No candidate delimiter is used the same number of times on every line.
    DelimiterNotFound,
    /// The export has no section of this name.
    SectionNotFound { section: String },
    /// The data row at this position (the first after the header is 0) has
    /// another number of fields than the header.
    MalformedRow { row: usize },
    /// No row of the question column equals this category.
    CategoryNotInCsv { category: String },
    /// The table has no column of questions.
    MissingQuestionColumn,
    /// The table has no column of means.
    MissingMeanColumn,
    /// The table has no column of standard deviations.
    MissingStdColumn,
    /// The mean of this category is not a number.
    UnparseableMean { category: String, value: String },
    /// This threshold of this category is not a number.
    UnparseableThreshold { category: String, threshold: String },
    /// The threshold selected for this category has no response text.
    EmptyResponsePool { category: String, threshold: String },
    /// Every threshold of this category exceeds its mean.
    NoThresholdBelowMean { category: String, mean: String },
    /// Fewer files than a merge needs were given.
    InsufficientFiles { found: usize },
    /// The template does not mark where the generated text goes.
    TemplateMarkerMissing,
    /// The response document does not have the expected shape.
    JsonShapeMismatch,
}

} // verus!
