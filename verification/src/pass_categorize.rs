//! Record types of the aggregated categorization pass: what goes to the
//! judge, and what comes back with its category.

use crate::tool_error_analysis::{EvaluationError, ToolErrorCategory};
use vstd::prelude::*;

verus! {

/// One error awaiting categorization, tagged with the run artifact it came
/// from.
#[derive(Debug)]
pub struct CategorizeAggregatedInputEntry {
    pub id: String,
    pub error: EvaluationError,
    pub file_name: String,
}

/// One categorized error, tagged with the run artifact it came from.
#[derive(Debug)]
pub struct CategorizeAggregatedOutputEntry {
    pub id: String,
    pub error_category: ToolErrorCategory,
    pub error: EvaluationError,
    pub file_name: String,
}

/// One categorized error, as a run's categorize pass persists it.
#[derive(Debug)]
pub struct CategorizeEntry {
    pub id: String,
    pub error_category: ToolErrorCategory,
    pub error: EvaluationError,
}

} // verus!
