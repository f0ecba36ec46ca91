//! Record types of the judge-side datasets.

use vstd::prelude::*;

verus! {

/// One normalized single-answer judge case: a question, one candidate
/// answer, and whether that answer is the correct one.
#[derive(Debug)]
pub struct SingleAnswerDatasetEntry {
    pub index: usize,
    pub question: String,
    pub answer: String,
    pub is_correct: bool,
    pub subject: String,
}

} // verus!
