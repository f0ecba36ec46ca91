//! A verified core for a function-calling evaluation harness.
//!
//! The library models benchmark documents (dataset entries, ground truth,
//! model tool-call output) as an owned JSON value tree, parses and validates
//! them strictly, compares model output against ground truth with a typed
//! error taxonomy, maps function names bidirectionally across the model
//! boundary, memoizes judge verdicts for value mismatches, and computes the
//! bookkeeping (run tags, pending work, sorted checkpoints) of a resumable
//! multi-pass pipeline.

pub mod assoc;
pub mod function_name_mapper;
pub mod gpt5_interface;
pub mod granite4_interface;
pub mod jsontext;
pub mod jsonval;
pub mod judge;
pub mod judge_file_models;
pub mod model_interface;
pub mod pass_categorize;
pub mod strutil;
pub mod tool_bfcl_formats;
pub mod tool_categorize;
pub mod tool_error_analysis;
pub mod tool_evaluate;
pub mod tool_run;
pub mod translate_values;
