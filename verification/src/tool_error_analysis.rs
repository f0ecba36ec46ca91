//! The typed error taxonomy of the evaluation harness: why a model answer
//! was unusable or wrong, and the closed set of categories a judge assigns
//! to value mismatches.

use crate::jsonval::{jv_of_seq, JsonValue, Jv};
use crate::strutil::string_eq_lit;
use vstd::prelude::*;

verus! {

/// The closed set of error categories that the judge step assigns.
#[derive(Clone, Copy, Debug, PartialEq, Eq, Structural)]
pub enum ToolErrorCategory {
    SyntaxError,
    MiscErrors,
    WrongValues,
    RelevantButIncorrect,
    ExactlySameMeaning,
    LanguageMismatchWrongValues,
    LanguageMismatchRelevantButIncorrect,
    LanguageMismatchExactlySameMeaning,
    OtherErrors,
}

/// The label under which a category is persisted.
pub open spec fn category_label(c: ToolErrorCategory) -> Seq<char> {
    match c {
        ToolErrorCategory::SyntaxError => "syntax_error"@,
        ToolErrorCategory::MiscErrors => "misc_errors"@,
        ToolErrorCategory::WrongValues => "wrong_values"@,
        ToolErrorCategory::RelevantButIncorrect => "relevant_but_incorrect"@,
        ToolErrorCategory::ExactlySameMeaning => "exactly_same_meaning"@,
        ToolErrorCategory::LanguageMismatchWrongValues => "language_mismatch_wrong_values"@,
        ToolErrorCategory::LanguageMismatchRelevantButIncorrect => "language_mismatch_relevant_but_incorrect"@,
        ToolErrorCategory::LanguageMismatchExactlySameMeaning => "language_mismatch_exactly_same_meaning"@,
        ToolErrorCategory::OtherErrors => "other_errors"@,
    }
}

impl ToolErrorCategory {
    /// The persisted label of this category.
    pub fn as_label(&self) -> (r: String)
        ensures
            r@ == category_label(*self),
    {
        match self {
            ToolErrorCategory::SyntaxError => String::from_str("syntax_error"),
            ToolErrorCategory::MiscErrors => String::from_str("misc_errors"),
            ToolErrorCategory::WrongValues => String::from_str("wrong_values"),
            ToolErrorCategory::RelevantButIncorrect => String::from_str("relevant_but_incorrect"),
            ToolErrorCategory::ExactlySameMeaning => String::from_str("exactly_same_meaning"),
            ToolErrorCategory::LanguageMismatchWrongValues => String::from_str(
                "language_mismatch_wrong_values",
            ),
            ToolErrorCategory::LanguageMismatchRelevantButIncorrect => String::from_str(
                "language_mismatch_relevant_but_incorrect",
            ),
            ToolErrorCategory::LanguageMismatchExactlySameMeaning => String::from_str(
                "language_mismatch_exactly_same_meaning",
            ),
            ToolErrorCategory::OtherErrors => String::from_str("other_errors"),
        }
    }

    /// The category persisted under the given label, if any.
    pub fn from_label(label: &String) -> (r: Option<ToolErrorCategory>)
        ensures
            match r {
                Some(c) => category_label(c) == label@,
                None => forall|c: ToolErrorCategory| category_label(c) != label@,
            },
    {
        if string_eq_lit(label, "syntax_error") {
            Some(ToolErrorCategory::SyntaxError)
        } else if string_eq_lit(label, "misc_errors") {
            Some(ToolErrorCategory::MiscErrors)
        } else if string_eq_lit(label, "wrong_values") {
            Some(ToolErrorCategory::WrongValues)
        } else if string_eq_lit(label, "relevant_but_incorrect") {
            Some(ToolErrorCategory::RelevantButIncorrect)
        } else if string_eq_lit(label, "exactly_same_meaning") {
            Some(ToolErrorCategory::ExactlySameMeaning)
        } else if string_eq_lit(label, "language_mismatch_wrong_values") {
            Some(ToolErrorCategory::LanguageMismatchWrongValues)
        } else if string_eq_lit(label, "language_mismatch_relevant_but_incorrect") {
            Some(ToolErrorCategory::LanguageMismatchRelevantButIncorrect)
        } else if string_eq_lit(label, "language_mismatch_exactly_same_meaning") {
            Some(ToolErrorCategory::LanguageMismatchExactlySameMeaning)
        } else if string_eq_lit(label, "other_errors") {
            Some(ToolErrorCategory::OtherErrors)
        } else {
            proof {
                assert forall|c: ToolErrorCategory| category_label(c) != label@ by {
                    match c {
                        ToolErrorCategory::SyntaxError => {},
                        ToolErrorCategory::MiscErrors => {},
                        ToolErrorCategory::WrongValues => {},
                        ToolErrorCategory::RelevantButIncorrect => {},
                        ToolErrorCategory::ExactlySameMeaning => {},
                        ToolErrorCategory::LanguageMismatchWrongValues => {},
                        ToolErrorCategory::LanguageMismatchRelevantButIncorrect => {},
                        ToolErrorCategory::LanguageMismatchExactlySameMeaning => {},
                        ToolErrorCategory::OtherErrors => {},
                    }
                }
            }
            None
        }
    }
}

/// Model of an [`EvaluationError`].
#[verifier::ext_equal]
pub enum EvalErrorV {
    NoFunctionCallsFound { raw_output: Seq<char> },
    JsonDecodeError { error_message: Seq<char>, raw_output: Seq<char> },
    ParsingError { message: Seq<char>, raw_output: Seq<char> },
    InvalidEntryCount { expected_count: int, actual_count: int, decoded_output: Seq<char> },
    WrongFuncName { expected_name: Seq<char>, actual_name: Seq<char>, decoded_output: Seq<char> },
    MissingRequiredParam {
        missing_param: Seq<char>,
        required_params: Seq<Seq<char>>,
        decoded_output: Seq<char>,
    },
    UnexpectedParam {
        unexpected_param: Seq<char>,
        expected_params: Seq<Seq<char>>,
        decoded_output: Seq<char>,
    },
    InvalidParamValue {
        param: Seq<char>,
        actual_value: Jv,
        expected_values: Seq<Jv>,
        decoded_output: Seq<char>,
    },
}

/// Why a model answer failed: unusable output (the first three variants) or
/// a semantic mismatch against ground truth.  Each variant carries what a
/// reader of the persisted record needs to see the failure.
#[derive(Debug)]
pub enum EvaluationError {
    NoFunctionCallsFound { raw_output: String },
    JsonDecodeError { error_message: String, raw_output: String },
    ParsingError { message: String, raw_output: String },
    InvalidEntryCount { expected_count: usize, actual_count: usize, decoded_output: String },
    WrongFuncName { expected_name: String, actual_name: String, decoded_output: String },
    MissingRequiredParam {
        missing_param: String,
        required_params: Vec<String>,
        decoded_output: String,
    },
    UnexpectedParam {
        unexpected_param: String,
        expected_params: Vec<String>,
        decoded_output: String,
    },
    InvalidParamValue {
        param: String,
        actual_value: JsonValue,
        expected_values: Vec<JsonValue>,
        decoded_output: String,
    },
}

impl View for EvaluationError {
    type V = EvalErrorV;

    open spec fn view(&self) -> EvalErrorV {
        match self {
            EvaluationError::NoFunctionCallsFound { raw_output } => {
                EvalErrorV::NoFunctionCallsFound { raw_output: raw_output@ }
            },
            EvaluationError::JsonDecodeError { error_message, raw_output } => {
                EvalErrorV::JsonDecodeError {
                    error_message: error_message@,
                    raw_output: raw_output@,
                }
            },
            EvaluationError::ParsingError { message, raw_output } => {
                EvalErrorV::ParsingError { message: message@, raw_output: raw_output@ }
            },
            EvaluationError::InvalidEntryCount {
                expected_count,
                actual_count,
                decoded_output,
            } => {
                EvalErrorV::InvalidEntryCount {
                    expected_count: *expected_count as int,
                    actual_count: *actual_count as int,
                    decoded_output: decoded_output@,
                }
            },
            EvaluationError::WrongFuncName { expected_name, actual_name, decoded_output } => {
                EvalErrorV::WrongFuncName {
                    expected_name: expected_name@,
                    actual_name: actual_name@,
                    decoded_output: decoded_output@,
                }
            },
            EvaluationError::MissingRequiredParam {
                missing_param,
                required_params,
                decoded_output,
            } => {
                EvalErrorV::MissingRequiredParam {
                    missing_param: missing_param@,
                    required_params: required_params.deep_view(),
                    decoded_output: decoded_output@,
                }
            },
            EvaluationError::UnexpectedParam {
                unexpected_param,
                expected_params,
                decoded_output,
            } => {
                EvalErrorV::UnexpectedParam {
                    unexpected_param: unexpected_param@,
                    expected_params: expected_params.deep_view(),
                    decoded_output: decoded_output@,
                }
            },
            EvaluationError::InvalidParamValue {
                param,
                actual_value,
                expected_values,
                decoded_output,
            } => {
                EvalErrorV::InvalidParamValue {
                    param: param@,
                    actual_value: actual_value@,
                    expected_values: jv_of_seq(expected_values@),
                    decoded_output: decoded_output@,
                }
            },
        }
    }
}

impl DeepView for EvaluationError {
    type V = EvalErrorV;

    open spec fn deep_view(&self) -> EvalErrorV {
        self.view()
    }
}

/// The label under which an error kind is persisted.
pub open spec fn error_kind_label(e: EvalErrorV) -> Seq<char> {
    match e {
        EvalErrorV::NoFunctionCallsFound { .. } => "no_function_calls_found"@,
        EvalErrorV::JsonDecodeError { .. } => "json_decode_error"@,
        EvalErrorV::ParsingError { .. } => "parsing_error"@,
        EvalErrorV::InvalidEntryCount { .. } => "invalid_entry_count"@,
        EvalErrorV::WrongFuncName { .. } => "wrong_func_name"@,
        EvalErrorV::MissingRequiredParam { .. } => "missing_required_param"@,
        EvalErrorV::UnexpectedParam { .. } => "unexpected_param"@,
        EvalErrorV::InvalidParamValue { .. } => "invalid_param_value"@,
    }
}

impl EvaluationError {
    /// The persisted label of this error's kind.
    pub fn kind_label(&self) -> (r: String)
        ensures
            r@ == error_kind_label(self@),
    {
        match self {
            EvaluationError::NoFunctionCallsFound { .. } => String::from_str(
                "no_function_calls_found",
            ),
            EvaluationError::JsonDecodeError { .. } => String::from_str("json_decode_error"),
            EvaluationError::ParsingError { .. } => String::from_str("parsing_error"),
            EvaluationError::InvalidEntryCount { .. } => String::from_str("invalid_entry_count"),
            EvaluationError::WrongFuncName { .. } => String::from_str("wrong_func_name"),
            EvaluationError::MissingRequiredParam { .. } => String::from_str(
                "missing_required_param",
            ),
            EvaluationError::UnexpectedParam { .. } => String::from_str("unexpected_param"),
            EvaluationError::InvalidParamValue { .. } => String::from_str("invalid_param_value"),
        }
    }
}

} // verus!
