//! The evaluation engine: compares one model answer against its ground
//! truth, in a fixed order of checks, and reports the first violation as a
//! typed error.  [`spec_evaluate`] is the whole algorithm as a function on
//! models; [`evaluate_entry`] computes it.

use crate::jsonval::{jv_eq, jv_of, jv_of_fields, jv_of_seq, lemma_jv_of_seq_index, JsonValue, Jv};
use crate::jsontext::{json_text, list_to_json_text};
use crate::jsonval::{jv_clone, jv_clone_vec};
use crate::strutil::string_eq;
use crate::tool_bfcl_formats::{
    clone_string_vec, fndefs_view, out_call_of_jv, BfclDatasetEntry, BfclFunctionDef,
    BfclFunctionDefV, BfclGroundTruthEntry, BfclOutputFunctionCall,
};
use crate::tool_error_analysis::{EvalErrorV, EvaluationError};
use vstd::prelude::*;

verus! {

/// A value matches an expected form when it equals it, or — the expected
/// form being an array, which encodes a group of interchangeable acceptable
/// forms — when it matches some element of it, recursively.
pub open spec fn spec_value_matches_any(v: Jv, expected: Jv) -> bool
    decreases expected,
{
    v == expected || match expected {
        Jv::Arr(items) => spec_matches_in_seq(v, items),
        _ => false,
    }
}

/// The value matches some element of the sequence.
pub open spec fn spec_matches_in_seq(v: Jv, items: Seq<Jv>) -> bool
    decreases items,
{
    items.len() > 0 && (spec_value_matches_any(v, items[0]) || spec_matches_in_seq(
        v,
        items.drop_first(),
    ))
}

/// Matching some element of a sequence is exactly a witnessed match.
pub proof fn lemma_matches_in_seq_iff(v: Jv, items: Seq<Jv>)
    ensures
        spec_matches_in_seq(v, items) <==> exists|i: int|
            0 <= i < items.len() && spec_value_matches_any(v, #[trigger] items[i]),
    decreases items.len(),
{
    if items.len() > 0 {
        lemma_matches_in_seq_iff(v, items.drop_first());
        if spec_matches_in_seq(v, items) {
            if spec_value_matches_any(v, items[0]) {
                assert(spec_value_matches_any(v, items[0]));
            } else {
                let i = choose|i: int|
                    0 <= i < items.drop_first().len() && spec_value_matches_any(
                        v,
                        #[trigger] items.drop_first()[i],
                    );
                assert(items[i + 1] == items.drop_first()[i]);
                assert(spec_value_matches_any(v, items[i + 1]));
            }
        }
        if exists|i: int| 0 <= i < items.len() && spec_value_matches_any(v, #[trigger] items[i]) {
            let i = choose|i: int|
                0 <= i < items.len() && spec_value_matches_any(v, #[trigger] items[i]);
            if i > 0 {
                assert(items.drop_first()[i - 1] == items[i]);
                assert(spec_matches_in_seq(v, items.drop_first()));
            }
        }
    }
}

/// A match against some element of a group is a match against the group.
pub proof fn lemma_matches_any_witness(v: Jv, items: Seq<Jv>, i: int)
    requires
        0 <= i < items.len(),
        spec_value_matches_any(v, items[i]),
    ensures
        spec_value_matches_any(v, Jv::Arr(items)),
{
    lemma_matches_in_seq_iff(v, items);
}

/// A value matches a list of acceptable alternatives when it matches one of
/// them.
pub open spec fn spec_value_matches_list(v: Jv, expected: Seq<Jv>) -> bool {
    exists|i: int| 0 <= i < expected.len() && spec_value_matches_any(v, #[trigger] expected[i])
}

/// True when the argument map carries the parameter name.
pub open spec fn has_param_key(params: Seq<(Seq<char>, Jv)>, key: Seq<char>) -> bool {
    exists|i: int| 0 <= i < params.len() && (#[trigger] params[i]).0 == key
}

/// The acceptable alternatives a ground truth holds for a parameter: the
/// value of its first member with that key.
pub open spec fn gt_lookup(gtp: Seq<(Seq<char>, Seq<Jv>)>, key: Seq<char>) -> Option<Seq<Jv>>
    decreases gtp.len(),
{
    if gtp.len() == 0 {
        None
    } else if gtp[0].0 == key {
        Some(gtp[0].1)
    } else {
        gt_lookup(gtp.drop_first(), key)
    }
}

/// The parameter names of a ground-truth parameter map, in order.
pub open spec fn gt_keys(gtp: Seq<(Seq<char>, Seq<Jv>)>) -> Seq<Seq<char>> {
    Seq::new(gtp.len(), |i: int| gtp[i].0)
}

/// The first required parameter name missing from the arguments, in the
/// order of the required list.
pub open spec fn first_missing_required(
    required: Seq<Seq<char>>,
    params: Seq<(Seq<char>, Jv)>,
) -> Option<Seq<char>>
    decreases required.len(),
{
    if required.len() == 0 {
        None
    } else if !has_param_key(params, required[0]) {
        Some(required[0])
    } else {
        first_missing_required(required.drop_first(), params)
    }
}

/// The first argument, in the model's order, that the ground truth does
/// not expect.  Every argument's presence is checked before any value is.
pub open spec fn first_unexpected_param(
    params: Seq<(Seq<char>, Jv)>,
    gtp: Seq<(Seq<char>, Seq<Jv>)>,
) -> Option<Seq<char>>
    decreases params.len(),
{
    if params.len() == 0 {
        None
    } else if gt_lookup(gtp, params[0].0) is None {
        Some(params[0].0)
    } else {
        first_unexpected_param(params.drop_first(), gtp)
    }
}

/// The first argument, in the model's order, whose value matches none of
/// its acceptable alternatives: the argument's name, its value, and the
/// alternatives it failed against.  Runs once every argument is known to
/// the ground truth; one it does not know is passed over.
pub open spec fn first_value_mismatch(
    params: Seq<(Seq<char>, Jv)>,
    gtp: Seq<(Seq<char>, Seq<Jv>)>,
) -> Option<(Seq<char>, Jv, Seq<Jv>)>
    decreases params.len(),
{
    if params.len() == 0 {
        None
    } else {
        match gt_lookup(gtp, params[0].0) {
            Some(alts) => if !spec_value_matches_list(params[0].1, alts) {
                Some((params[0].0, params[0].1, alts))
            } else {
                first_value_mismatch(params.drop_first(), gtp)
            },
            None => first_value_mismatch(params.drop_first(), gtp),
        }
    }
}

/// The first function definition with the given name.
pub open spec fn find_fndef(defs: Seq<BfclFunctionDefV>, name: Seq<char>) -> Option<
    BfclFunctionDefV,
>
    decreases defs.len(),
{
    if defs.len() == 0 {
        None
    } else if defs[0].name == name {
        Some(defs[0])
    } else {
        find_fndef(defs.drop_first(), name)
    }
}

/// Model of an [`InferenceJsonEntry`].
#[verifier::ext_equal]
pub struct InferenceJsonEntryV {
    pub id: Seq<char>,
    pub result: Result<Seq<Jv>, EvalErrorV>,
}

/// The structured outcome of parsing one model answer: the decoded calls,
/// or the parse failure.
#[derive(Debug)]
pub struct InferenceJsonEntry {
    pub id: String,
    pub result: Result<Vec<JsonValue>, EvaluationError>,
}

impl View for InferenceJsonEntry {
    type V = InferenceJsonEntryV;

    open spec fn view(&self) -> InferenceJsonEntryV {
        InferenceJsonEntryV {
            id: self.id@,
            result: match self.result {
                Ok(fs) => Ok(jv_of_seq(fs@)),
                Err(e) => Err(e@),
            },
        }
    }
}

/// Model of an [`EvaluationResultEntry`].
#[verifier::ext_equal]
pub struct EvaluationResultEntryV {
    pub id: Seq<char>,
    pub valid: bool,
    pub error: Option<EvalErrorV>,
}

/// The persisted verdict for one case: valid, or the first violation found.
#[derive(Debug)]
pub struct EvaluationResultEntry {
    pub id: String,
    pub valid: bool,
    pub error: Option<EvaluationError>,
}

impl View for EvaluationResultEntry {
    type V = EvaluationResultEntryV;

    open spec fn view(&self) -> EvaluationResultEntryV {
        EvaluationResultEntryV {
            id: self.id@,
            valid: self.valid,
            error: match self.error {
                Some(e) => Some(e@),
                None => None,
            },
        }
    }
}

/// The whole evaluation, on models, in the fixed order of checks:
/// propagate a parse failure; require exactly one call; compare the
/// function name; report the first missing required parameter; then check
/// every argument's presence — the first one the ground truth does not
/// expect — before any value, and only then report the first mismatched
/// value.  The boolean says whether the answer is valid; the first
/// violation found is the only one reported.
pub open spec fn spec_evaluate(
    result: Result<Seq<Jv>, EvalErrorV>,
    functions: Seq<BfclFunctionDefV>,
    gt_name: Seq<char>,
    gt_params: Seq<(Seq<char>, Seq<Jv>)>,
) -> (bool, Option<EvalErrorV>) {
    match result {
        Err(e) => (false, Some(e)),
        Ok(calls) => {
            let decoded = json_text(Jv::Arr(calls));
            if calls.len() != 1 {
                (
                    false,
                    Some(
                        EvalErrorV::InvalidEntryCount {
                            expected_count: 1,
                            actual_count: calls.len() as int,
                            decoded_output: decoded,
                        },
                    ),
                )
            } else {
                let call = out_call_of_jv(calls[0])->0;
                if call.function_name != gt_name {
                    (
                        false,
                        Some(
                            EvalErrorV::WrongFuncName {
                                expected_name: gt_name,
                                actual_name: call.function_name,
                                decoded_output: decoded,
                            },
                        ),
                    )
                } else {
                    let def = find_fndef(functions, call.function_name)->0;
                    match first_missing_required(def.required, call.parameters) {
                        Some(miss) => (
                            false,
                            Some(
                                EvalErrorV::MissingRequiredParam {
                                    missing_param: miss,
                                    required_params: def.required,
                                    decoded_output: decoded,
                                },
                            ),
                        ),
                        None => match first_unexpected_param(call.parameters, gt_params) {
                            Some(p) => (
                                false,
                                Some(
                                    EvalErrorV::UnexpectedParam {
                                        unexpected_param: p,
                                        expected_params: gt_keys(gt_params),
                                        decoded_output: decoded,
                                    },
                                ),
                            ),
                            None => match first_value_mismatch(call.parameters, gt_params) {
                                Some(m) => (
                                    false,
                                    Some(
                                        EvalErrorV::InvalidParamValue {
                                            param: m.0,
                                            actual_value: m.1,
                                            expected_values: m.2,
                                            decoded_output: decoded,
                                        },
                                    ),
                                ),
                                None => (true, None),
                            },
                        },
                    }
                }
            }
        },
    }
}

/// A value matches an expected form: literal equality, or membership in a
/// nested group of interchangeable forms.
pub fn value_matches_any(value: &JsonValue, expected: &JsonValue) -> (r: bool)
    ensures
        r == spec_value_matches_any(value@, expected@),
    decreases *expected,
{
    if jv_eq(value, expected) {
        return true;
    }
    match expected {
        JsonValue::Arr(items) => {
            let ghost m = jv_of_seq(items@);
            proof {
                lemma_jv_of_seq_index(items@);
            }
            let mut i: usize = 0;
            while i < items.len()
                invariant
                    i <= items@.len(),
                    m == jv_of_seq(items@),
                    m.len() == items@.len(),
                    *expected == JsonValue::Arr(*items),
                    expected@ == Jv::Arr(m),
                    forall|k: int| 0 <= k < m.len() ==> m[k] == jv_of(items@[k]),
                    forall|k: int| 0 <= k < i ==> !spec_value_matches_any(value@, #[trigger] m[k]),
                decreases items@.len() - i,
            {
                proof {
                    broadcast use vstd::std_specs::vec::group_vec_axioms;

                    assert(decreases_to!(*items => items@[i as int]));
                }
                if value_matches_any(value, &items[i]) {
                    proof {
                        lemma_matches_any_witness(value@, m, i as int);
                    }
                    return true;
                }
                i += 1;
            }
            proof {
                lemma_matches_in_seq_iff(value@, m);
            }
            false
        },
        _ => false,
    }
}

/// A value matches a list of acceptable alternatives.
pub fn value_matches_list(value: &JsonValue, expected_list: &Vec<JsonValue>) -> (r: bool)
    ensures
        r == spec_value_matches_list(value@, jv_of_seq(expected_list@)),
{
    let ghost m = jv_of_seq(expected_list@);
    proof {
        lemma_jv_of_seq_index(expected_list@);
    }
    let mut i: usize = 0;
    while i < expected_list.len()
        invariant
            i <= expected_list@.len(),
            m == jv_of_seq(expected_list@),
            m.len() == expected_list@.len(),
            forall|k: int| 0 <= k < m.len() ==> m[k] == jv_of(expected_list@[k]),
            forall|k: int| 0 <= k < i ==> !spec_value_matches_any(value@, #[trigger] m[k]),
        decreases expected_list@.len() - i,
    {
        if value_matches_any(value, &expected_list[i]) {
            assert(spec_value_matches_any(value@, m[i as int]));
            return true;
        }
        i += 1;
    }
    false
}

/// True when the argument map carries the parameter name.
fn params_has_key(params: &Vec<(String, JsonValue)>, key: &String) -> (r: bool)
    ensures
        r == has_param_key(jv_of_fields(params@), key@),
{
    let ghost m = jv_of_fields(params@);
    proof {
        crate::jsonval::lemma_jv_of_fields_index(params@);
    }
    let mut i: usize = 0;
    while i < params.len()
        invariant
            i <= params@.len(),
            m == jv_of_fields(params@),
            m.len() == params@.len(),
            forall|k: int| 0 <= k < m.len() ==> m[k] == (params@[k].0@, jv_of(params@[k].1)),
            forall|k: int| 0 <= k < i ==> (#[trigger] m[k]).0 != key@,
        decreases params@.len() - i,
    {
        if string_eq(&params[i].0, key) {
            assert(m[i as int].0 == key@);
            return true;
        }
        i += 1;
    }
    false
}

/// The alternatives the ground truth holds for a parameter, if any.
fn gt_params_get<'a>(gtp: &'a Vec<(String, Vec<JsonValue>)>, key: &String) -> (r: Option<
    &'a Vec<JsonValue>,
>)
    ensures
        match r {
            Some(vs) => gt_lookup(crate::tool_bfcl_formats::gt_params_view(gtp@), key@) == Some(
                jv_of_seq(vs@),
            ),
            None => gt_lookup(crate::tool_bfcl_formats::gt_params_view(gtp@), key@) is None,
        },
{
    let ghost m = crate::tool_bfcl_formats::gt_params_view(gtp@);
    proof {
        assert(m.skip(0) =~= m);
    }
    let mut i: usize = 0;
    while i < gtp.len()
        invariant
            i <= gtp@.len(),
            m == crate::tool_bfcl_formats::gt_params_view(gtp@),
            m.len() == gtp@.len(),
            forall|k: int| 0 <= k < m.len() ==> m[k] == (gtp@[k].0@, jv_of_seq(gtp@[k].1@)),
            gt_lookup(m, key@) == gt_lookup(m.skip(i as int), key@),
        decreases gtp@.len() - i,
    {
        if string_eq(&gtp[i].0, key) {
            proof {
                assert(m.skip(i as int)[0] == m[i as int]);
            }
            return Some(&gtp[i].1);
        }
        proof {
            assert(m.skip(i as int)[0] == m[i as int]);
            assert(m.skip(i as int).drop_first() =~= m.skip(i + 1 as int));
        }
        i += 1;
    }
    proof {
        assert(m.skip(gtp@.len() as int).len() == 0);
    }
    None
}

/// The first function definition with the given name, if any.
fn find_function<'a>(defs: &'a Vec<BfclFunctionDef>, name: &String) -> (r: Option<
    &'a BfclFunctionDef,
>)
    ensures
        match r {
            Some(d) => find_fndef(fndefs_view(defs@), name@) == Some(d@),
            None => find_fndef(fndefs_view(defs@), name@) is None,
        },
{
    let ghost m = fndefs_view(defs@);
    proof {
        assert(m.skip(0) =~= m);
    }
    let mut i: usize = 0;
    while i < defs.len()
        invariant
            i <= defs@.len(),
            m == fndefs_view(defs@),
            m.len() == defs@.len(),
            forall|k: int| 0 <= k < m.len() ==> m[k] == defs@[k]@,
            find_fndef(m, name@) == find_fndef(m.skip(i as int), name@),
        decreases defs@.len() - i,
    {
        if string_eq(&defs[i].name, name) {
            proof {
                assert(m.skip(i as int)[0] == m[i as int]);
            }
            return Some(&defs[i]);
        }
        proof {
            assert(m.skip(i as int)[0] == m[i as int]);
            assert(m.skip(i as int).drop_first() =~= m.skip(i + 1 as int));
        }
        i += 1;
    }
    proof {
        assert(m.skip(defs@.len() as int).len() == 0);
    }
    None
}

/// A deep copy of an error, with the same model.
pub fn clone_eval_error(e: &EvaluationError) -> (r: EvaluationError)
    ensures
        r@ == e@,
{
    match e {
        EvaluationError::NoFunctionCallsFound { raw_output } => {
            EvaluationError::NoFunctionCallsFound { raw_output: raw_output.clone() }
        },
        EvaluationError::JsonDecodeError { error_message, raw_output } => {
            EvaluationError::JsonDecodeError {
                error_message: error_message.clone(),
                raw_output: raw_output.clone(),
            }
        },
        EvaluationError::ParsingError { message, raw_output } => {
            EvaluationError::ParsingError {
                message: message.clone(),
                raw_output: raw_output.clone(),
            }
        },
        EvaluationError::InvalidEntryCount { expected_count, actual_count, decoded_output } => {
            EvaluationError::InvalidEntryCount {
                expected_count: *expected_count,
                actual_count: *actual_count,
                decoded_output: decoded_output.clone(),
            }
        },
        EvaluationError::WrongFuncName { expected_name, actual_name, decoded_output } => {
            EvaluationError::WrongFuncName {
                expected_name: expected_name.clone(),
                actual_name: actual_name.clone(),
                decoded_output: decoded_output.clone(),
            }
        },
        EvaluationError::MissingRequiredParam {
            missing_param,
            required_params,
            decoded_output,
        } => {
            EvaluationError::MissingRequiredParam {
                missing_param: missing_param.clone(),
                required_params: clone_string_vec(required_params),
                decoded_output: decoded_output.clone(),
            }
        },
        EvaluationError::UnexpectedParam { unexpected_param, expected_params, decoded_output } => {
            EvaluationError::UnexpectedParam {
                unexpected_param: unexpected_param.clone(),
                expected_params: clone_string_vec(expected_params),
                decoded_output: decoded_output.clone(),
            }
        },
        EvaluationError::InvalidParamValue {
            param,
            actual_value,
            expected_values,
            decoded_output,
        } => {
            EvaluationError::InvalidParamValue {
                param: param.clone(),
                actual_value: jv_clone(actual_value),
                expected_values: jv_clone_vec(expected_values),
                decoded_output: decoded_output.clone(),
            }
        },
    }
}

/// The position of the first required name missing from the arguments.
fn find_missing_required(required: &Vec<String>, params: &Vec<(String, JsonValue)>) -> (r: Option<
    usize,
>)
    ensures
        match r {
            Some(i) => i < required@.len() && first_missing_required(
                required.deep_view(),
                jv_of_fields(params@),
            ) == Some(required.deep_view()[i as int]),
            None => first_missing_required(required.deep_view(), jv_of_fields(params@)) is None,
        },
{
    let ghost reqm = required.deep_view();
    let ghost paramsm = jv_of_fields(params@);
    proof {
        assert(reqm.skip(0) =~= reqm);
    }
    let mut i: usize = 0;
    while i < required.len()
        invariant
            i <= required@.len(),
            reqm == required.deep_view(),
            reqm.len() == required@.len(),
            paramsm == jv_of_fields(params@),
            first_missing_required(reqm, paramsm) == first_missing_required(
                reqm.skip(i as int),
                paramsm,
            ),
        decreases required@.len() - i,
    {
        if !params_has_key(params, &required[i]) {
            proof {
                assert(reqm.skip(i as int)[0] == reqm[i as int]);
            }
            return Some(i);
        }
        proof {
            assert(reqm.skip(i as int)[0] == reqm[i as int]);
            assert(reqm.skip(i as int).drop_first() =~= reqm.skip(i + 1 as int));
        }
        i += 1;
    }
    proof {
        assert(reqm.skip(reqm.len() as int).len() == 0);
    }
    None
}

/// The position of the first argument the ground truth does not expect.
fn find_unexpected_param(params: &Vec<(String, JsonValue)>, gtp: &Vec<(String, Vec<JsonValue>)>)
    -> (r: Option<usize>)
    ensures
        match r {
            Some(j) => j < params@.len() && first_unexpected_param(
                jv_of_fields(params@),
                crate::tool_bfcl_formats::gt_params_view(gtp@),
            ) == Some(jv_of_fields(params@)[j as int].0),
            None => first_unexpected_param(
                jv_of_fields(params@),
                crate::tool_bfcl_formats::gt_params_view(gtp@),
            ) is None,
        },
{
    let ghost pm = jv_of_fields(params@);
    let ghost gm = crate::tool_bfcl_formats::gt_params_view(gtp@);
    proof {
        crate::jsonval::lemma_jv_of_fields_index(params@);
        assert(pm.skip(0) =~= pm);
    }
    let mut j: usize = 0;
    while j < params.len()
        invariant
            j <= params@.len(),
            pm == jv_of_fields(params@),
            pm.len() == params@.len(),
            forall|k: int| 0 <= k < pm.len() ==> pm[k] == (
                params@[k].0@,
                jv_of(params@[k].1),
            ),
            gm == crate::tool_bfcl_formats::gt_params_view(gtp@),
            first_unexpected_param(pm, gm) == first_unexpected_param(pm.skip(j as int), gm),
        decreases params@.len() - j,
    {
        proof {
            assert(pm.skip(j as int)[0] == pm[j as int]);
            assert(pm.skip(j as int).drop_first() =~= pm.skip(j + 1 as int));
        }
        if matches!(gt_params_get(gtp, &params[j].0), None) {
            return Some(j);
        }
        j += 1;
    }
    proof {
        assert(pm.skip(pm.len() as int).len() == 0);
    }
    None
}

/// The position of the first argument whose value matches none of its
/// acceptable alternatives.
fn find_value_mismatch(params: &Vec<(String, JsonValue)>, gtp: &Vec<(String, Vec<JsonValue>)>)
    -> (r: Option<usize>)
    ensures
        match r {
            Some(j) => {
                let pm = jv_of_fields(params@);
                let gm = crate::tool_bfcl_formats::gt_params_view(gtp@);
                &&& j < params@.len()
                &&& gt_lookup(gm, pm[j as int].0) is Some
                &&& first_value_mismatch(pm, gm) == Some(
                    (pm[j as int].0, pm[j as int].1, gt_lookup(gm, pm[j as int].0)->0),
                )
            },
            None => first_value_mismatch(
                jv_of_fields(params@),
                crate::tool_bfcl_formats::gt_params_view(gtp@),
            ) is None,
        },
{
    let ghost pm = jv_of_fields(params@);
    let ghost gm = crate::tool_bfcl_formats::gt_params_view(gtp@);
    proof {
        crate::jsonval::lemma_jv_of_fields_index(params@);
        assert(pm.skip(0) =~= pm);
    }
    let mut j: usize = 0;
    while j < params.len()
        invariant
            j <= params@.len(),
            pm == jv_of_fields(params@),
            pm.len() == params@.len(),
            forall|k: int| 0 <= k < pm.len() ==> pm[k] == (
                params@[k].0@,
                jv_of(params@[k].1),
            ),
            gm == crate::tool_bfcl_formats::gt_params_view(gtp@),
            first_value_mismatch(pm, gm) == first_value_mismatch(pm.skip(j as int), gm),
        decreases params@.len() - j,
    {
        proof {
            assert(pm.skip(j as int)[0] == pm[j as int]);
            assert(pm.skip(j as int).drop_first() =~= pm.skip(j + 1 as int));
        }
        match gt_params_get(gtp, &params[j].0) {
            Some(alts) => {
                if !value_matches_list(&params[j].1, alts) {
                    return Some(j);
                }
            },
            None => {},
        }
        j += 1;
    }
    proof {
        assert(pm.skip(pm.len() as int).len() == 0);
    }
    None
}

/// Evaluates one model answer against its dataset entry and ground truth.
///
/// The evaluated benchmark subset guarantees one ground-truth call per
/// entry, that a successfully parsed single call has the one-member object
/// shape, and that the expected function is defined by the entry.
pub fn evaluate_entry(
    id: String,
    inference_entry: &InferenceJsonEntry,
    test_case_entry: &BfclDatasetEntry,
    ground_truth_entry: &BfclGroundTruthEntry,
) -> (r: EvaluationResultEntry)
    requires
        ground_truth_entry@.ground_truth.len() == 1,
        (inference_entry@.result matches Ok(calls) && calls.len() == 1) ==> out_call_of_jv(
            inference_entry@.result->Ok_0[0],
        ) is Some,
        find_fndef(
            test_case_entry@.functions,
            ground_truth_entry@.ground_truth[0].function_name,
        ) is Some,
    ensures
        r@.id == id@,
        (r@.valid, r@.error) == spec_evaluate(
            inference_entry@.result,
            test_case_entry@.functions,
            ground_truth_entry@.ground_truth[0].function_name,
            ground_truth_entry@.ground_truth[0].parameters,
        ),
{
    let ghost gt_name = ground_truth_entry@.ground_truth[0].function_name;
    let ghost gt_params = ground_truth_entry@.ground_truth[0].parameters;
    let functions = match &inference_entry.result {
        Ok(fs) => fs,
        Err(e) => {
            return EvaluationResultEntry { id, valid: false, error: Some(clone_eval_error(e)) };
        },
    };
    let decoded = list_to_json_text(functions);
    proof {
        lemma_jv_of_seq_index(functions@);
    }
    if functions.len() != 1 {
        return EvaluationResultEntry {
            id,
            valid: false,
            error: Some(
                EvaluationError::InvalidEntryCount {
                    expected_count: 1,
                    actual_count: functions.len(),
                    decoded_output: decoded,
                },
            ),
        };
    }
    let call: BfclOutputFunctionCall = match BfclOutputFunctionCall::deserialize_from_json(
        &functions[0],
    ) {
        Ok(c) => c,
        Err(_) => {
            proof {
                assert(false);
            }
            return EvaluationResultEntry { id: String::new(), valid: false, error: None };
        },
    };
    let gt_call = &ground_truth_entry.ground_truth[0];
    if !string_eq(&call.function_name, &gt_call.function_name) {
        return EvaluationResultEntry {
            id,
            valid: false,
            error: Some(
                EvaluationError::WrongFuncName {
                    expected_name: gt_call.function_name.clone(),
                    actual_name: call.function_name,
                    decoded_output: decoded,
                },
            ),
        };
    }
    let def = match find_function(&test_case_entry.functions, &call.function_name) {
        Some(d) => d,
        None => {
            proof {
                assert(false);
            }
            return EvaluationResultEntry { id: String::new(), valid: false, error: None };
        },
    };
    match find_missing_required(&def.required, &call.parameters) {
        Some(i) => {
            return EvaluationResultEntry {
                id,
                valid: false,
                error: Some(
                    EvaluationError::MissingRequiredParam {
                        missing_param: def.required[i].clone(),
                        required_params: clone_string_vec(&def.required),
                        decoded_output: decoded,
                    },
                ),
            };
        },
        None => {},
    }
    let ghost paramsm = jv_of_fields(call.parameters@);
    let ghost gtpm = crate::tool_bfcl_formats::gt_params_view(gt_call.parameters@);
    proof {
        crate::jsonval::lemma_jv_of_fields_index(call.parameters@);
    }
    // every argument's presence is checked before any value is
    match find_unexpected_param(&call.parameters, &gt_call.parameters) {
        Some(j) => {
            let mut expected_params: Vec<String> = Vec::new();
            let mut k: usize = 0;
            while k < gt_call.parameters.len()
                invariant
                    k <= gt_call.parameters@.len(),
                    gtpm == crate::tool_bfcl_formats::gt_params_view(gt_call.parameters@),
                    gtpm.len() == gt_call.parameters@.len(),
                    expected_params@.len() == k,
                    forall|t: int| 0 <= t < k ==> expected_params@[t]@ == gtpm[t].0,
                decreases gt_call.parameters@.len() - k,
            {
                expected_params.push(gt_call.parameters[k].0.clone());
                k += 1;
            }
            proof {
                assert(expected_params.deep_view() =~= gt_keys(gtpm));
            }
            return EvaluationResultEntry {
                id,
                valid: false,
                error: Some(
                    EvaluationError::UnexpectedParam {
                        unexpected_param: call.parameters[j].0.clone(),
                        expected_params,
                        decoded_output: decoded,
                    },
                ),
            };
        },
        None => {},
    }
    match find_value_mismatch(&call.parameters, &gt_call.parameters) {
        Some(j) => {
            match gt_params_get(&gt_call.parameters, &call.parameters[j].0) {
                Some(alts) => {
                    return EvaluationResultEntry {
                        id,
                        valid: false,
                        error: Some(
                            EvaluationError::InvalidParamValue {
                                param: call.parameters[j].0.clone(),
                                actual_value: jv_clone(&call.parameters[j].1),
                                expected_values: jv_clone_vec(alts),
                                decoded_output: decoded,
                            },
                        ),
                    };
                },
                None => {
                    proof {
                        assert(false);
                    }
                    return EvaluationResultEntry { id: String::new(), valid: false, error: None };
                },
            }
        },
        None => {},
    }
    EvaluationResultEntry { id, valid: true, error: None }
}

} // verus!
