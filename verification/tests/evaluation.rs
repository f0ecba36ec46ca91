use bfcl_harness::jsonval::JsonValue;
use bfcl_harness::tool_bfcl_formats::{BfclDatasetEntry, BfclGroundTruthEntry};
use bfcl_harness::tool_error_analysis::EvaluationError;
use bfcl_harness::tool_evaluate::{evaluate_entry, value_matches_list, InferenceJsonEntry};

fn s(text: &str) -> JsonValue {
    JsonValue::Str(String::from(text))
}

fn obj(fields: Vec<(&str, JsonValue)>) -> JsonValue {
    JsonValue::Obj(fields.into_iter().map(|(k, v)| (String::from(k), v)).collect())
}

fn arr(items: Vec<JsonValue>) -> JsonValue {
    JsonValue::Arr(items)
}

fn dataset_entry() -> BfclDatasetEntry {
    let side = |desc: &str| obj(vec![("type", s("integer")), ("description", s(desc))]);
    let params = obj(vec![
        ("type", s("dict")),
        (
            "properties",
            obj(vec![
                ("side1", side("first")),
                ("side2", side("second")),
                ("side3", side("third")),
            ]),
        ),
        ("required", arr(vec![s("side1"), s("side2"), s("side3")])),
    ]);
    let function = obj(vec![
        ("name", s("triangle_properties.get")),
        ("description", s("Computes properties of a triangle")),
        ("parameters", params),
    ]);
    let doc = obj(vec![
        ("id", s("multiple_0")),
        (
            "question",
            arr(vec![arr(vec![obj(vec![("content", s("Find the area."))])])]),
        ),
        ("function", arr(vec![function])),
    ]);
    BfclDatasetEntry::deserialize_from_json(doc).expect("dataset should parse")
}

fn ground_truth() -> BfclGroundTruthEntry {
    let call = obj(vec![(
        "triangle_properties.get",
        obj(vec![
            ("side1", arr(vec![JsonValue::Int(5)])),
            ("side2", arr(vec![JsonValue::Int(4)])),
            ("side3", arr(vec![JsonValue::Int(3)])),
        ]),
    )]);
    let doc = obj(vec![
        ("id", s("multiple_0")),
        ("ground_truth", arr(vec![call])),
    ]);
    BfclGroundTruthEntry::deserialize_from_json(doc).expect("ground truth should parse")
}

fn model_output(name: &str, sides: (i64, i64, i64)) -> InferenceJsonEntry {
    let call = obj(vec![(
        name,
        obj(vec![
            ("side1", JsonValue::Int(sides.0)),
            ("side2", JsonValue::Int(sides.1)),
            ("side3", JsonValue::Int(sides.2)),
        ]),
    )]);
    InferenceJsonEntry {
        id: String::from("multiple_0"),
        result: Ok(vec![call]),
    }
}

#[test]
fn value_matches_literal() {
    // actual 5 against alternatives [5]
    assert!(value_matches_list(&JsonValue::Int(5), &vec![JsonValue::Int(5)]));
}

#[test]
fn value_matches_nested_synonym_group() {
    // actual "low" against alternatives [["low","minimal"]]
    let group = arr(vec![s("low"), s("minimal")]);
    assert!(value_matches_list(&s("low"), &vec![group]));
}

#[test]
fn value_does_not_match_different_literal() {
    // actual 6 against alternatives [5]
    assert!(!value_matches_list(&JsonValue::Int(6), &vec![JsonValue::Int(5)]));
}

#[test]
fn evaluate_valid_answer() {
    let record = evaluate_entry(
        String::from("multiple_0"),
        &model_output("triangle_properties.get", (5, 4, 3)),
        &dataset_entry(),
        &ground_truth(),
    );
    assert!(record.valid);
    assert!(record.error.is_none());
}

#[test]
fn evaluate_wrong_function_name() {
    let record = evaluate_entry(
        String::from("multiple_0"),
        &model_output("triangle.get", (5, 4, 3)),
        &dataset_entry(),
        &ground_truth(),
    );
    assert!(!record.valid);
    match record.error.expect("should carry an error") {
        EvaluationError::WrongFuncName {
            expected_name,
            actual_name,
            ..
        } => {
            assert_eq!(expected_name, "triangle_properties.get");
            assert_eq!(actual_name, "triangle.get");
        }
        other => panic!("expected WrongFuncName, got {:?}", other),
    }
}

#[test]
fn evaluate_invalid_param_value() {
    let record = evaluate_entry(
        String::from("multiple_0"),
        &model_output("triangle_properties.get", (6, 4, 3)),
        &dataset_entry(),
        &ground_truth(),
    );
    assert!(!record.valid);
    match record.error.expect("should carry an error") {
        EvaluationError::InvalidParamValue { param, .. } => {
            assert_eq!(param, "side1");
        }
        other => panic!("expected InvalidParamValue, got {:?}", other),
    }
}

#[test]
fn evaluate_invalid_entry_count() {
    let call = obj(vec![("triangle_properties.get", obj(vec![]))]);
    let two = InferenceJsonEntry {
        id: String::from("multiple_0"),
        result: Ok(vec![call.clone_for_test(), call]),
    };
    let record = evaluate_entry(String::from("multiple_0"), &two, &dataset_entry(), &ground_truth());
    assert!(!record.valid);
    match record.error.expect("should carry an error") {
        EvaluationError::InvalidEntryCount {
            expected_count,
            actual_count,
            ..
        } => {
            assert_eq!(expected_count, 1);
            assert_eq!(actual_count, 2);
        }
        other => panic!("expected InvalidEntryCount, got {:?}", other),
    }
}

trait CloneForTest {
    fn clone_for_test(&self) -> JsonValue;
}

impl CloneForTest for JsonValue {
    fn clone_for_test(&self) -> JsonValue {
        bfcl_harness::jsonval::jv_clone(self)
    }
}

#[test]
fn evaluate_missing_required_param() {
    let call = obj(vec![(
        "triangle_properties.get",
        obj(vec![
            ("side1", JsonValue::Int(5)),
            ("side2", JsonValue::Int(4)),
        ]),
    )]);
    let inference = InferenceJsonEntry {
        id: String::from("multiple_0"),
        result: Ok(vec![call]),
    };
    let record = evaluate_entry(
        String::from("multiple_0"),
        &inference,
        &dataset_entry(),
        &ground_truth(),
    );
    match record.error.expect("should carry an error") {
        EvaluationError::MissingRequiredParam {
            missing_param,
            required_params,
            ..
        } => {
            assert_eq!(missing_param, "side3");
            assert_eq!(required_params.len(), 3);
        }
        other => panic!("expected MissingRequiredParam, got {:?}", other),
    }
}

#[test]
fn evaluate_unexpected_param() {
    let call = obj(vec![(
        "triangle_properties.get",
        obj(vec![
            ("side1", JsonValue::Int(5)),
            ("side2", JsonValue::Int(4)),
            ("side3", JsonValue::Int(3)),
            ("color", s("red")),
        ]),
    )]);
    let inference = InferenceJsonEntry {
        id: String::from("multiple_0"),
        result: Ok(vec![call]),
    };
    let record = evaluate_entry(
        String::from("multiple_0"),
        &inference,
        &dataset_entry(),
        &ground_truth(),
    );
    match record.error.expect("should carry an error") {
        EvaluationError::UnexpectedParam {
            unexpected_param,
            expected_params,
            ..
        } => {
            assert_eq!(unexpected_param, "color");
            assert_eq!(
                expected_params,
                vec![
                    String::from("side1"),
                    String::from("side2"),
                    String::from("side3")
                ]
            );
        }
        other => panic!("expected UnexpectedParam, got {:?}", other),
    }
}

#[test]
fn evaluate_propagates_parse_failure() {
    let inference = InferenceJsonEntry {
        id: String::from("multiple_0"),
        result: Err(EvaluationError::NoFunctionCallsFound {
            raw_output: String::from("no calls here"),
        }),
    };
    let record = evaluate_entry(
        String::from("multiple_0"),
        &inference,
        &dataset_entry(),
        &ground_truth(),
    );
    assert!(!record.valid);
    match record.error.expect("should carry an error") {
        EvaluationError::NoFunctionCallsFound { raw_output } => {
            assert_eq!(raw_output, "no calls here");
        }
        other => panic!("expected NoFunctionCallsFound, got {:?}", other),
    }
}

#[test]
fn presence_checks_precede_value_checks() {
    // side1 carries a wrong value AND a later argument is unexpected: the
    // unexpected argument is reported, because every argument's presence
    // is checked before any value is.
    let call = obj(vec![(
        "triangle_properties.get",
        obj(vec![
            ("side1", JsonValue::Int(6)),
            ("side2", JsonValue::Int(4)),
            ("side3", JsonValue::Int(3)),
            ("color", s("red")),
        ]),
    )]);
    let inference = InferenceJsonEntry {
        id: String::from("multiple_0"),
        result: Ok(vec![call]),
    };
    let record = evaluate_entry(
        String::from("multiple_0"),
        &inference,
        &dataset_entry(),
        &ground_truth(),
    );
    match record.error.expect("should carry an error") {
        EvaluationError::UnexpectedParam { unexpected_param, .. } => {
            assert_eq!(unexpected_param, "color");
        }
        other => panic!("expected UnexpectedParam, got {:?}", other),
    }
}
