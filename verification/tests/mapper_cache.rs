use bfcl_harness::function_name_mapper::{sanitize_name, FunctionNameMapper};
use bfcl_harness::jsonval::JsonValue;
use bfcl_harness::tool_categorize::{
    categorize_entry, category_from_judge_label, insert_category, CategorizeOutcome, CategoryCache,
};
use bfcl_harness::tool_error_analysis::{EvaluationError, ToolErrorCategory};

#[test]
fn sanitize_replaces_restricted_characters() {
    let out = sanitize_name(&String::from("triangle_properties.get"));
    assert_eq!(out, "triangle_properties_get");
}

#[test]
fn restore_after_sanitize_returns_the_original() {
    let mut mapper = FunctionNameMapper::new();
    let name = String::from("triangle_properties.get");
    let sanitized = mapper.sanitize(&name).expect("no collision");
    assert_eq!(sanitized, "triangle_properties_get");
    let restored = mapper.restore(&sanitized).expect("registered");
    assert_eq!(restored, name);
    // sanitizing again is stable and idempotent
    let again = mapper.sanitize(&name).expect("no collision");
    assert_eq!(again, sanitized);
    let twice = sanitize_name(&sanitized);
    assert_eq!(twice, sanitized);
}

#[test]
fn restore_unregistered_name_fails() {
    let mapper = FunctionNameMapper::new();
    let r = mapper.restore(&String::from("never_registered"));
    assert!(r.is_err());
    assert_eq!(r.unwrap_err().name, "never_registered");
}

#[test]
fn sanitize_collision_fails_loudly() {
    let mut mapper = FunctionNameMapper::new();
    mapper.sanitize(&String::from("a.b")).expect("first name");
    let r = mapper.sanitize(&String::from("a&b"));
    assert!(r.is_err());
    assert_eq!(r.unwrap_err().name, "a.b");
}

fn mismatch_error() -> EvaluationError {
    EvaluationError::InvalidParamValue {
        param: String::from("side1"),
        actual_value: JsonValue::Int(6),
        expected_values: vec![JsonValue::Int(5)],
        decoded_output: String::from("[]"),
    }
}

#[test]
fn categorize_dispatches_without_judge() {
    let mut cache = CategoryCache::new();
    let syntax = EvaluationError::JsonDecodeError {
        error_message: String::from("bad json"),
        raw_output: String::from("x"),
    };
    match categorize_entry(&syntax, &mut cache) {
        CategorizeOutcome::Done(c) => assert_eq!(c, ToolErrorCategory::SyntaxError),
        other => panic!("expected Done, got {:?}", other),
    }
    let misc = EvaluationError::WrongFuncName {
        expected_name: String::from("f"),
        actual_name: String::from("g"),
        decoded_output: String::from("[]"),
    };
    match categorize_entry(&misc, &mut cache) {
        CategorizeOutcome::Done(c) => assert_eq!(c, ToolErrorCategory::MiscErrors),
        other => panic!("expected Done, got {:?}", other),
    }
    assert_eq!(cache.hits, 0);
}

#[test]
fn category_cache_hits_once_per_lookup() {
    let mut cache = CategoryCache::new();
    // first call: a miss that hands back the judge arguments
    let (actual_json, expected_key) = match categorize_entry(&mismatch_error(), &mut cache) {
        CategorizeOutcome::NeedsJudge {
            param,
            actual_json,
            expected_json,
            expected_key,
        } => {
            assert_eq!(param, "side1");
            assert_eq!(actual_json, "6");
            assert_eq!(expected_json, "[5]");
            assert_eq!(expected_key, vec![String::from("5")]);
            (actual_json, expected_key)
        }
        other => panic!("expected NeedsJudge, got {:?}", other),
    };
    assert_eq!(cache.hits, 0);
    // the judge answers; the verdict is recorded
    let label = String::from("relevant_but_incorrect");
    let category = category_from_judge_label(&label);
    assert_eq!(category, ToolErrorCategory::RelevantButIncorrect);
    insert_category(&mut cache, actual_json, expected_key, category);
    assert_eq!(cache.hits, 0);
    // the second call with the same mismatch hits, once
    match categorize_entry(&mismatch_error(), &mut cache) {
        CategorizeOutcome::Done(c) => assert_eq!(c, ToolErrorCategory::RelevantButIncorrect),
        other => panic!("expected Done, got {:?}", other),
    }
    assert_eq!(cache.hits, 1);
    // and a third sequential call hits exactly once more
    match categorize_entry(&mismatch_error(), &mut cache) {
        CategorizeOutcome::Done(c) => assert_eq!(c, ToolErrorCategory::RelevantButIncorrect),
        other => panic!("expected Done, got {:?}", other),
    }
    assert_eq!(cache.hits, 2);
}

#[test]
fn unknown_judge_label_falls_back() {
    let c = category_from_judge_label(&String::from("some new label"));
    assert_eq!(c, ToolErrorCategory::OtherErrors);
}

#[test]
fn category_labels_round_trip() {
    let cases = vec![
        (ToolErrorCategory::SyntaxError, "syntax_error"),
        (ToolErrorCategory::MiscErrors, "misc_errors"),
        (ToolErrorCategory::WrongValues, "wrong_values"),
        (ToolErrorCategory::RelevantButIncorrect, "relevant_but_incorrect"),
        (ToolErrorCategory::ExactlySameMeaning, "exactly_same_meaning"),
        (
            ToolErrorCategory::LanguageMismatchWrongValues,
            "language_mismatch_wrong_values",
        ),
        (
            ToolErrorCategory::LanguageMismatchRelevantButIncorrect,
            "language_mismatch_relevant_but_incorrect",
        ),
        (
            ToolErrorCategory::LanguageMismatchExactlySameMeaning,
            "language_mismatch_exactly_same_meaning",
        ),
        (ToolErrorCategory::OtherErrors, "other_errors"),
    ];
    for (category, label) in cases {
        assert_eq!(category.as_label(), label);
        assert_eq!(
            ToolErrorCategory::from_label(&String::from(label)),
            Some(category)
        );
    }
    assert_eq!(ToolErrorCategory::from_label(&String::from("nonsense")), None);
}

#[test]
fn error_kind_labels() {
    let e = EvaluationError::ParsingError {
        message: String::from("m"),
        raw_output: String::from("r"),
    };
    assert_eq!(e.kind_label(), "parsing_error");
    assert_eq!(mismatch_error().kind_label(), "invalid_param_value");
}
