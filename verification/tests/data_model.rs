use bfcl_harness::jsonval::{jv_eq, obj_get, JsonValue};
use bfcl_harness::jsontext::to_json_text;
use bfcl_harness::tool_bfcl_formats::{
    parse_parameter, BfclDatasetEntry, BfclGroundTruthEntry, BfclGroundTruthFunctionCallParameters,
    BfclOutputFunctionCall,
};

fn s(text: &str) -> JsonValue {
    JsonValue::Str(String::from(text))
}

fn obj(fields: Vec<(&str, JsonValue)>) -> JsonValue {
    JsonValue::Obj(fields.into_iter().map(|(k, v)| (String::from(k), v)).collect())
}

fn arr(items: Vec<JsonValue>) -> JsonValue {
    JsonValue::Arr(items)
}

/// A small dataset document with one function.
fn triangle_dataset_doc() -> JsonValue {
    let side = |desc: &str| {
        obj(vec![("type", s("integer")), ("description", s(desc))])
    };
    let params = obj(vec![
        ("type", s("dict")),
        (
            "properties",
            obj(vec![
                ("side1", side("first side")),
                ("side2", side("second side")),
                ("side3", side("third side")),
            ]),
        ),
        ("required", arr(vec![s("side1"), s("side2"), s("side3")])),
    ]);
    let function = obj(vec![
        ("name", s("triangle_properties.get")),
        ("description", s("Computes properties of a triangle")),
        ("parameters", params),
    ]);
    obj(vec![
        ("id", s("multiple_0")),
        (
            "question",
            arr(vec![arr(vec![obj(vec![
                ("role", s("user")),
                ("content", s("Find the area of a triangle.")),
            ])])]),
        ),
        ("function", arr(vec![function])),
    ])
}

#[test]
fn dataset_entry_parses_fields() {
    let doc = triangle_dataset_doc();
    let entry = BfclDatasetEntry::deserialize_from_json(doc).expect("should parse");
    assert_eq!(entry.id, "multiple_0");
    assert_eq!(entry.question_content, "Find the area of a triangle.");
    assert_eq!(entry.functions.len(), 1);
    assert_eq!(entry.functions[0].name, "triangle_properties.get");
    assert_eq!(
        entry.functions[0].required,
        vec![
            String::from("side1"),
            String::from("side2"),
            String::from("side3")
        ]
    );
    assert_eq!(entry.functions[0].parameters.ty, "dict");
}

#[test]
fn dataset_entry_round_trips_its_document() {
    let doc = triangle_dataset_doc();
    let copy = triangle_dataset_doc();
    let entry = BfclDatasetEntry::deserialize_from_json(doc).expect("should parse");
    let back = entry.serialize_to_json();
    assert!(jv_eq(&back, &copy));
    assert_eq!(to_json_text(&back), to_json_text(&copy));
}

#[test]
fn dataset_entry_rejects_missing_id() {
    let doc = obj(vec![(
        "question",
        arr(vec![arr(vec![obj(vec![("content", s("q"))])])]),
    )]);
    let r = BfclDatasetEntry::deserialize_from_json(doc);
    assert!(r.is_err());
    assert_eq!(r.unwrap_err(), "Missing or invalid 'id' field");
}

#[test]
fn dataset_entry_rejects_bad_question_shape() {
    let doc = obj(vec![
        ("id", s("x")),
        ("question", s("not an array")),
        ("function", arr(vec![])),
    ]);
    assert!(BfclDatasetEntry::deserialize_from_json(doc).is_err());
}

#[test]
fn parameter_rejects_unknown_field() {
    let p = obj(vec![("type", s("string")), ("surprise", s("nope"))]);
    assert!(parse_parameter(&p).is_err());
}

#[test]
fn parameter_accepts_nested_schema() {
    let p = obj(vec![
        ("type", s("dict")),
        (
            "properties",
            obj(vec![(
                "inner",
                obj(vec![
                    ("type", s("array")),
                    ("items", obj(vec![("type", s("string"))])),
                ]),
            )]),
        ),
        ("required", arr(vec![s("inner")])),
    ]);
    let parsed = parse_parameter(&p).expect("should parse");
    assert_eq!(parsed.ty, "dict");
    let props = parsed.properties.expect("has properties");
    assert_eq!(props.len(), 1);
    assert_eq!(props[0].0, "inner");
    assert!(props[0].1.items.is_some());
}

#[test]
fn modify_question_content_rewrites_only_the_question() {
    let doc = triangle_dataset_doc();
    let mut entry = BfclDatasetEntry::deserialize_from_json(doc).expect("should parse");
    entry
        .modify_question_content("What is the perimeter?")
        .expect("should modify");
    assert_eq!(entry.question_content, "What is the perimeter?");
    // the rewritten document still parses, with everything else unchanged
    let back = entry.serialize_to_json();
    let reparsed = BfclDatasetEntry::deserialize_from_json(back).expect("should parse");
    assert_eq!(reparsed.id, "multiple_0");
    assert_eq!(reparsed.question_content, "What is the perimeter?");
    assert_eq!(reparsed.functions.len(), 1);
    assert_eq!(reparsed.functions[0].name, "triangle_properties.get");
    // the untouched sibling member is still there
    let raw = entry.serialize_to_json();
    let q = obj_get(&raw, "question").expect("question");
    match q {
        JsonValue::Arr(turns) => match &turns[0] {
            JsonValue::Arr(msgs) => {
                let role = obj_get(&msgs[0], "role").expect("role");
                assert!(jv_eq(role, &s("user")));
            }
            _ => panic!("expected inner array"),
        },
        _ => panic!("expected array"),
    }
}

#[test]
fn modify_question_content_fails_on_wrong_shape() {
    let doc = obj(vec![
        ("id", s("x")),
        (
            "question",
            arr(vec![arr(vec![obj(vec![("content", s("q"))])])]),
        ),
        ("function", arr(vec![])),
    ]);
    let mut entry = BfclDatasetEntry::deserialize_from_json(doc).expect("should parse");
    entry.raw_entry = s("no longer an object");
    assert!(entry.modify_question_content("new").is_err());
}

fn triangle_ground_truth_call() -> JsonValue {
    obj(vec![(
        "triangle_properties.get",
        obj(vec![
            ("side1", arr(vec![JsonValue::Int(5)])),
            ("side2", arr(vec![JsonValue::Int(4)])),
            ("side3", arr(vec![JsonValue::Int(3)])),
        ]),
    )])
}

#[test]
fn ground_truth_call_round_trips() {
    let doc = triangle_ground_truth_call();
    let copy = triangle_ground_truth_call();
    let call =
        BfclGroundTruthFunctionCallParameters::deserialize_from_json(&doc).expect("should parse");
    assert_eq!(call.function_name, "triangle_properties.get");
    assert_eq!(call.parameters.len(), 3);
    let back = call.serialize_to_json();
    assert!(jv_eq(&back, &copy));
}

#[test]
fn ground_truth_call_rejects_two_functions() {
    let doc = obj(vec![
        ("f", obj(vec![])),
        ("g", obj(vec![])),
    ]);
    let r = BfclGroundTruthFunctionCallParameters::deserialize_from_json(&doc);
    assert_eq!(r.unwrap_err(), "Expected exactly one function call");
}

#[test]
fn ground_truth_call_rejects_non_array_values() {
    let doc = obj(vec![("f", obj(vec![("p", JsonValue::Int(1))]))]);
    let r = BfclGroundTruthFunctionCallParameters::deserialize_from_json(&doc);
    assert_eq!(r.unwrap_err(), "Expected parameter value to be a JSON array");
}

#[test]
fn ground_truth_entry_parses() {
    let doc = obj(vec![
        ("id", s("multiple_0")),
        ("ground_truth", arr(vec![triangle_ground_truth_call()])),
    ]);
    let entry = BfclGroundTruthEntry::deserialize_from_json(doc).expect("should parse");
    assert_eq!(entry.id, "multiple_0");
    assert_eq!(entry.ground_truth.len(), 1);
}

#[test]
fn output_call_round_trips() {
    let doc = obj(vec![(
        "triangle_properties.get",
        obj(vec![("side1", JsonValue::Int(5))]),
    )]);
    let copy = obj(vec![(
        "triangle_properties.get",
        obj(vec![("side1", JsonValue::Int(5))]),
    )]);
    let call = BfclOutputFunctionCall::deserialize_from_json(&doc).expect("should parse");
    assert_eq!(call.function_name, "triangle_properties.get");
    let back = call.serialize_to_json();
    assert!(jv_eq(&back, &copy));
}

#[test]
fn json_text_renders_exactly() {
    let v = obj(vec![
        ("a", JsonValue::Int(-12)),
        ("b", arr(vec![JsonValue::Bool(true), JsonValue::Null])),
        ("c", s("line\nbreak \"quoted\"")),
        ("d", JsonValue::NumText(String::from("2.5"))),
    ]);
    assert_eq!(
        to_json_text(&v),
        "{\"a\":-12,\"b\":[true,null],\"c\":\"line\\nbreak \\\"quoted\\\"\",\"d\":2.5}"
    );
}

#[test]
fn parse_failures_name_the_offending_field() {
    // a malformed nested parameter: the entry's error is the parameter's
    let bad_param = obj(vec![("type", s("string")), ("surprise", s("nope"))]);
    let function = obj(vec![
        ("name", s("f")),
        ("description", s("d")),
        (
            "parameters",
            obj(vec![
                ("type", s("dict")),
                ("properties", obj(vec![("p", bad_param)])),
                ("required", arr(vec![])),
            ]),
        ),
    ]);
    let doc = obj(vec![
        ("id", s("x")),
        (
            "question",
            arr(vec![arr(vec![obj(vec![("content", s("q"))])])]),
        ),
        ("function", arr(vec![function])),
    ]);
    let r = BfclDatasetEntry::deserialize_from_json(doc);
    assert_eq!(r.unwrap_err(), "Unknown or repeated field in parameter");
    // a missing ground-truth array names the field
    let gt = obj(vec![("id", s("x"))]);
    let r = BfclGroundTruthEntry::deserialize_from_json(gt);
    assert_eq!(r.unwrap_err(), "Missing or invalid 'ground_truth' field");
    // a failing ground-truth element's message is propagated unchanged
    let gt = obj(vec![
        ("id", s("x")),
        (
            "ground_truth",
            arr(vec![obj(vec![("f", obj(vec![("p", JsonValue::Int(1))]))])]),
        ),
    ]);
    let r = BfclGroundTruthEntry::deserialize_from_json(gt);
    assert_eq!(r.unwrap_err(), "Expected parameter value to be a JSON array");
}

#[test]
fn question_rewrite_failure_names_the_missing_level() {
    let doc = obj(vec![
        ("id", s("x")),
        (
            "question",
            arr(vec![arr(vec![obj(vec![("content", s("q"))])])]),
        ),
        ("function", arr(vec![])),
    ]);
    let mut entry = BfclDatasetEntry::deserialize_from_json(doc).expect("should parse");
    entry.raw_entry = s("no longer an object");
    let r = entry.modify_question_content("new");
    assert_eq!(r.unwrap_err(), "Missing or invalid 'question' field");
    let doc = obj(vec![("id", s("x")), ("question", arr(vec![])), ("function", arr(vec![]))]);
    let mut entry = BfclDatasetEntry {
        id: String::from("x"),
        question_content: String::new(),
        functions: Vec::new(),
        raw_entry: doc,
    };
    let r = entry.modify_question_content("new");
    assert_eq!(r.unwrap_err(), "Missing or invalid 'question[0]' field");
}
