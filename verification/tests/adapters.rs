use bfcl_harness::function_name_mapper::{FunctionNameMapper, LookupError};
use bfcl_harness::tool_error_analysis::EvaluationError;
use bfcl_harness::granite4_interface::Granite4Interface;
use bfcl_harness::gpt5_interface::Gpt5Interface;
use bfcl_harness::jsontext::to_json_text;
use bfcl_harness::jsonval::JsonValue;
use bfcl_harness::model_interface::{
    get_model_interface, ApiModel, LocalModel, Model, ModelInterfaceKind,
};
use bfcl_harness::judge::generate_dataset::mmmlu_entry_from_json;
use bfcl_harness::tool_bfcl_formats::BfclDatasetEntry;

fn s(text: &str) -> JsonValue {
    JsonValue::Str(String::from(text))
}

fn obj(fields: Vec<(&str, JsonValue)>) -> JsonValue {
    JsonValue::Obj(fields.into_iter().map(|(k, v)| (String::from(k), v)).collect())
}

fn arr(items: Vec<JsonValue>) -> JsonValue {
    JsonValue::Arr(items)
}

/// Decodes JSON text with serde_json and carries it over into the
/// library's value tree.
fn decode(text: &str) -> JsonValue {
    fn conv(v: serde_json::Value) -> JsonValue {
        match v {
            serde_json::Value::Null => JsonValue::Null,
            serde_json::Value::Bool(b) => JsonValue::Bool(b),
            serde_json::Value::Number(n) => {
                if let Some(i) = n.as_i64() {
                    JsonValue::Int(i)
                } else {
                    JsonValue::NumText(n.to_string())
                }
            }
            serde_json::Value::String(s) => JsonValue::Str(s),
            serde_json::Value::Array(items) => {
                JsonValue::Arr(items.into_iter().map(conv).collect())
            }
            serde_json::Value::Object(fields) => {
                JsonValue::Obj(fields.into_iter().map(|(k, x)| (k, conv(x))).collect())
            }
        }
    }
    conv(serde_json::from_str(text).expect("test text should be valid JSON"))
}

#[test]
fn map_type_hint_renames() {
    assert_eq!(Granite4Interface::map_type_hint("dict"), "object");
    assert_eq!(Granite4Interface::map_type_hint("float"), "number");
    assert_eq!(Granite4Interface::map_type_hint("tuple"), "array");
    assert_eq!(Granite4Interface::map_type_hint("string"), "string");
}

#[test]
fn framing_joins_tagged_blocks_in_source_order() {
    let raw = "<tool_call>{\"a\":1}</tool_call><tool_call>{\"b\":2}</tool_call>";
    let framed = Granite4Interface.frame_tool_calls(raw);
    assert_eq!(framed, "[{\"a\":1},{\"b\":2}]");
}

#[test]
fn framing_wraps_a_bare_object() {
    let framed = Granite4Interface.frame_tool_calls("  ```\n{\"name\":\"f\"}\n``` ");
    assert_eq!(framed, "[{\"name\":\"f\"}]");
}

#[test]
fn framing_keeps_an_array_untouched() {
    let framed = Granite4Interface.frame_tool_calls("[{\"name\":\"f\"}]");
    assert_eq!(framed, "[{\"name\":\"f\"}]");
}

#[test]
fn framed_blocks_decode_to_calls_in_source_order() {
    let mut mapper = FunctionNameMapper::new();
    let first = mapper.sanitize(&String::from("alpha.call")).expect("no collision");
    let second = mapper.sanitize(&String::from("beta.call")).expect("no collision");
    let raw = format!(
        "<tool_call>{{\"name\":\"{}\",\"arguments\":{{\"x\":1}}}}</tool_call>\n<tool_call>{{\"name\":\"{}\",\"arguments\":{{}}}}</tool_call>",
        first, second
    );
    let framed = Granite4Interface.frame_tool_calls(&raw);
    let decoded = decode(&framed);
    let calls = Granite4Interface.decode_calls(&decoded).expect("shape fits");
    assert_eq!(calls.len(), 2);
    assert_eq!(calls[0].name, "alpha_call");
    assert_eq!(calls[1].name, "beta_call");
    let restored = Granite4Interface
        .restore_call_names(&calls, &mapper)
        .expect("names registered");
    assert_eq!(restored[0].function_name, "alpha.call");
    assert_eq!(restored[1].function_name, "beta.call");
    assert_eq!(restored[0].parameters.len(), 1);
    assert_eq!(restored[0].parameters[0].0, "x");
}

#[test]
fn restoring_an_unregistered_name_fails() {
    let mapper = FunctionNameMapper::new();
    let decoded = decode("[{\"name\":\"made_up\",\"arguments\":{}}]");
    let calls = Granite4Interface.decode_calls(&decoded).expect("shape fits");
    assert!(Granite4Interface.restore_call_names(&calls, &mapper).is_err());
}

#[test]
fn decode_rejects_wrong_shapes() {
    assert!(Granite4Interface.decode_calls(&s("not an array")).is_err());
    let no_args = decode("[{\"name\":\"f\"}]");
    assert!(Granite4Interface.decode_calls(&no_args).is_err());
}

fn dataset_entry() -> BfclDatasetEntry {
    let params = obj(vec![
        ("type", s("dict")),
        (
            "properties",
            obj(vec![(
                "side1",
                obj(vec![("type", s("float")), ("description", s("first side"))]),
            )]),
        ),
        ("required", arr(vec![s("side1")])),
    ]);
    let function = obj(vec![
        ("name", s("triangle_properties.get")),
        ("description", s("Computes properties")),
        ("parameters", params),
    ]);
    let doc = obj(vec![
        ("id", s("multiple_0")),
        (
            "question",
            arr(vec![arr(vec![obj(vec![("content", s("q"))])])]),
        ),
        ("function", arr(vec![function])),
    ]);
    BfclDatasetEntry::deserialize_from_json(doc).expect("dataset should parse")
}

#[test]
fn granite4_tool_definitions_render_the_wire_shape() {
    let entry = dataset_entry();
    let mut mapper = FunctionNameMapper::new();
    mapper
        .sanitize(&String::from("triangle_properties.get"))
        .expect("no collision");
    let defs = Granite4Interface
        .generate_tool_definitions(&entry.functions, &mapper)
        .expect("names registered");
    let expected = String::from("[{\"type\":\"function\",\"function\":{")
        + "\"name\":\"triangle_properties_get\","
        + "\"description\":\"Computes properties\","
        + "\"parameters\":{\"type\":\"object\",\"properties\":{"
        + "\"side1\":{\"type\":\"number\",\"description\":\"first side\"}},"
        + "\"required\":[\"side1\"]}}}]";
    assert_eq!(to_json_text(&defs), expected);
}

#[test]
fn granite4_tool_definitions_fail_without_a_mapping() {
    let entry = dataset_entry();
    let mapper = FunctionNameMapper::new();
    let r = Granite4Interface.generate_tool_definitions(&entry.functions, &mapper);
    assert!(r.is_err());
}

#[test]
fn gpt5_tool_definitions_flatten_the_schema() {
    let entry = dataset_entry();
    let mut mapper = FunctionNameMapper::new();
    mapper
        .sanitize(&String::from("triangle_properties.get"))
        .expect("no collision");
    let tools = Gpt5Interface
        .generate_tool_definitions(&entry.functions, &mapper)
        .expect("names registered");
    assert_eq!(tools.len(), 1);
    assert_eq!(tools[0].ty, "function");
    assert_eq!(tools[0].name, "triangle_properties_get");
    assert_eq!(tools[0].parameters.ty, "object");
    assert_eq!(tools[0].parameters.properties.len(), 1);
    assert_eq!(tools[0].parameters.properties[0].0, "side1");
    assert_eq!(tools[0].parameters.properties[0].1.ty, "number");
    assert_eq!(tools[0].parameters.required, vec![String::from("side1")]);
}

#[test]
fn adapter_selection_is_exhaustive() {
    assert_eq!(
        get_model_interface(Model::Api(ApiModel::Gpt5Mini)),
        ModelInterfaceKind::Gpt5
    );
    assert_eq!(
        get_model_interface(Model::Api(ApiModel::DeepSeek)),
        ModelInterfaceKind::DeepSeek
    );
    assert_eq!(
        get_model_interface(Model::Local(LocalModel::Llama3_1_70B)),
        ModelInterfaceKind::Llama31
    );
    assert_eq!(
        get_model_interface(Model::Local(LocalModel::Qwen3_32B)),
        ModelInterfaceKind::Qwen3
    );
    assert_eq!(
        get_model_interface(Model::Local(LocalModel::Granite4_0HTiny)),
        ModelInterfaceKind::Granite4
    );
}

#[test]
fn mmmlu_entry_parses_strictly() {
    let good = decode(
        "{\"original_index\":7,\"question\":\"Which?\",\"choices\":[\"a\",\"b\",\"c\",\"d\"],\"answer\":2,\"subject\":\"history\"}",
    );
    let e = mmmlu_entry_from_json(&good).expect("should parse");
    assert_eq!(e.original_index, 7);
    assert_eq!(e.answer, 2);
    assert_eq!(e.choices[2], "c");
    let short = decode(
        "{\"original_index\":7,\"question\":\"Which?\",\"choices\":[\"a\",\"b\"],\"answer\":2,\"subject\":\"history\"}",
    );
    assert!(mmmlu_entry_from_json(&short).is_err());
}

#[test]
fn framing_of_plain_text_strips_fences_only() {
    assert_eq!(Granite4Interface.frame_tool_calls(""), "");
    assert_eq!(Granite4Interface.frame_tool_calls("   \n"), "");
    assert_eq!(Granite4Interface.frame_tool_calls("no calls here"), "no calls here");
}

#[test]
fn framing_skips_empty_blocks() {
    let raw = "<tool_call>  </tool_call><tool_call>{\"a\":1}</tool_call>";
    assert_eq!(Granite4Interface.frame_tool_calls(raw), "[{\"a\":1}]");
}

#[test]
fn translation_walk_replaces_only_string_leaves() {
    let v = obj(vec![
        ("location", s("beijing")),
        ("count", JsonValue::Int(3)),
        (
            "nested",
            obj(vec![("tags", arr(vec![s("chicken"), s("mushroom")]))]),
        ),
    ]);
    let mut leaves: Vec<String> = Vec::new();
    bfcl_harness::translate_values::collect_string_leaves(&v, &mut leaves);
    assert_eq!(
        leaves,
        vec![
            String::from("beijing"),
            String::from("chicken"),
            String::from("mushroom")
        ]
    );
    let translated = vec![
        String::from("Beijing"),
        String::from("Chicken"),
        String::from("Mushroom"),
    ];
    let (rebuilt, consumed) =
        bfcl_harness::translate_values::replace_string_leaves(&v, &translated, 0);
    assert_eq!(consumed, 3);
    assert_eq!(
        to_json_text(&rebuilt),
        "{\"location\":\"Beijing\",\"count\":3,\"nested\":{\"tags\":[\"Chicken\",\"Mushroom\"]}}"
    );
}

#[test]
fn empty_answers_report_no_function_calls_found() {
    let framed = Granite4Interface.frame_tool_calls("   ``` \n");
    assert_eq!(framed, "");
    let err = Granite4Interface.decode_failure_error(
        "   ``` \n",
        &framed,
        String::from("empty input"),
    );
    match err {
        EvaluationError::NoFunctionCallsFound { raw_output } => {
            assert_eq!(raw_output, "   ``` \n");
        }
        other => panic!("expected NoFunctionCallsFound, got {:?}", other),
    }
    // text that was present but undecodable stays a decode error
    let framed = Granite4Interface.frame_tool_calls("not json");
    let err = Granite4Interface.decode_failure_error(
        "not json",
        &framed,
        String::from("expected value"),
    );
    match err {
        EvaluationError::JsonDecodeError { error_message, raw_output } => {
            assert_eq!(error_message, "expected value");
            assert_eq!(raw_output, "not json");
        }
        other => panic!("expected JsonDecodeError, got {:?}", other),
    }
}

#[test]
fn unknown_name_errors_name_the_function() {
    let err = Granite4Interface.unknown_name_error(
        "[{\"name\":\"made_up\",\"arguments\":{}}]",
        &LookupError { name: String::from("made_up") },
    );
    match err {
        EvaluationError::ParsingError { message, .. } => {
            assert_eq!(message, "unknown function name: made_up");
        }
        other => panic!("expected ParsingError, got {:?}", other),
    }
}
