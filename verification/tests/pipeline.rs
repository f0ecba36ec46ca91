use bfcl_harness::jsontext::to_json_text;
use bfcl_harness::jsonval::JsonValue;
use bfcl_harness::tool_run::{
    contains_id, due_for_flush, language_tag, noise_tag, pending_indices, run_key,
    sort_records_by_id, stage_tags, AddNoiseMode, Language, TranslateMode, TranslateOption,
};

fn record(id: &str, n: i64) -> (String, JsonValue) {
    (
        String::from(id),
        JsonValue::Obj(vec![
            (String::from("id"), JsonValue::Str(String::from(id))),
            (String::from("n"), JsonValue::Int(n)),
        ]),
    )
}

fn rendered(records: &Vec<(String, JsonValue)>) -> Vec<String> {
    records.iter().map(|(_, v)| to_json_text(v)).collect()
}

#[test]
fn pending_skips_completed_ids() {
    let case_ids = vec![
        String::from("multiple_0"),
        String::from("multiple_1"),
        String::from("multiple_2"),
        String::from("multiple_3"),
    ];
    let existing = vec![String::from("multiple_1"), String::from("multiple_3")];
    let pending = pending_indices(&case_ids, &existing);
    assert_eq!(pending, vec![0, 2]);
    // nothing already present is reprocessed
    for &i in &pending {
        assert!(!contains_id(&existing, &case_ids[i]));
    }
    // a fully completed pass has nothing pending
    let all_done = pending_indices(&case_ids, &case_ids);
    assert!(all_done.is_empty());
}

#[test]
fn resumed_runs_rewrite_identical_sorted_output() {
    // the same records, completed in two different orders
    let mut first = vec![record("multiple_2", 2), record("multiple_0", 0), record("multiple_1", 1)];
    let mut second = vec![record("multiple_1", 1), record("multiple_2", 2), record("multiple_0", 0)];
    sort_records_by_id(&mut first);
    sort_records_by_id(&mut second);
    assert_eq!(rendered(&first), rendered(&second));
    assert_eq!(first[0].0, "multiple_0");
    assert_eq!(first[1].0, "multiple_1");
    assert_eq!(first[2].0, "multiple_2");
}

#[test]
fn run_keys_separate_configurations() {
    let zh = TranslateMode::Translated {
        language: Language::Chinese,
        option: TranslateOption::FullyTranslatedPreTranslate,
    };
    assert_eq!(language_tag(&zh), "_zh");
    let tags = stage_tags(&zh);
    assert_eq!(tags.0, "_fulltrans");
    assert_eq!(tags.1, "_pretrans");
    assert_eq!(tags.2, "_noprompt");
    assert_eq!(tags.3, "_noposttrans");
    assert_eq!(noise_tag(&AddNoiseMode::Synonym), "_syno");
    assert_eq!(
        run_key(&zh, &AddNoiseMode::Synonym),
        "_zh_fulltrans_pretrans_syno_noprompt_noposttrans"
    );
    assert_eq!(
        run_key(&TranslateMode::NotTranslated, &AddNoiseMode::NoNoise),
        "_en_na_nopretrans_nonoise_noprompt_noposttrans"
    );
    assert_ne!(
        run_key(&zh, &AddNoiseMode::Synonym),
        run_key(&zh, &AddNoiseMode::Paraphrase)
    );
}

#[test]
fn flush_cadence_is_every_tenth_completion() {
    assert!(due_for_flush(10));
    assert!(due_for_flush(20));
    assert!(!due_for_flush(7));
    assert!(due_for_flush(0));
}

#[test]
fn sorting_handles_empty_and_single() {
    let mut empty: Vec<(String, JsonValue)> = Vec::new();
    sort_records_by_id(&mut empty);
    assert!(empty.is_empty());
    let mut one = vec![record("only", 1)];
    sort_records_by_id(&mut one);
    assert_eq!(one.len(), 1);
    assert_eq!(one[0].0, "only");
}
