//! The category cache and the categorization step.
//!
//! Most error kinds are categorized by pure dispatch; a value mismatch goes
//! to an asynchronous judge.  The judge's verdicts are memoized under the
//! JSON texts of the mismatched value and its acceptable alternatives, so
//! the decision here is split from the call: [`categorize_entry`] either
//! answers from the cache or hands back everything the judge call needs,
//! and [`insert_category`] records the verdict afterwards.

use crate::assoc::{assoc_lookup, assoc_set, lemma_assoc_set_lookup};
use crate::jsontext::{json_text, list_to_json_text, to_json_text};
use crate::jsonval::{jv_of_seq, Jv};
use crate::strutil::{string_eq, string_eq_lit};
use crate::tool_error_analysis::{EvalErrorV, EvaluationError, ToolErrorCategory};
use vstd::prelude::*;

verus! {

/// The model of a cache key: the JSON text of the actual value, and the
/// JSON texts of the acceptable alternatives.
pub type CacheKeyV = (Seq<char>, Seq<Seq<char>>);

/// The memoized judge verdicts of one categorization run, with a counter
/// of cache hits kept for diagnostics.
#[derive(Debug)]
pub struct CategoryCache {
    pub entries: Vec<((String, Vec<String>), ToolErrorCategory)>,
    pub hits: u64,
}

/// The model of the cache's entries.
pub open spec fn cache_view(entries: Seq<((String, Vec<String>), ToolErrorCategory)>) -> Seq<
    (CacheKeyV, ToolErrorCategory),
> {
    Seq::new(entries.len(), |i: int| ((entries[i].0.0@, entries[i].0.1.deep_view()), entries[i].1))
}

impl CategoryCache {
    /// An empty cache.
    pub fn new() -> (r: CategoryCache)
        ensures
            cache_view(r.entries@).len() == 0,
            r.hits == 0,
    {
        let r = CategoryCache { entries: Vec::new(), hits: 0 };
        r
    }
}

/// The category a judge label maps to; an unrecognized label falls back to
/// the catch-all, never to a failure.
pub open spec fn spec_judge_category(label: Seq<char>) -> ToolErrorCategory {
    if label == "wrong_value"@ {
        ToolErrorCategory::WrongValues
    } else if label == "relevant_but_incorrect"@ {
        ToolErrorCategory::RelevantButIncorrect
    } else if label == "exactly_same_meaning"@ {
        ToolErrorCategory::ExactlySameMeaning
    } else if label == "language_mismatch_wrong_value"@ {
        ToolErrorCategory::LanguageMismatchWrongValues
    } else if label == "language_mismatch_relevant_but_incorrect"@ {
        ToolErrorCategory::LanguageMismatchRelevantButIncorrect
    } else if label == "language_mismatch_exactly_same_meaning"@ {
        ToolErrorCategory::LanguageMismatchExactlySameMeaning
    } else {
        ToolErrorCategory::OtherErrors
    }
}

/// The category a judge label maps to.
pub fn category_from_judge_label(label: &String) -> (r: ToolErrorCategory)
    ensures
        r == spec_judge_category(label@),
{
    if string_eq_lit(label, "wrong_value") {
        ToolErrorCategory::WrongValues
    } else if string_eq_lit(label, "relevant_but_incorrect") {
        ToolErrorCategory::RelevantButIncorrect
    } else if string_eq_lit(label, "exactly_same_meaning") {
        ToolErrorCategory::ExactlySameMeaning
    } else if string_eq_lit(label, "language_mismatch_wrong_value") {
        ToolErrorCategory::LanguageMismatchWrongValues
    } else if string_eq_lit(label, "language_mismatch_relevant_but_incorrect") {
        ToolErrorCategory::LanguageMismatchRelevantButIncorrect
    } else if string_eq_lit(label, "language_mismatch_exactly_same_meaning") {
        ToolErrorCategory::LanguageMismatchExactlySameMeaning
    } else {
        ToolErrorCategory::OtherErrors
    }
}

/// The category of an error that needs no judge: unusable output is a
/// syntax error, count/name/presence mismatches are miscellaneous.
/// A value mismatch has no direct category.
pub open spec fn spec_direct_category(e: EvalErrorV) -> Option<ToolErrorCategory> {
    match e {
        EvalErrorV::NoFunctionCallsFound { .. } => Some(ToolErrorCategory::SyntaxError),
        EvalErrorV::JsonDecodeError { .. } => Some(ToolErrorCategory::SyntaxError),
        EvalErrorV::ParsingError { .. } => Some(ToolErrorCategory::SyntaxError),
        EvalErrorV::InvalidEntryCount { .. } => Some(ToolErrorCategory::MiscErrors),
        EvalErrorV::WrongFuncName { .. } => Some(ToolErrorCategory::MiscErrors),
        EvalErrorV::MissingRequiredParam { .. } => Some(ToolErrorCategory::MiscErrors),
        EvalErrorV::UnexpectedParam { .. } => Some(ToolErrorCategory::MiscErrors),
        EvalErrorV::InvalidParamValue { .. } => None,
    }
}

/// The cache key of a value mismatch: the JSON texts of the actual value
/// and of each acceptable alternative.
pub open spec fn spec_cache_key(actual: Jv, expected: Seq<Jv>) -> CacheKeyV {
    (json_text(actual), Seq::new(expected.len(), |i: int| json_text(expected[i])))
}

/// What the categorization step decides for one error.
#[derive(Debug)]
pub enum CategorizeOutcome {
    /// The category is settled: by pure dispatch, or by a cache hit.
    Done(ToolErrorCategory),
    /// A judge call is needed.  `param`, `actual_json` and `expected_json`
    /// are the call's arguments; `actual_json` with `expected_key` is the
    /// cache key to record the verdict under.
    NeedsJudge {
        param: String,
        actual_json: String,
        expected_json: String,
        expected_key: Vec<String>,
    },
}

/// True when the two strings lists are equal.
fn string_vec_eq(a: &Vec<String>, b: &Vec<String>) -> (r: bool)
    ensures
        r == (a.deep_view() == b.deep_view()),
{
    if a.len() != b.len() {
        assert(a.deep_view().len() == a@.len());
        assert(b.deep_view().len() == b@.len());
        return false;
    }
    let mut i: usize = 0;
    while i < a.len()
        invariant
            a@.len() == b@.len(),
            i <= a@.len(),
            forall|k: int| 0 <= k < i ==> a.deep_view()[k] == b.deep_view()[k],
        decreases a@.len() - i,
    {
        if !string_eq(&a[i], &b[i]) {
            assert(a.deep_view()[i as int] != b.deep_view()[i as int]);
            return false;
        }
        i += 1;
    }
    proof {
        assert(a.deep_view() =~= b.deep_view());
    }
    true
}

/// The cached category under a key, if any.
fn cache_get(cache: &CategoryCache, actual_json: &String, expected_key: &Vec<String>) -> (r:
    Option<ToolErrorCategory>)
    ensures
        match r {
            Some(c) => assoc_lookup(
                cache_view(cache.entries@),
                (actual_json@, expected_key.deep_view()),
            ) == Some(c),
            None => assoc_lookup(
                cache_view(cache.entries@),
                (actual_json@, expected_key.deep_view()),
            ) is None,
        },
{
    let ghost m = cache_view(cache.entries@);
    let ghost key = (actual_json@, expected_key.deep_view());
    proof {
        assert(m.skip(0) =~= m);
    }
    let mut i: usize = 0;
    while i < cache.entries.len()
        invariant
            i <= cache.entries@.len(),
            m == cache_view(cache.entries@),
            key == (actual_json@, expected_key.deep_view()),
            m.len() == cache.entries@.len(),
            forall|k: int| 0 <= k < m.len() ==> m[k] == (
                (cache.entries@[k].0.0@, cache.entries@[k].0.1.deep_view()),
                cache.entries@[k].1,
            ),
            assoc_lookup(m, key) == assoc_lookup(m.skip(i as int), key),
        decreases cache.entries@.len() - i,
    {
        if string_eq(&cache.entries[i].0.0, actual_json) && string_vec_eq(
            &cache.entries[i].0.1,
            expected_key,
        ) {
            proof {
                assert(m.skip(i as int)[0] == m[i as int]);
                assert(m[i as int].0 == key);
            }
            return Some(cache.entries[i].1);
        }
        proof {
            assert(m.skip(i as int)[0] == m[i as int]);
            assert(m.skip(i as int).drop_first() =~= m.skip(i + 1 as int));
        }
        i += 1;
    }
    proof {
        assert(m.skip(m.len() as int).len() == 0);
    }
    None
}

/// Decides the category of one evaluation error, consulting the cache for
/// value mismatches.  A cache hit bumps the hit counter by exactly one; a
/// miss changes nothing and hands back what the judge call needs.
pub fn categorize_entry(error: &EvaluationError, cache: &mut CategoryCache) -> (r:
    CategorizeOutcome)
    requires
        old(cache).hits < u64::MAX,
    ensures
        match spec_direct_category(error@) {
            Some(c) => r == CategorizeOutcome::Done(c) && *final(cache) == *old(cache),
            None => {
                let key = spec_cache_key(
                    error@->InvalidParamValue_actual_value,
                    error@->InvalidParamValue_expected_values,
                );
                match assoc_lookup(cache_view(old(cache).entries@), key) {
                    Some(c) => {
                        &&& r == CategorizeOutcome::Done(c)
                        &&& final(cache).entries@ == old(cache).entries@
                        &&& final(cache).hits == old(cache).hits + 1
                    },
                    None => {
                        &&& *final(cache) == *old(cache)
                        &&& r matches CategorizeOutcome::NeedsJudge {
                            param,
                            actual_json,
                            expected_json,
                            expected_key,
                        }
                        &&& param@ == error@->InvalidParamValue_param
                        &&& actual_json@ == key.0
                        &&& expected_key.deep_view() == key.1
                        &&& expected_json@ == json_text(
                            Jv::Arr(error@->InvalidParamValue_expected_values),
                        )
                    },
                }
            },
        },
{
    match error {
        EvaluationError::NoFunctionCallsFound { .. } => CategorizeOutcome::Done(
            ToolErrorCategory::SyntaxError,
        ),
        EvaluationError::JsonDecodeError { .. } => CategorizeOutcome::Done(
            ToolErrorCategory::SyntaxError,
        ),
        EvaluationError::ParsingError { .. } => CategorizeOutcome::Done(
            ToolErrorCategory::SyntaxError,
        ),
        EvaluationError::InvalidEntryCount { .. } => CategorizeOutcome::Done(
            ToolErrorCategory::MiscErrors,
        ),
        EvaluationError::WrongFuncName { .. } => CategorizeOutcome::Done(
            ToolErrorCategory::MiscErrors,
        ),
        EvaluationError::MissingRequiredParam { .. } => CategorizeOutcome::Done(
            ToolErrorCategory::MiscErrors,
        ),
        EvaluationError::UnexpectedParam { .. } => CategorizeOutcome::Done(
            ToolErrorCategory::MiscErrors,
        ),
        EvaluationError::InvalidParamValue { param, actual_value, expected_values, .. } => {
            let actual_json = to_json_text(actual_value);
            let ghost expm = jv_of_seq(expected_values@);
            proof {
                crate::jsonval::lemma_jv_of_seq_index(expected_values@);
            }
            let mut expected_key: Vec<String> = Vec::new();
            let mut i: usize = 0;
            while i < expected_values.len()
                invariant
                    i <= expected_values@.len(),
                    expm == jv_of_seq(expected_values@),
                    expm.len() == expected_values@.len(),
                    forall|k: int| 0 <= k < expm.len() ==> expm[k] == crate::jsonval::jv_of(
                        expected_values@[k],
                    ),
                    expected_key@.len() == i,
                    forall|k: int| 0 <= k < i ==> expected_key@[k]@ == json_text(expm[k]),
                decreases expected_values@.len() - i,
            {
                expected_key.push(to_json_text(&expected_values[i]));
                i += 1;
            }
            proof {
                assert(expected_key.deep_view() =~= Seq::new(
                    expm.len(),
                    |k: int| json_text(expm[k]),
                ));
            }
            match cache_get(cache, &actual_json, &expected_key) {
                Some(c) => {
                    cache.hits = cache.hits + 1;
                    CategorizeOutcome::Done(c)
                },
                None => {
                    let expected_json = list_to_json_text(expected_values);
                    CategorizeOutcome::NeedsJudge {
                        param: param.clone(),
                        actual_json,
                        expected_json,
                        expected_key,
                    }
                },
            }
        },
    }
}

/// Records a judge verdict under its cache key.  The key is now found with
/// this category; every other key is found as before; the hit counter does
/// not move.
pub fn insert_category(
    cache: &mut CategoryCache,
    actual_json: String,
    expected_key: Vec<String>,
    category: ToolErrorCategory,
)
    ensures
        cache_view(final(cache).entries@) == assoc_set(
            cache_view(old(cache).entries@),
            (actual_json@, expected_key.deep_view()),
            category,
        ),
        final(cache).hits == old(cache).hits,
{
    let ghost m = cache_view(old(cache).entries@);
    let ghost key = (actual_json@, expected_key.deep_view());
    let mut i: usize = 0;
    while i < cache.entries.len()
        invariant
            i <= cache.entries@.len(),
            *cache == *old(cache),
            m == cache_view(cache.entries@),
            key == (actual_json@, expected_key.deep_view()),
            m.len() == cache.entries@.len(),
            forall|k: int| 0 <= k < m.len() ==> m[k] == (
                (cache.entries@[k].0.0@, cache.entries@[k].0.1.deep_view()),
                cache.entries@[k].1,
            ),
            forall|k: int| 0 <= k < i ==> (#[trigger] m[k]).0 != key,
        decreases cache.entries@.len() - i,
    {
        if string_eq(&cache.entries[i].0.0, &actual_json) && string_vec_eq(
            &cache.entries[i].0.1,
            &expected_key,
        ) {
            proof {
                assert(m[i as int].0 == key);
            }
            cache.entries[i] = ((actual_json, expected_key), category);
            proof {
                lemma_assoc_set_at(m, key, category, i as int);
                assert(cache_view(cache.entries@) =~= assoc_set(m, key, category));
            }
            return ;
        }
        i += 1;
    }
    cache.entries.push(((actual_json, expected_key), category));
    proof {
        lemma_assoc_set_append(m, key, category);
        assert(cache_view(cache.entries@) =~= m + seq![(key, category)]);
    }
}

/// Replacing the value at the first position holding the key is what
/// `assoc_set` does there.
proof fn lemma_assoc_set_at<K, V>(s: Seq<(K, V)>, key: K, val: V, i: int)
    requires
        0 <= i < s.len(),
        s[i].0 == key,
        forall|k: int| 0 <= k < i ==> (#[trigger] s[k]).0 != key,
    ensures
        assoc_set(s, key, val) == s.update(i, (key, val)),
    decreases i,
{
    if i == 0 {
        assert(assoc_set(s, key, val) == seq![(key, val)] + s.drop_first());
        assert(seq![(key, val)] + s.drop_first() =~= s.update(0, (key, val)));
    } else {
        lemma_assoc_set_at(s.drop_first(), key, val, i - 1);
        assert forall|k: int| 0 <= k < i - 1 implies (#[trigger] s.drop_first()[k]).0 != key by {
            assert(s.drop_first()[k] == s[k + 1]);
        }
        assert(s.drop_first()[i - 1] == s[i]);
        assert(assoc_set(s, key, val) == seq![s[0]] + assoc_set(s.drop_first(), key, val));
        assert(seq![s[0]] + s.drop_first().update(i - 1, (key, val)) =~= s.update(i, (key, val)));
    }
}

/// Appending is what `assoc_set` does when no pair holds the key.
proof fn lemma_assoc_set_append<K, V>(s: Seq<(K, V)>, key: K, val: V)
    requires
        forall|k: int| 0 <= k < s.len() ==> (#[trigger] s[k]).0 != key,
    ensures
        assoc_set(s, key, val) == s + seq![(key, val)],
    decreases s.len(),
{
    if s.len() == 0 {
        assert(assoc_set(s, key, val) =~= s + seq![(key, val)]);
    } else {
        assert forall|k: int| 0 <= k < s.drop_first().len() implies (
        #[trigger] s.drop_first()[k]).0 != key by {
            assert(s.drop_first()[k] == s[k + 1]);
        }
        lemma_assoc_set_append(s.drop_first(), key, val);
        assert(seq![s[0]] + (s.drop_first() + seq![(key, val)]) =~= s + seq![(key, val)]);
    }
}

/// Once a verdict is recorded, the same key returns it from the cache: two
/// sequential categorizations of the same mismatch make one judge call.
pub proof fn lemma_cache_round_trip(
    entries: Seq<(CacheKeyV, ToolErrorCategory)>,
    key: CacheKeyV,
    category: ToolErrorCategory,
)
    ensures
        assoc_lookup(assoc_set(entries, key, category), key) == Some(category),
{
    lemma_assoc_set_lookup(entries, key, category, key);
}

} // verus!
