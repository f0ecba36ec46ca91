//! The pipeline's bookkeeping: run tags derived from a configuration, the
//! resumability computation that filters already-completed ids out of a
//! pass's input, and the deterministic sort by id that makes a completed
//! pass's persisted output independent of completion order.

use crate::jsonval::{jv_of, JsonValue, Jv};
use crate::strutil::{push_str, string_eq};
use vstd::prelude::*;
use vstd::seq_lib::{to_multiset_insert, to_multiset_remove};

verus! {

/// The target language of a translated run.
#[derive(Clone, Copy, Debug, PartialEq, Eq, Structural)]
pub enum Language {
    Chinese,
    Hindi,
}

/// Which stages of a translated run translate.
#[derive(Clone, Copy, Debug, PartialEq, Eq, Structural)]
pub enum TranslateOption {
    FullyTranslated,
    FullyTranslatedPromptTranslate,
    FullyTranslatedPreTranslate,
    FullyTranslatedPostTranslate,
    PartiallyTranslated,
}

/// Whether and how a run translates its questions.
#[derive(Clone, Copy, Debug, PartialEq, Eq, Structural)]
pub enum TranslateMode {
    Translated { language: Language, option: TranslateOption },
    NotTranslated,
}

/// Which noise perturbation a run applies to its questions.
#[derive(Clone, Copy, Debug, PartialEq, Eq, Structural)]
pub enum AddNoiseMode {
    NoNoise,
    Synonym,
    Paraphrase,
}

/// The language tag of a run.
pub open spec fn spec_language_tag(mode: TranslateMode) -> Seq<char> {
    match mode {
        TranslateMode::Translated { language: Language::Chinese, .. } => "_zh"@,
        TranslateMode::Translated { language: Language::Hindi, .. } => "_hi"@,
        TranslateMode::NotTranslated => "_en"@,
    }
}

/// The four stage tags of a run: translation level, pre-translation,
/// prompt translation, post-translation.
pub open spec fn spec_stage_tags(mode: TranslateMode) -> (
    Seq<char>,
    Seq<char>,
    Seq<char>,
    Seq<char>,
) {
    match mode {
        TranslateMode::Translated { option, .. } => match option {
            TranslateOption::FullyTranslated => (
                "_fulltrans"@,
                "_nopretrans"@,
                "_noprompt"@,
                "_noposttrans"@,
            ),
            TranslateOption::FullyTranslatedPromptTranslate => (
                "_fulltrans"@,
                "_nopretrans"@,
                "_prompt"@,
                "_noposttrans"@,
            ),
            TranslateOption::FullyTranslatedPreTranslate => (
                "_fulltrans"@,
                "_pretrans"@,
                "_noprompt"@,
                "_noposttrans"@,
            ),
            TranslateOption::FullyTranslatedPostTranslate => (
                "_fulltrans"@,
                "_nopretrans"@,
                "_noprompt"@,
                "_posttrans"@,
            ),
            TranslateOption::PartiallyTranslated => (
                "_parttrans"@,
                "_nopretrans"@,
                "_noprompt"@,
                "_noposttrans"@,
            ),
        },
        TranslateMode::NotTranslated => ("_na"@, "_nopretrans"@, "_noprompt"@, "_noposttrans"@),
    }
}

/// The noise tag of a run.
pub open spec fn spec_noise_tag(mode: AddNoiseMode) -> Seq<char> {
    match mode {
        AddNoiseMode::NoNoise => "_nonoise"@,
        AddNoiseMode::Synonym => "_syno"@,
        AddNoiseMode::Paraphrase => "_para"@,
    }
}

/// The run key: every tag of the configuration, concatenated.  Two runs
/// with different configurations get different keys, so their artifacts
/// never collide in storage.
pub open spec fn spec_run_key(translate: TranslateMode, noise: AddNoiseMode) -> Seq<char> {
    let tags = spec_stage_tags(translate);
    spec_language_tag(translate) + tags.0 + tags.1 + spec_noise_tag(noise) + tags.2 + tags.3
}

/// The language tag of a run.
pub fn language_tag(mode: &TranslateMode) -> (r: String)
    ensures
        r@ == spec_language_tag(*mode),
{
    match mode {
        TranslateMode::Translated { language: Language::Chinese, .. } => String::from_str("_zh"),
        TranslateMode::Translated { language: Language::Hindi, .. } => String::from_str("_hi"),
        TranslateMode::NotTranslated => String::from_str("_en"),
    }
}

/// The four stage tags of a run.
pub fn stage_tags(mode: &TranslateMode) -> (r: (String, String, String, String))
    ensures
        r.0@ == spec_stage_tags(*mode).0,
        r.1@ == spec_stage_tags(*mode).1,
        r.2@ == spec_stage_tags(*mode).2,
        r.3@ == spec_stage_tags(*mode).3,
{
    match mode {
        TranslateMode::Translated { option, .. } => match option {
            TranslateOption::FullyTranslated => (
                String::from_str("_fulltrans"),
                String::from_str("_nopretrans"),
                String::from_str("_noprompt"),
                String::from_str("_noposttrans"),
            ),
            TranslateOption::FullyTranslatedPromptTranslate => (
                String::from_str("_fulltrans"),
                String::from_str("_nopretrans"),
                String::from_str("_prompt"),
                String::from_str("_noposttrans"),
            ),
            TranslateOption::FullyTranslatedPreTranslate => (
                String::from_str("_fulltrans"),
                String::from_str("_pretrans"),
                String::from_str("_noprompt"),
                String::from_str("_noposttrans"),
            ),
            TranslateOption::FullyTranslatedPostTranslate => (
                String::from_str("_fulltrans"),
                String::from_str("_nopretrans"),
                String::from_str("_noprompt"),
                String::from_str("_posttrans"),
            ),
            TranslateOption::PartiallyTranslated => (
                String::from_str("_parttrans"),
                String::from_str("_nopretrans"),
                String::from_str("_noprompt"),
                String::from_str("_noposttrans"),
            ),
        },
        TranslateMode::NotTranslated => (
            String::from_str("_na"),
            String::from_str("_nopretrans"),
            String::from_str("_noprompt"),
            String::from_str("_noposttrans"),
        ),
    }
}

/// The noise tag of a run.
pub fn noise_tag(mode: &AddNoiseMode) -> (r: String)
    ensures
        r@ == spec_noise_tag(*mode),
{
    match mode {
        AddNoiseMode::NoNoise => String::from_str("_nonoise"),
        AddNoiseMode::Synonym => String::from_str("_syno"),
        AddNoiseMode::Paraphrase => String::from_str("_para"),
    }
}

/// The run key of a configuration.
pub fn run_key(translate: &TranslateMode, noise: &AddNoiseMode) -> (r: String)
    ensures
        r@ == spec_run_key(*translate, *noise),
{
    let tags = stage_tags(translate);
    let mut out = language_tag(translate);
    push_str(&mut out, tags.0.as_str());
    push_str(&mut out, tags.1.as_str());
    let nt = noise_tag(noise);
    push_str(&mut out, nt.as_str());
    push_str(&mut out, tags.2.as_str());
    push_str(&mut out, tags.3.as_str());
    out
}

/// True when `ids` holds `id`.
pub open spec fn spec_contains_id(ids: Seq<Seq<char>>, id: Seq<char>) -> bool {
    exists|i: int| 0 <= i < ids.len() && ids[i] == id
}

/// True when `ids` holds `id`.
pub fn contains_id(ids: &Vec<String>, id: &String) -> (r: bool)
    ensures
        r == spec_contains_id(ids.deep_view(), id@),
{
    let mut i: usize = 0;
    while i < ids.len()
        invariant
            i <= ids@.len(),
            forall|k: int| 0 <= k < i ==> ids.deep_view()[k] != id@,
        decreases ids@.len() - i,
    {
        if string_eq(&ids[i], id) {
            assert(ids.deep_view()[i as int] == id@);
            return true;
        }
        i += 1;
    }
    false
}

/// The positions of the cases a resumed pass still has to process: exactly
/// those whose id is not in the checkpoint, in their original order.
pub fn pending_indices(case_ids: &Vec<String>, existing_ids: &Vec<String>) -> (r: Vec<usize>)
    ensures
        forall|a: int, b: int| 0 <= a < b < r@.len() ==> r@[a] < r@[b],
        forall|a: int| 0 <= a < r@.len() ==> r@[a] < case_ids@.len(),
        forall|a: int| #![trigger r@[a]] 0 <= a < r@.len() ==> !spec_contains_id(
            existing_ids.deep_view(),
            case_ids.deep_view()[r@[a] as int],
        ),
        forall|i: int|
            0 <= i < case_ids@.len() && !spec_contains_id(
                existing_ids.deep_view(),
                case_ids.deep_view()[i],
            ) ==> exists|a: int| 0 <= a < r@.len() && r@[a] == i,
{
    let mut out: Vec<usize> = Vec::new();
    let mut i: usize = 0;
    while i < case_ids.len()
        invariant
            i <= case_ids@.len(),
            forall|a: int, b: int| 0 <= a < b < out@.len() ==> out@[a] < out@[b],
            forall|a: int| 0 <= a < out@.len() ==> out@[a] < i,
            forall|a: int| #![trigger out@[a]] 0 <= a < out@.len() ==> !spec_contains_id(
                existing_ids.deep_view(),
                case_ids.deep_view()[out@[a] as int],
            ),
            forall|k: int|
                0 <= k < i && !spec_contains_id(
                    existing_ids.deep_view(),
                    case_ids.deep_view()[k],
                ) ==> exists|a: int| 0 <= a < out@.len() && out@[a] == k,
        decreases case_ids@.len() - i,
    {
        if !contains_id(existing_ids, &case_ids[i]) {
            let ghost prev = out@;
            out.push(i);
            proof {
                assert(out@[out@.len() - 1] == i as int);
                assert forall|k: int|
                    0 <= k < i + 1 && !spec_contains_id(
                        existing_ids.deep_view(),
                        case_ids.deep_view()[k],
                    ) implies exists|a: int| 0 <= a < out@.len() && out@[a] == k by {
                    if k < i {
                        let a = choose|a: int| 0 <= a < prev.len() && prev[a] == k;
                        assert(out@[a] == k);
                    } else {
                        assert(out@[out@.len() - 1] == k);
                    }
                }
            }
        }
        i += 1;
    }
    out
}

/// Lexicographic order on character sequences, by code point.
pub open spec fn seq_char_le(a: Seq<char>, b: Seq<char>) -> bool
    decreases a.len(),
{
    if a.len() == 0 {
        true
    } else if b.len() == 0 {
        false
    } else if (a[0] as u32) < (b[0] as u32) {
        true
    } else if (a[0] as u32) > (b[0] as u32) {
        false
    } else {
        seq_char_le(a.drop_first(), b.drop_first())
    }
}

/// The order is total.
pub proof fn lemma_seq_char_le_total(a: Seq<char>, b: Seq<char>)
    ensures
        seq_char_le(a, b) || seq_char_le(b, a),
    decreases a.len(),
{
    if a.len() > 0 && b.len() > 0 && (a[0] as u32) == (b[0] as u32) {
        lemma_seq_char_le_total(a.drop_first(), b.drop_first());
    }
}

/// Two characters with the same code point are the same character.
proof fn lemma_char_inj(c: char, d: char)
    requires
        c as u32 == d as u32,
    ensures
        c == d,
{
}

/// The order is antisymmetric.
pub proof fn lemma_seq_char_le_antisym(a: Seq<char>, b: Seq<char>)
    requires
        seq_char_le(a, b),
        seq_char_le(b, a),
    ensures
        a == b,
    decreases a.len(),
{
    if a.len() == 0 {
        assert(b.len() == 0);
        assert(a =~= b);
    } else {
        lemma_char_inj(a[0], b[0]);
        assert(a[0] == b[0]);
        lemma_seq_char_le_antisym(a.drop_first(), b.drop_first());
        assert forall|i: int| 0 <= i < a.len() implies a[i] == b[i] by {
            if i > 0 {
                assert(a.drop_first()[i - 1] == a[i]);
                assert(b.drop_first()[i - 1] == b[i]);
            }
        }
        assert(a.len() == b.len());
        assert(a =~= b);
    }
}

/// The order is reflexive.
pub proof fn lemma_seq_char_le_refl(a: Seq<char>)
    ensures
        seq_char_le(a, a),
    decreases a.len(),
{
    if a.len() > 0 {
        lemma_seq_char_le_refl(a.drop_first());
    }
}

/// The order is transitive.
pub proof fn lemma_seq_char_le_trans(a: Seq<char>, b: Seq<char>, c: Seq<char>)
    requires
        seq_char_le(a, b),
        seq_char_le(b, c),
    ensures
        seq_char_le(a, c),
    decreases a.len(),
{
    if a.len() > 0 && b.len() > 0 && c.len() > 0 {
        if (a[0] as u32) == (b[0] as u32) && (b[0] as u32) == (c[0] as u32) {
            lemma_char_inj(a[0], b[0]);
            lemma_char_inj(b[0], c[0]);
            lemma_seq_char_le_trans(a.drop_first(), b.drop_first(), c.drop_first());
        }
    }
}

/// True when `a` precedes `b` or equals it, in id order.
pub fn string_le(a: &String, b: &String) -> (r: bool)
    ensures
        r == seq_char_le(a@, b@),
{
    let an = a.as_str().unicode_len();
    let bn = b.as_str().unicode_len();
    proof {
        assert(a@.skip(0) =~= a@);
        assert(b@.skip(0) =~= b@);
    }
    let mut i: usize = 0;
    while i < an && i < bn
        invariant
            an == a@.len(),
            bn == b@.len(),
            i <= an,
            i <= bn,
            seq_char_le(a@, b@) == seq_char_le(a@.skip(i as int), b@.skip(i as int)),
            seq_char_le(b@, a@) == seq_char_le(b@.skip(i as int), a@.skip(i as int)),
        decreases an - i,
    {
        let ca = a.as_str().get_char(i);
        let cb = b.as_str().get_char(i);
        proof {
            assert(a@.skip(i as int)[0] == a@[i as int]);
            assert(b@.skip(i as int)[0] == b@[i as int]);
            assert(a@.skip(i as int).drop_first() =~= a@.skip(i + 1 as int));
            assert(b@.skip(i as int).drop_first() =~= b@.skip(i + 1 as int));
        }
        if (ca as u32) < (cb as u32) {
            return true;
        }
        if (ca as u32) > (cb as u32) {
            return false;
        }
        i += 1;
    }
    proof {
        if i >= an {
            assert(a@.skip(i as int).len() == 0);
        } else {
            assert(b@.skip(i as int).len() == 0);
            assert(a@.skip(i as int).len() > 0);
        }
    }
    an <= bn
}

/// The models of a record list: each record's id and document.
pub open spec fn records_view(s: Seq<(String, JsonValue)>) -> Seq<(Seq<char>, Jv)> {
    Seq::new(s.len(), |i: int| (s[i].0@, jv_of(s[i].1)))
}

/// The records are in id order.
pub open spec fn sorted_by_id(v: Seq<(Seq<char>, Jv)>) -> bool {
    forall|i: int, j: int| 0 <= i < j < v.len() ==> seq_char_le((#[trigger] v[i]).0, (#[trigger] v[j]).0)
}

/// Sorts a pass's records by id, in place.  The final order depends only
/// on the records themselves, never on the order completion produced them.
pub fn sort_records_by_id(records: &mut Vec<(String, JsonValue)>)
    ensures
        sorted_by_id(records_view(final(records)@)),
        records_view(final(records)@).to_multiset() == records_view(old(records)@).to_multiset(),
        final(records)@.len() == old(records)@.len(),
{
    let ghost m0 = records_view(old(records)@);
    let mut i: usize = 1;
    while i < records.len()
        invariant
            1 <= i <= records@.len() || records@.len() == 0,
            records@.len() == old(records)@.len(),
            records_view(records@).to_multiset() == m0.to_multiset(),
            m0 == records_view(old(records)@),
            forall|a: int, b: int|
                0 <= a < b < i && b < records@.len() ==> seq_char_le(
                    (#[trigger] records_view(records@)[a]).0,
                    (#[trigger] records_view(records@)[b]).0,
                ),
        decreases records@.len() - i,
    {
        let ghost mpre = records_view(records@);
        // find the insertion position within the sorted prefix
        let mut pos: usize = 0;
        while pos < i && string_le(&records[pos].0, &records[i].0)
            invariant
                pos <= i < records@.len(),
                forall|k: int| 0 <= k < pos ==> seq_char_le(
                    (#[trigger] records_view(records@)[k]).0,
                    records_view(records@)[i as int].0,
                ),
            decreases i - pos,
        {
            pos += 1;
        }
        let v = records.remove(i);
        let ghost mrem = records_view(records@);
        records.insert(pos, v);
        proof {
            broadcast use vstd::multiset::group_multiset_axioms;
            broadcast use vstd::seq_lib::group_to_multiset_ensures;

            let mafter = records_view(records@);
            assert(mrem =~= mpre.remove(i as int));
            assert(mafter =~= mrem.insert(pos as int, mpre[i as int]));
            to_multiset_remove(mpre, i as int);
            to_multiset_insert(mrem, pos as int, mpre[i as int]);
            assert(mpre.to_multiset().contains(mpre[i as int]));
            assert(mafter.to_multiset() =~= mpre.to_multiset());
            // the prefix 0..=i is sorted again
            assert forall|a: int, b: int|
                0 <= a < b < i + 1 && b < mafter.len() implies seq_char_le(
                (#[trigger] mafter[a]).0,
                (#[trigger] mafter[b]).0,
            ) by {
                lemma_insert_sorted(mpre, mafter, i as int, pos as int, a, b);
            }
        }
        i += 1;
    }
    proof {
        if records@.len() == 0 {
            assert(sorted_by_id(records_view(records@)));
        }
    }
}

/// After removing the element at `i` of a prefix-sorted list and inserting
/// it at `pos`, where everything before `pos` is at most the element and —
/// by the scan having stopped — the element is at most `records[pos]`, the
/// prefix one longer is sorted.
proof fn lemma_insert_sorted(
    mpre: Seq<(Seq<char>, Jv)>,
    mafter: Seq<(Seq<char>, Jv)>,
    i: int,
    pos: int,
    a: int,
    b: int,
)
    requires
        0 <= pos <= i < mpre.len(),
        mafter == mpre.remove(i).insert(pos, mpre[i]),
        forall|x: int, y: int|
            0 <= x < y < i ==> seq_char_le((#[trigger] mpre[x]).0, (#[trigger] mpre[y]).0),
        forall|k: int| 0 <= k < pos ==> seq_char_le((#[trigger] mpre[k]).0, mpre[i].0),
        pos < i ==> !seq_char_le(mpre[pos].0, mpre[i].0),
        0 <= a < b < i + 1,
        b < mafter.len(),
    ensures
        seq_char_le(mafter[a].0, mafter[b].0),
{
    let v = mpre[i];
    assert forall|k: int| 0 <= k < i + 1 implies (#[trigger] mafter[k]) == (if k < pos {
        mpre[k]
    } else if k == pos {
        v
    } else {
        mpre[k - 1]
    }) by {
        assert(mafter[k] == mpre.remove(i).insert(pos, v)[k]);
    }
    if b < pos {
        // both from the sorted prefix
    } else if b == pos {
        // mafter[a] == mpre[a] with a < pos, and mafter[b] == v
    } else if a < pos {
        // mafter[b] == mpre[b - 1] with a < pos <= b - 1 < i
        if a == b - 1 {
            lemma_seq_char_le_refl(mpre[a].0);
        }
    } else if a == pos {
        // mafter[a] == v, mafter[b] == mpre[b - 1] with pos <= b - 1 < i
        lemma_seq_char_le_total(mpre[pos].0, v.0);
        if b - 1 == pos {
        } else {
            lemma_seq_char_le_trans(v.0, mpre[pos].0, mpre[b - 1].0);
        }
    } else {
        // both shifted out of the sorted prefix
    }
}

/// Two complete pass outputs over the same records, each sorted by id with
/// no id repeated, are identical: a resumed run rewrites the same bytes.
pub proof fn lemma_sorted_output_unique(x: Seq<(Seq<char>, Jv)>, y: Seq<(Seq<char>, Jv)>)
    requires
        sorted_by_id(x),
        sorted_by_id(y),
        x.to_multiset() == y.to_multiset(),
        forall|i: int, j: int| 0 <= i < j < x.len() ==> (#[trigger] x[i]).0 != (#[trigger] x[j]).0,
    ensures
        x == y,
    decreases x.len(),
{
    broadcast use vstd::seq_lib::group_to_multiset_ensures;
    broadcast use vstd::multiset::group_multiset_axioms;

    vstd::seq_lib::lemma_multiset_commutative(x, y);
    if x.len() == 0 {
        to_multiset_len_zero(x, y);
    } else {
        assert(x.to_multiset().contains(x[0]));
        assert(y.to_multiset().contains(x[0]));
        let j = choose|j: int| 0 <= j < y.len() && y[j] == x[0];
        assert(y.to_multiset().contains(y[0]));
        assert(x.to_multiset().contains(y[0]));
        let k = choose|k: int| 0 <= k < x.len() && x[k] == y[0];
        // each head is at most the other, so the head ids are equal
        assert(seq_char_le(y[0].0, x[0].0)) by {
            if j == 0 {
                lemma_seq_char_le_refl(y[0].0);
            }
        }
        assert(seq_char_le(x[0].0, y[0].0)) by {
            if k == 0 {
                lemma_seq_char_le_refl(x[0].0);
            }
        }
        lemma_seq_char_le_antisym(x[0].0, y[0].0);
        // with distinct ids, equal ids mean the same record
        if k != 0 {
            assert(x[k] == y[0]);
            assert(x[k].0 == x[0].0);
            assert(false);
        }
        assert(x[0] == y[0]);
        to_multiset_remove(x, 0);
        to_multiset_remove(y, 0);
        assert(x.remove(0) =~= x.drop_first());
        assert(y.remove(0) =~= y.drop_first());
        assert(x.drop_first().to_multiset() =~= x.to_multiset().remove(x[0]));
        assert(y.drop_first().to_multiset() =~= y.to_multiset().remove(y[0]));
        assert forall|a: int, b: int|
            0 <= a < b < x.drop_first().len() implies (#[trigger] x.drop_first()[a]).0 != (
        #[trigger] x.drop_first()[b]).0 by {
            assert(x.drop_first()[a] == x[a + 1]);
            assert(x.drop_first()[b] == x[b + 1]);
        }
        assert forall|a: int, b: int|
            0 <= a < b < x.drop_first().len() implies seq_char_le(
            (#[trigger] x.drop_first()[a]).0,
            (#[trigger] x.drop_first()[b]).0,
        ) by {
            assert(x.drop_first()[a] == x[a + 1]);
            assert(x.drop_first()[b] == x[b + 1]);
        }
        assert forall|a: int, b: int|
            0 <= a < b < y.drop_first().len() implies seq_char_le(
            (#[trigger] y.drop_first()[a]).0,
            (#[trigger] y.drop_first()[b]).0,
        ) by {
            assert(y.drop_first()[a] == y[a + 1]);
            assert(y.drop_first()[b] == y[b + 1]);
        }
        lemma_sorted_output_unique(x.drop_first(), y.drop_first());
        assert forall|t: int| 0 <= t < x.len() implies x[t] == y[t] by {
            if t > 0 {
                assert(x.drop_first()[t - 1] == x[t]);
                assert(y.drop_first()[t - 1] == y[t]);
            }
        }
        assert(x.len() == y.len());
        assert(x =~= y);
    }
}

/// Sequences with equal multisets have equal lengths; a zero-length one
/// pairs with a zero-length one.
proof fn to_multiset_len_zero(x: Seq<(Seq<char>, Jv)>, y: Seq<(Seq<char>, Jv)>)
    requires
        x.to_multiset() == y.to_multiset(),
        x.len() == 0,
    ensures
        x == y,
{
    broadcast use vstd::seq_lib::group_to_multiset_ensures;

    assert(x.to_multiset().len() == 0);
    assert(y.to_multiset().len() == y.len());
    assert(x =~= y);
}

/// How many completions sit between two checkpoint flushes.
pub open spec fn spec_flush_interval() -> int {
    10
}

/// True when a pass should flush its accumulator: after every tenth
/// completion, so a crash loses at most a small, bounded amount of work.
pub fn due_for_flush(completed: usize) -> (r: bool)
    ensures
        r == (completed as int % spec_flush_interval() == 0),
{
    completed % 10 == 0
}

} // verus!
