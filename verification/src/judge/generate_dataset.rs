//! The multilingual multiple-choice source entries that the judge datasets
//! are generated from, and their strict parse.

use crate::jsonval::{jv_get, jv_of_seq, obj_get, JsonValue, Jv};
use vstd::prelude::*;

verus! {

/// One multilingual multiple-choice source case.
#[derive(Debug)]
pub struct MmmluDatasetEntry {
    pub original_index: usize,
    pub question: String,
    pub choices: [String; 4],
    pub answer: usize,
    pub subject: String,
}

/// Model of an [`MmmluDatasetEntry`].
#[verifier::ext_equal]
pub struct MmmluDatasetEntryV {
    pub original_index: int,
    pub question: Seq<char>,
    pub choices: Seq<Seq<char>>,
    pub answer: int,
    pub subject: Seq<char>,
}

impl View for MmmluDatasetEntry {
    type V = MmmluDatasetEntryV;

    open spec fn view(&self) -> MmmluDatasetEntryV {
        MmmluDatasetEntryV {
            original_index: self.original_index as int,
            question: self.question@,
            choices: seq![
                self.choices[0]@,
                self.choices[1]@,
                self.choices[2]@,
                self.choices[3]@,
            ],
            answer: self.answer as int,
            subject: self.subject@,
        }
    }
}

/// The source case a JSON document describes: `original_index` and
/// `answer` as non-negative machine integers, a question, exactly four
/// choice strings, and a subject.
pub open spec fn mmmlu_entry_of_jv(v: Jv) -> Option<MmmluDatasetEntryV> {
    let idx = jv_get(v, "original_index"@);
    let q = jv_get(v, "question"@);
    let cs = jv_get(v, "choices"@);
    let a = jv_get(v, "answer"@);
    let subj = jv_get(v, "subject"@);
    if !(idx matches Some(Jv::Int(i)) && 0 <= i <= usize::MAX) {
        None
    } else if !(q matches Some(Jv::Str(_))) {
        None
    } else if !(cs matches Some(Jv::Arr(items)) && items.len() == 4 && items[0] is Str
        && items[1] is Str && items[2] is Str && items[3] is Str) {
        None
    } else if !(a matches Some(Jv::Int(i)) && 0 <= i <= usize::MAX) {
        None
    } else if !(subj matches Some(Jv::Str(_))) {
        None
    } else {
        Some(
            MmmluDatasetEntryV {
                original_index: idx->0->Int_0,
                question: q->0->Str_0,
                choices: seq![
                    cs->0->Arr_0[0]->Str_0,
                    cs->0->Arr_0[1]->Str_0,
                    cs->0->Arr_0[2]->Str_0,
                    cs->0->Arr_0[3]->Str_0,
                ],
                answer: a->0->Int_0,
                subject: subj->0->Str_0,
            },
        )
    }
}

/// The message a failed source-case parse reports, naming the offending
/// field, by the check that failed first.
pub open spec fn mmmlu_err_msg(v: Jv) -> Seq<char> {
    match jv_get(v, "original_index"@) {
        Some(Jv::Int(i)) => if !(0 <= i <= usize::MAX) {
            "'original_index' out of range"@
        } else if !(jv_get(v, "question"@) matches Some(Jv::Str(_))) {
            "Missing or invalid 'question' field"@
        } else {
            match jv_get(v, "choices"@) {
                Some(Jv::Arr(items)) => if !(items.len() == 4 && items[0] is Str && items[1] is Str
                    && items[2] is Str && items[3] is Str) {
                    "'choices' should hold four strings"@
                } else {
                    match jv_get(v, "answer"@) {
                        Some(Jv::Int(a)) => if !(0 <= a <= usize::MAX) {
                            "'answer' out of range"@
                        } else if !(jv_get(v, "subject"@) matches Some(Jv::Str(_))) {
                            "Missing or invalid 'subject' field"@
                        } else {
                            Seq::empty()
                        },
                        _ => "Missing or invalid 'answer' field"@,
                    }
                },
                _ => "Missing or invalid 'choices' field"@,
            }
        },
        _ => "Missing or invalid 'original_index' field"@,
    }
}

/// Parses one source case from its JSON document.
pub fn mmmlu_entry_from_json(v: &JsonValue) -> (r: Result<MmmluDatasetEntry, String>)
    ensures
        match r {
            Ok(e) => mmmlu_entry_of_jv(v@) == Some(e@),
            Err(m) => mmmlu_entry_of_jv(v@) is None && m@ == mmmlu_err_msg(v@),
        },
{
    let original_index: usize = match obj_get(v, "original_index") {
        Some(c) => match c {
            JsonValue::Int(i) => {
                if *i < 0 || (*i as u64) > (usize::MAX as u64) {
                    return Err(String::from_str("'original_index' out of range"));
                }
                *i as usize
            },
            _ => {
                return Err(String::from_str("Missing or invalid 'original_index' field"));
            },
        },
        None => {
            return Err(String::from_str("Missing or invalid 'original_index' field"));
        },
    };
    let question: String = match obj_get(v, "question") {
        Some(c) => match c {
            JsonValue::Str(s) => s.clone(),
            _ => {
                return Err(String::from_str("Missing or invalid 'question' field"));
            },
        },
        None => {
            return Err(String::from_str("Missing or invalid 'question' field"));
        },
    };
    let choices: [String; 4] = match obj_get(v, "choices") {
        Some(c) => match c {
            JsonValue::Arr(items) => {
                proof {
                    crate::jsonval::lemma_jv_of_seq_index(items@);
                }
                if items.len() != 4 {
                    return Err(String::from_str("'choices' should hold four strings"));
                }
                let c0 = match &items[0] {
                    JsonValue::Str(s) => s.clone(),
                    _ => {
                        return Err(String::from_str("'choices' should hold four strings"));
                    },
                };
                let c1 = match &items[1] {
                    JsonValue::Str(s) => s.clone(),
                    _ => {
                        return Err(String::from_str("'choices' should hold four strings"));
                    },
                };
                let c2 = match &items[2] {
                    JsonValue::Str(s) => s.clone(),
                    _ => {
                        return Err(String::from_str("'choices' should hold four strings"));
                    },
                };
                let c3 = match &items[3] {
                    JsonValue::Str(s) => s.clone(),
                    _ => {
                        return Err(String::from_str("'choices' should hold four strings"));
                    },
                };
                [c0, c1, c2, c3]
            },
            _ => {
                return Err(String::from_str("Missing or invalid 'choices' field"));
            },
        },
        None => {
            return Err(String::from_str("Missing or invalid 'choices' field"));
        },
    };
    let answer: usize = match obj_get(v, "answer") {
        Some(c) => match c {
            JsonValue::Int(i) => {
                if *i < 0 || (*i as u64) > (usize::MAX as u64) {
                    return Err(String::from_str("'answer' out of range"));
                }
                *i as usize
            },
            _ => {
                return Err(String::from_str("Missing or invalid 'answer' field"));
            },
        },
        None => {
            return Err(String::from_str("Missing or invalid 'answer' field"));
        },
    };
    let subject: String = match obj_get(v, "subject") {
        Some(c) => match c {
            JsonValue::Str(s) => s.clone(),
            _ => {
                return Err(String::from_str("Missing or invalid 'subject' field"));
            },
        },
        None => {
            return Err(String::from_str("Missing or invalid 'subject' field"));
        },
    };
    Ok(MmmluDatasetEntry { original_index, question, choices, answer, subject })
}

} // verus!
