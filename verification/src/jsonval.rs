//! An owned model of JSON documents.
//!
//! Benchmark documents (dataset entries, ground-truth answers, decoded model
//! output) are held as [`JsonValue`] trees.  Object members keep their
//! insertion order; a non-integer number is carried as its literal text, so
//! that the tree itself stays free of floating point.

use crate::strutil::{string_eq, string_eq_lit};
use vstd::prelude::*;

verus! {

/// Mathematical model of a JSON document: the view of [`JsonValue`].
#[verifier::ext_equal]
pub enum Jv {
    Null,
    Bool(bool),
    Int(int),
    NumText(Seq<char>),
    Str(Seq<char>),
    Arr(Seq<Jv>),
    Obj(Seq<(Seq<char>, Jv)>),
}

/// An owned JSON document.  Arrays and objects own their children; an object
/// is an ordered list of members, as the documents on disk are ordered.
#[derive(Debug)]
pub enum JsonValue {
    Null,
    Bool(bool),
    Int(i64),
    NumText(String),
    Str(String),
    Arr(Vec<JsonValue>),
    Obj(Vec<(String, JsonValue)>),
}

/// The model of an exec JSON tree.
pub open spec fn jv_of(v: JsonValue) -> Jv
    decreases v,
{
    match v {
        JsonValue::Null => Jv::Null,
        JsonValue::Bool(b) => Jv::Bool(b),
        JsonValue::Int(i) => Jv::Int(i as int),
        JsonValue::NumText(s) => Jv::NumText(s@),
        JsonValue::Str(s) => Jv::Str(s@),
        JsonValue::Arr(items) => Jv::Arr(jv_of_seq(items@)),
        JsonValue::Obj(fields) => Jv::Obj(jv_of_fields(fields@)),
    }
}

/// The models of the elements of a JSON array.
pub open spec fn jv_of_seq(items: Seq<JsonValue>) -> Seq<Jv>
    decreases items,
{
    if items.len() == 0 {
        Seq::empty()
    } else {
        seq![jv_of(items[0])] + jv_of_seq(items.drop_first())
    }
}

/// The models of the members of a JSON object.
pub open spec fn jv_of_fields(fields: Seq<(String, JsonValue)>) -> Seq<(Seq<char>, Jv)>
    decreases fields,
{
    if fields.len() == 0 {
        Seq::empty()
    } else {
        seq![(fields[0].0@, jv_of(fields[0].1))] + jv_of_fields(fields.drop_first())
    }
}

/// `jv_of_seq` maps the elements one by one.
pub broadcast proof fn lemma_jv_of_seq_index(items: Seq<JsonValue>)
    ensures
        (#[trigger] jv_of_seq(items)).len() == items.len(),
        forall|i: int| 0 <= i < items.len() ==> jv_of_seq(items)[i] == jv_of(items[i]),
    decreases items.len(),
{
    if items.len() > 0 {
        lemma_jv_of_seq_index(items.drop_first());
        assert forall|i: int| 0 <= i < items.len() implies jv_of_seq(items)[i] == jv_of(
            items[i],
        ) by {
            if i > 0 {
                assert(items.drop_first()[i - 1] == items[i]);
            }
        }
    }
}

/// `jv_of_fields` maps the members one by one.
pub broadcast proof fn lemma_jv_of_fields_index(fields: Seq<(String, JsonValue)>)
    ensures
        (#[trigger] jv_of_fields(fields)).len() == fields.len(),
        forall|i: int| 0 <= i < fields.len()
            ==> jv_of_fields(fields)[i] == (fields[i].0@, jv_of(fields[i].1)),
    decreases fields.len(),
{
    if fields.len() > 0 {
        lemma_jv_of_fields_index(fields.drop_first());
        assert forall|i: int| 0 <= i < fields.len() implies jv_of_fields(fields)[i] == (
            fields[i].0@,
            jv_of(fields[i].1),
        ) by {
            if i > 0 {
                assert(fields.drop_first()[i - 1] == fields[i]);
            }
        }
    }
}

impl View for JsonValue {
    type V = Jv;

    open spec fn view(&self) -> Jv {
        jv_of(*self)
    }
}

impl DeepView for JsonValue {
    type V = Jv;

    open spec fn deep_view(&self) -> Jv {
        jv_of(*self)
    }
}

/// Structural equality of two JSON trees.
pub fn jv_eq(a: &JsonValue, b: &JsonValue) -> (r: bool)
    ensures
        r == (a@ == b@),
    decreases *a,
{
    match a {
        JsonValue::Null => matches!(b, JsonValue::Null),
        JsonValue::Bool(x) => match b {
            JsonValue::Bool(y) => x == y,
            _ => false,
        },
        JsonValue::Int(x) => match b {
            JsonValue::Int(y) => x == y,
            _ => false,
        },
        JsonValue::NumText(x) => match b {
            JsonValue::NumText(y) => (*x) == (*y),
            _ => false,
        },
        JsonValue::Str(x) => match b {
            JsonValue::Str(y) => (*x) == (*y),
            _ => false,
        },
        JsonValue::Arr(xs) => match b {
            JsonValue::Arr(ys) => {
                proof {
                    assert(decreases_to!(*a => *xs));
                }
                jv_eq_vec(xs, ys)
            },
            _ => false,
        },
        JsonValue::Obj(xs) => match b {
            JsonValue::Obj(ys) => {
                proof {
                    assert(decreases_to!(*a => *xs));
                }
                jv_eq_fields(xs, ys)
            },
            _ => false,
        },
    }
}

/// Structural equality of the elements of two JSON arrays.
fn jv_eq_vec(xs: &Vec<JsonValue>, ys: &Vec<JsonValue>) -> (r: bool)
    ensures
        r == (jv_of_seq(xs@) == jv_of_seq(ys@)),
    decreases *xs,
{
    proof {
        lemma_jv_of_seq_index(xs@);
        lemma_jv_of_seq_index(ys@);
    }
    if xs.len() != ys.len() {
        return false;
    }
    let n = xs.len();
    let mut i: usize = 0;
    while i < n
        invariant
            n == xs@.len() == ys@.len(),
            i <= n,
            forall|k: int| 0 <= k < i ==> jv_of(xs@[k]) == jv_of(ys@[k]),
        decreases n - i,
    {
        proof {
            broadcast use vstd::std_specs::vec::group_vec_axioms;

            assert(decreases_to!(*xs => xs@[i as int]));
        }
        if !jv_eq(&xs[i], &ys[i]) {
            proof {
                lemma_jv_of_seq_index(xs@);
                lemma_jv_of_seq_index(ys@);
                assert(jv_of_seq(xs@)[i as int] != jv_of_seq(ys@)[i as int]);
            }
            return false;
        }
        i += 1;
    }
    proof {
        assert(jv_of_seq(xs@) =~= jv_of_seq(ys@)) by {
            lemma_jv_of_seq_index(xs@);
            lemma_jv_of_seq_index(ys@);
        }
    }
    true
}

/// Structural equality of the members of two JSON objects.
fn jv_eq_fields(xs: &Vec<(String, JsonValue)>, ys: &Vec<(String, JsonValue)>) -> (r: bool)
    ensures
        r == (jv_of_fields(xs@) == jv_of_fields(ys@)),
    decreases *xs,
{
    proof {
        lemma_jv_of_fields_index(xs@);
        lemma_jv_of_fields_index(ys@);
    }
    if xs.len() != ys.len() {
        return false;
    }
    let n = xs.len();
    let mut i: usize = 0;
    while i < n
        invariant
            n == xs@.len() == ys@.len(),
            i <= n,
            forall|k: int| 0 <= k < i ==> xs@[k].0@ == ys@[k].0@ && jv_of(xs@[k].1) == jv_of(
                ys@[k].1,
            ),
        decreases n - i,
    {
        proof {
            broadcast use vstd::std_specs::vec::group_vec_axioms;

            lemma_jv_of_fields_index(xs@);
            lemma_jv_of_fields_index(ys@);
            assert(decreases_to!(*xs => xs@[i as int]));
            assert(decreases_to!(xs@[i as int] => xs@[i as int].1));
        }
        if xs[i].0 != ys[i].0 {
            assert(jv_of_fields(xs@)[i as int] != jv_of_fields(ys@)[i as int]);
            return false;
        }
        if !jv_eq(&xs[i].1, &ys[i].1) {
            assert(jv_of_fields(xs@)[i as int] != jv_of_fields(ys@)[i as int]);
            return false;
        }
        i += 1;
    }
    proof {
        assert(jv_of_fields(xs@) =~= jv_of_fields(ys@)) by {
            lemma_jv_of_fields_index(xs@);
            lemma_jv_of_fields_index(ys@);
        }
    }
    true
}

} // verus!


verus! {

/// The value under `key` in an object member list: the first member with
/// that key, scanning in order.
pub open spec fn obj_lookup(fields: Seq<(Seq<char>, Jv)>, key: Seq<char>) -> Option<Jv>
    decreases fields.len(),
{
    if fields.len() == 0 {
        None
    } else if fields[0].0 == key {
        Some(fields[0].1)
    } else {
        obj_lookup(fields.drop_first(), key)
    }
}

/// The value under `key`, when the tree is an object holding that key.
pub open spec fn jv_get(v: Jv, key: Seq<char>) -> Option<Jv> {
    match v {
        Jv::Obj(fields) => obj_lookup(fields, key),
        _ => None,
    }
}

/// The member list with the first member keyed `key` replaced by
/// `(key, val)`, or with `(key, val)` appended when no member has that key.
pub open spec fn obj_set(fields: Seq<(Seq<char>, Jv)>, key: Seq<char>, val: Jv) -> Seq<
    (Seq<char>, Jv),
>
    decreases fields.len(),
{
    if fields.len() == 0 {
        seq![(key, val)]
    } else if fields[0].0 == key {
        seq![(key, val)] + fields.drop_first()
    } else {
        seq![fields[0]] + obj_set(fields.drop_first(), key, val)
    }
}

/// A deep copy of a JSON tree, with the same model.
pub fn jv_clone(v: &JsonValue) -> (r: JsonValue)
    ensures
        r@ == v@,
    decreases *v,
{
    match v {
        JsonValue::Null => JsonValue::Null,
        JsonValue::Bool(b) => JsonValue::Bool(*b),
        JsonValue::Int(i) => JsonValue::Int(*i),
        JsonValue::NumText(s) => JsonValue::NumText(s.clone()),
        JsonValue::Str(s) => JsonValue::Str(s.clone()),
        JsonValue::Arr(items) => {
            proof {
                assert(decreases_to!(*v => *items));
            }
            JsonValue::Arr(jv_clone_vec(items))
        },
        JsonValue::Obj(fields) => {
            proof {
                assert(decreases_to!(*v => *fields));
            }
            JsonValue::Obj(jv_clone_fields(fields))
        },
    }
}

/// A deep copy of the elements of a JSON array.
pub fn jv_clone_vec(xs: &Vec<JsonValue>) -> (r: Vec<JsonValue>)
    ensures
        jv_of_seq(r@) == jv_of_seq(xs@),
        r@.len() == xs@.len(),
    decreases *xs,
{
    let mut out: Vec<JsonValue> = Vec::new();
    let mut i: usize = 0;
    while i < xs.len()
        invariant
            i <= xs@.len(),
            out@.len() == i,
            forall|k: int| 0 <= k < i ==> jv_of(out@[k]) == jv_of(xs@[k]),
        decreases xs@.len() - i,
    {
        proof {
            broadcast use vstd::std_specs::vec::group_vec_axioms;

            assert(decreases_to!(*xs => xs@[i as int]));
        }
        let c = jv_clone(&xs[i]);
        out.push(c);
        i += 1;
    }
    proof {
        lemma_jv_of_seq_index(out@);
        lemma_jv_of_seq_index(xs@);
        assert(jv_of_seq(out@) =~= jv_of_seq(xs@));
    }
    out
}

/// A deep copy of the members of a JSON object.
pub fn jv_clone_fields(xs: &Vec<(String, JsonValue)>) -> (r: Vec<(String, JsonValue)>)
    ensures
        jv_of_fields(r@) == jv_of_fields(xs@),
        r@.len() == xs@.len(),
    decreases *xs,
{
    let mut out: Vec<(String, JsonValue)> = Vec::new();
    let mut i: usize = 0;
    while i < xs.len()
        invariant
            i <= xs@.len(),
            out@.len() == i,
            forall|k: int| 0 <= k < i ==> out@[k].0@ == xs@[k].0@ && jv_of(out@[k].1) == jv_of(
                xs@[k].1,
            ),
        decreases xs@.len() - i,
    {
        proof {
            broadcast use vstd::std_specs::vec::group_vec_axioms;

            assert(decreases_to!(*xs => xs@[i as int]));
            assert(decreases_to!(xs@[i as int] => xs@[i as int].1));
        }
        let k = xs[i].0.clone();
        let c = jv_clone(&xs[i].1);
        out.push((k, c));
        i += 1;
    }
    proof {
        lemma_jv_of_fields_index(out@);
        lemma_jv_of_fields_index(xs@);
        assert(jv_of_fields(out@) =~= jv_of_fields(xs@));
    }
    out
}

/// Looks a key up in an object tree; `None` when the tree is no object or
/// has no such member.
pub fn obj_get<'a>(v: &'a JsonValue, key: &str) -> (r: Option<&'a JsonValue>)
    ensures
        match r {
            Some(c) => jv_get(v@, key@) == Some(c@) && decreases_to!(*v => *c),
            None => jv_get(v@, key@) is None,
        },
{
    match v {
        JsonValue::Obj(fields) => {
            let ghost m = jv_of_fields(fields@);
            proof {
                lemma_jv_of_fields_index(fields@);
                assert(m.skip(0) =~= m);
            }
            let mut i: usize = 0;
            while i < fields.len()
                invariant
                    i <= fields@.len(),
                    m == jv_of_fields(fields@),
                    v@ == Jv::Obj(m),
                    *v == JsonValue::Obj(*fields),
                    m.len() == fields@.len(),
                    forall|k: int| 0 <= k < m.len() ==> m[k] == (fields@[k].0@, jv_of(
                        fields@[k].1,
                    )),
                    obj_lookup(m, key@) == obj_lookup(m.skip(i as int), key@),
                decreases fields@.len() - i,
            {
                if string_eq_lit(&fields[i].0, key) {
                    proof {
                        broadcast use vstd::std_specs::vec::group_vec_axioms;

                        assert(m.skip(i as int)[0] == m[i as int]);
                        assert(obj_lookup(m.skip(i as int), key@) == Some(m[i as int].1));
                        assert(decreases_to!(*fields => fields@[i as int]));
                        assert(decreases_to!(fields@[i as int] => fields@[i as int].1));
                    }
                    return Some(&fields[i].1);
                }
                proof {
                    assert(m.skip(i as int)[0] == m[i as int]);
                    assert(m.skip(i as int).drop_first() =~= m.skip(i + 1 as int));
                }
                i += 1;
            }
            proof {
                assert(m.skip(fields@.len() as int).len() == 0);
            }
            None
        },
        _ => None,
    }
}

/// Returns the member list with `key` set to `val`: the first member with
/// that key is replaced, or the pair is appended when the key is absent.
pub fn obj_set_fields(fields: &Vec<(String, JsonValue)>, key: String, val: JsonValue) -> (r: Vec<
    (String, JsonValue),
>)
    ensures
        jv_of_fields(r@) == obj_set(jv_of_fields(fields@), key@, val@),
{
    let ghost m = jv_of_fields(fields@);
    let mut out: Vec<(String, JsonValue)> = Vec::new();
    proof {
        lemma_jv_of_fields_index(fields@);
        assert(out@ =~= Seq::<(String, JsonValue)>::empty());
        assert(jv_of_fields(out@) =~= m.subrange(0, 0));
    }
    let mut i: usize = 0;
    while i < fields.len()
        invariant
            i <= fields@.len(),
            m == jv_of_fields(fields@),
            m.len() == fields@.len(),
            forall|k: int| 0 <= k < m.len() ==> m[k] == (fields@[k].0@, jv_of(fields@[k].1)),
            forall|k: int| 0 <= k < i ==> m[k].0 != key@,
            jv_of_fields(out@) == m.subrange(0, i as int),
        decreases fields@.len() - i,
    {
        proof {
            broadcast use vstd::std_specs::vec::group_vec_axioms;

            assert(decreases_to!(*fields => fields@[i as int]));
            assert(decreases_to!(fields@[i as int] => fields@[i as int].1));
        }
        if string_eq(&fields[i].0, &key) {
            // replace the value of the first member keyed `key`
            let mut res = jv_clone_fields_prefix(fields, i);
            let ghost res0 = res@;
            res.push((key, val));
            proof {
                lemma_jv_of_fields_snoc(res0, (key, val));
                assert(res@ == res0.push((key, val)));
                assert(m.subrange(i + 1, i + 1 as int) =~= Seq::<(Seq<char>, Jv)>::empty());
                assert(jv_of_fields(res@) =~= m.subrange(0, i as int) + seq![(key@, val@)]
                    + m.subrange(i + 1, i + 1 as int));
            }
            let mut j: usize = i + 1;
            while j < fields.len()
                invariant
                    i < j <= fields@.len(),
                    m == jv_of_fields(fields@),
                    m.len() == fields@.len(),
                    forall|k: int| 0 <= k < m.len() ==> m[k] == (fields@[k].0@, jv_of(
                        fields@[k].1,
                    )),
                    jv_of_fields(res@) == m.subrange(0, i as int) + seq![(key@, val@)]
                        + m.subrange(i + 1, j as int),
                decreases fields@.len() - j,
            {
                proof {
                    broadcast use vstd::std_specs::vec::group_vec_axioms;

                    assert(decreases_to!(*fields => fields@[j as int]));
                    assert(decreases_to!(fields@[j as int] => fields@[j as int].1));
                }
                let k2 = fields[j].0.clone();
                let c2 = jv_clone(&fields[j].1);
                let ghost prev = res@;
                let ghost kv = (k2, c2);
                res.push((k2, c2));
                proof {
                    lemma_jv_of_fields_snoc(prev, kv);
                    assert(res@ == prev.push(kv));
                    assert(kv.0@ == m[j as int].0 && jv_of(kv.1) == m[j as int].1);
                    assert(jv_of_fields(res@) =~= m.subrange(0, i as int) + seq![(key@, val@)]
                        + m.subrange(i + 1, j + 1 as int));
                }
                j += 1;
            }
            proof {
                lemma_obj_set_found(m, key@, val@, i as int);
                assert(m.subrange(i + 1, m.len() as int) =~= m.skip(i + 1 as int));
                assert(jv_of_fields(res@) =~= obj_set(m, key@, val@));
            }
            return res;
        }
        let k1 = fields[i].0.clone();
        let c1 = jv_clone(&fields[i].1);
        let ghost prev = out@;
        let ghost kv = (k1, c1);
        out.push((k1, c1));
        proof {
            lemma_jv_of_fields_snoc(prev, kv);
            assert(out@ == prev.push(kv));
            assert(kv.0@ == m[i as int].0 && jv_of(kv.1) == m[i as int].1);
            assert(jv_of_fields(out@) =~= m.subrange(0, i + 1 as int));
        }
        i += 1;
    }
    let ghost prev = out@;
    let ghost kv = (key, val);
    out.push((key, val));
    proof {
        lemma_jv_of_fields_snoc(prev, kv);
        assert(out@ == prev.push(kv));
        lemma_obj_set_absent(m, key@, val@);
        assert(m.subrange(0, m.len() as int) =~= m);
        assert(jv_of_fields(out@) =~= obj_set(m, key@, val@));
    }
    out
}

/// A deep copy of the first `n` members of an object member list.
fn jv_clone_fields_prefix(xs: &Vec<(String, JsonValue)>, n: usize) -> (r: Vec<
    (String, JsonValue),
>)
    requires
        n <= xs@.len(),
    ensures
        jv_of_fields(r@) == jv_of_fields(xs@).subrange(0, n as int),
    decreases *xs,
{
    let mut out: Vec<(String, JsonValue)> = Vec::new();
    let mut i: usize = 0;
    while i < n
        invariant
            i <= n <= xs@.len(),
            out@.len() == i,
            forall|k: int| 0 <= k < i ==> out@[k].0@ == xs@[k].0@ && jv_of(out@[k].1) == jv_of(
                xs@[k].1,
            ),
        decreases n - i,
    {
        proof {
            broadcast use vstd::std_specs::vec::group_vec_axioms;

            assert(decreases_to!(*xs => xs@[i as int]));
            assert(decreases_to!(xs@[i as int] => xs@[i as int].1));
        }
        let k = xs[i].0.clone();
        let c = jv_clone(&xs[i].1);
        out.push((k, c));
        i += 1;
    }
    proof {
        lemma_jv_of_fields_index(out@);
        lemma_jv_of_fields_index(xs@);
        assert(jv_of_fields(out@) =~= jv_of_fields(xs@).subrange(0, n as int));
    }
    out
}

/// Appending one member appends its model.
pub proof fn lemma_jv_of_fields_snoc(fields: Seq<(String, JsonValue)>, f: (String, JsonValue))
    ensures
        jv_of_fields(fields.push(f)) == jv_of_fields(fields) + seq![(f.0@, jv_of(f.1))],
    decreases fields.len(),
{
    if fields.len() == 0 {
        assert(fields.push(f).drop_first() =~= fields);
        assert(jv_of_fields(fields.push(f)) =~= jv_of_fields(fields) + seq![(f.0@, jv_of(f.1))]);
    } else {
        lemma_jv_of_fields_snoc(fields.drop_first(), f);
        assert(fields.push(f).drop_first() =~= fields.drop_first().push(f));
        assert(fields.push(f)[0] == fields[0]);
        assert(jv_of_fields(fields.push(f)) =~= jv_of_fields(fields) + seq![(f.0@, jv_of(f.1))]);
    }
}

/// Appending one element appends its model.
pub proof fn lemma_jv_of_seq_snoc(items: Seq<JsonValue>, x: JsonValue)
    ensures
        jv_of_seq(items.push(x)) == jv_of_seq(items) + seq![jv_of(x)],
    decreases items.len(),
{
    if items.len() == 0 {
        assert(items.push(x).drop_first() =~= items);
        assert(jv_of_seq(items.push(x)) =~= jv_of_seq(items) + seq![jv_of(x)]);
    } else {
        lemma_jv_of_seq_snoc(items.drop_first(), x);
        assert(items.push(x).drop_first() =~= items.drop_first().push(x));
        assert(items.push(x)[0] == items[0]);
        assert(jv_of_seq(items.push(x)) =~= jv_of_seq(items) + seq![jv_of(x)]);
    }
}

/// `obj_set` on a list whose first `i` keys differ from `key`, where member
/// `i` has that key: the prefix stays, the member is replaced.
proof fn lemma_obj_set_found(m: Seq<(Seq<char>, Jv)>, key: Seq<char>, val: Jv, i: int)
    requires
        0 <= i < m.len(),
        m[i].0 == key,
        forall|k: int| 0 <= k < i ==> m[k].0 != key,
    ensures
        obj_set(m, key, val) == m.subrange(0, i) + seq![(key, val)] + m.skip(i + 1),
    decreases i,
{
    if i == 0 {
        assert(obj_set(m, key, val) == seq![(key, val)] + m.drop_first());
        assert(m.subrange(0, 0) + seq![(key, val)] + m.skip(1) =~= seq![(key, val)]
            + m.drop_first());
    } else {
        lemma_obj_set_found(m.drop_first(), key, val, i - 1);
        assert(m.drop_first().subrange(0, i - 1) =~= m.subrange(1, i));
        assert(m.drop_first().skip(i) =~= m.skip(i + 1));
        assert(obj_set(m, key, val) == seq![m[0]] + obj_set(m.drop_first(), key, val));
        assert(seq![m[0]] + (m.subrange(1, i) + seq![(key, val)] + m.skip(i + 1)) =~= m.subrange(
            0,
            i,
        ) + seq![(key, val)] + m.skip(i + 1));
    }
}

/// `obj_set` on a list without the key appends the pair.
proof fn lemma_obj_set_absent(m: Seq<(Seq<char>, Jv)>, key: Seq<char>, val: Jv)
    requires
        forall|k: int| 0 <= k < m.len() ==> m[k].0 != key,
    ensures
        obj_set(m, key, val) == m + seq![(key, val)],
    decreases m.len(),
{
    if m.len() == 0 {
        assert(obj_set(m, key, val) =~= m + seq![(key, val)]);
    } else {
        lemma_obj_set_absent(m.drop_first(), key, val);
        assert(seq![m[0]] + (m.drop_first() + seq![(key, val)]) =~= m + seq![(key, val)]);
    }
}

} // verus!
