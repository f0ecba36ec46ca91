//! The answer-translation walk.
//!
//! A post-translation pass translates the string values inside a call's
//! arguments — never the keys — at every nesting level.  The walk is split
//! around the translation calls: [`collect_string_leaves`] lists every
//! string leaf in order, the backend translates them, and
//! [`replace_string_leaves`] puts the translations back in the same
//! places.  [`skeleton`] pins down what must not change: everything about
//! the tree except the text of its string leaves.

use crate::jsonval::{jv_of, jv_of_fields, jv_of_seq, JsonValue, Jv};
use vstd::prelude::*;

verus! {

/// The tree with every string leaf blanked: what an answer translation
/// must leave untouched — structure, keys, and non-string values.
pub open spec fn skeleton(v: Jv) -> Jv
    decreases v,
{
    match v {
        Jv::Str(_) => Jv::Str(Seq::empty()),
        Jv::Arr(items) => Jv::Arr(skeleton_seq(items)),
        Jv::Obj(fields) => Jv::Obj(skeleton_fields(fields)),
        _ => v,
    }
}

/// The skeletons of an array's elements.
pub open spec fn skeleton_seq(items: Seq<Jv>) -> Seq<Jv>
    decreases items,
{
    if items.len() == 0 {
        Seq::empty()
    } else {
        seq![skeleton(items[0])] + skeleton_seq(items.drop_first())
    }
}

/// The skeletons of an object's members, keys kept.
pub open spec fn skeleton_fields(fields: Seq<(Seq<char>, Jv)>) -> Seq<(Seq<char>, Jv)>
    decreases fields,
{
    if fields.len() == 0 {
        Seq::empty()
    } else {
        seq![(fields[0].0, skeleton(fields[0].1))] + skeleton_fields(fields.drop_first())
    }
}

/// The string leaves of a tree, in walk order.
pub open spec fn string_leaves(v: Jv) -> Seq<Seq<char>>
    decreases v,
{
    match v {
        Jv::Str(s) => seq![s],
        Jv::Arr(items) => string_leaves_seq(items),
        Jv::Obj(fields) => string_leaves_fields(fields),
        _ => Seq::empty(),
    }
}

/// The string leaves of an array's elements, in order.
pub open spec fn string_leaves_seq(items: Seq<Jv>) -> Seq<Seq<char>>
    decreases items,
{
    if items.len() == 0 {
        Seq::empty()
    } else {
        string_leaves(items[0]) + string_leaves_seq(items.drop_first())
    }
}

/// The string leaves of an object's member values, in order.
pub open spec fn string_leaves_fields(fields: Seq<(Seq<char>, Jv)>) -> Seq<Seq<char>>
    decreases fields,
{
    if fields.len() == 0 {
        Seq::empty()
    } else {
        string_leaves(fields[0].1) + string_leaves_fields(fields.drop_first())
    }
}

/// Extending the element walk by one element.
proof fn lemma_string_leaves_seq_snoc(items: Seq<Jv>, x: Jv)
    ensures
        string_leaves_seq(items.push(x)) == string_leaves_seq(items) + string_leaves(x),
        skeleton_seq(items.push(x)) == skeleton_seq(items).push(skeleton(x)),
    decreases items.len(),
{
    if items.len() == 0 {
        assert(items.push(x)[0] == x);
        assert(items.push(x).drop_first() =~= items);
        assert(string_leaves_seq(items.push(x)) =~= string_leaves_seq(items) + string_leaves(x));
        assert(skeleton_seq(items.push(x)) =~= skeleton_seq(items).push(skeleton(x)));
    } else {
        lemma_string_leaves_seq_snoc(items.drop_first(), x);
        assert(items.push(x).drop_first() =~= items.drop_first().push(x));
        assert(items.push(x)[0] == items[0]);
        assert(string_leaves_seq(items.push(x)) =~= string_leaves_seq(items) + string_leaves(x));
        assert(skeleton_seq(items.push(x)) =~= skeleton_seq(items).push(skeleton(x)));
    }
}

/// Extending the member walk by one member.
proof fn lemma_string_leaves_fields_snoc(fields: Seq<(Seq<char>, Jv)>, f: (Seq<char>, Jv))
    ensures
        string_leaves_fields(fields.push(f)) == string_leaves_fields(fields) + string_leaves(f.1),
        skeleton_fields(fields.push(f)) == skeleton_fields(fields).push((f.0, skeleton(f.1))),
    decreases fields.len(),
{
    if fields.len() == 0 {
        assert(fields.push(f)[0] == f);
        assert(fields.push(f).drop_first() =~= fields);
        assert(string_leaves_fields(fields.push(f)) =~= string_leaves_fields(fields)
            + string_leaves(f.1));
        assert(skeleton_fields(fields.push(f)) =~= skeleton_fields(fields).push(
            (f.0, skeleton(f.1)),
        ));
    } else {
        lemma_string_leaves_fields_snoc(fields.drop_first(), f);
        assert(fields.push(f).drop_first() =~= fields.drop_first().push(f));
        assert(fields.push(f)[0] == fields[0]);
        assert(string_leaves_fields(fields.push(f)) =~= string_leaves_fields(fields)
            + string_leaves(f.1));
        assert(skeleton_fields(fields.push(f)) =~= skeleton_fields(fields).push(
            (f.0, skeleton(f.1)),
        ));
    }
}

/// Lists every string leaf of a tree, in walk order, for translation.
pub fn collect_string_leaves(v: &JsonValue, out: &mut Vec<String>)
    ensures
        final(out).deep_view() == old(out).deep_view() + string_leaves(v@),
    decreases *v,
{
    match v {
        JsonValue::Str(s) => {
            let ghost prev = out.deep_view();
            out.push(s.clone());
            proof {
                assert(out.deep_view() =~~= prev + string_leaves(v@));
            }
        },
        JsonValue::Arr(items) => {
            proof {
                assert(decreases_to!(*v => *items));
            }
            collect_from_items(items, out);
            proof {
                assert(out.deep_view() =~~= old(out).deep_view() + string_leaves(v@));
            }
        },
        JsonValue::Obj(fields) => {
            proof {
                assert(decreases_to!(*v => *fields));
            }
            collect_from_fields(fields, out);
            proof {
                assert(out.deep_view() =~~= old(out).deep_view() + string_leaves(v@));
            }
        },
        _ => {
            proof {
                assert(out.deep_view() =~~= out.deep_view() + string_leaves(v@));
            }
        },
    }
}

/// Lists the string leaves of an array's elements, in order.
fn collect_from_items(items: &Vec<JsonValue>, out: &mut Vec<String>)
    ensures
        final(out).deep_view() == old(out).deep_view() + string_leaves_seq(jv_of_seq(items@)),
    decreases *items,
{
    let ghost m = jv_of_seq(items@);
    let ghost base = out.deep_view();
    proof {
        crate::jsonval::lemma_jv_of_seq_index(items@);
        assert(m.subrange(0, 0) =~= Seq::<Jv>::empty());
        assert(out.deep_view() =~~= base + string_leaves_seq(m.subrange(0, 0)));
    }
    let mut i: usize = 0;
    while i < items.len()
        invariant
            i <= items@.len(),
            m == jv_of_seq(items@),
            m.len() == items@.len(),
            forall|k: int| 0 <= k < m.len() ==> m[k] == jv_of(items@[k]),
            out.deep_view() == base + string_leaves_seq(m.subrange(0, i as int)),
        decreases items@.len() - i,
    {
        proof {
            broadcast use vstd::std_specs::vec::group_vec_axioms;

            assert(decreases_to!(*items => items@[i as int]));
        }
        collect_string_leaves(&items[i], out);
        proof {
            lemma_string_leaves_seq_snoc(m.subrange(0, i as int), m[i as int]);
            assert(m.subrange(0, i as int).push(m[i as int]) =~= m.subrange(0, i + 1 as int));
            assert(out.deep_view() =~~= base + string_leaves_seq(m.subrange(0, i + 1 as int)));
        }
        i += 1;
    }
    proof {
        assert(m.subrange(0, m.len() as int) =~= m);
    }
}

/// Lists the string leaves of an object's member values, in order.
fn collect_from_fields(fields: &Vec<(String, JsonValue)>, out: &mut Vec<String>)
    ensures
        final(out).deep_view() == old(out).deep_view() + string_leaves_fields(
            jv_of_fields(fields@),
        ),
    decreases *fields,
{
    let ghost m = jv_of_fields(fields@);
    let ghost base = out.deep_view();
    proof {
        crate::jsonval::lemma_jv_of_fields_index(fields@);
        assert(m.subrange(0, 0) =~= Seq::<(Seq<char>, Jv)>::empty());
        assert(out.deep_view() =~~= base + string_leaves_fields(m.subrange(0, 0)));
    }
    let mut i: usize = 0;
    while i < fields.len()
        invariant
            i <= fields@.len(),
            m == jv_of_fields(fields@),
            m.len() == fields@.len(),
            forall|k: int| 0 <= k < m.len() ==> m[k] == (fields@[k].0@, jv_of(fields@[k].1)),
            out.deep_view() == base + string_leaves_fields(m.subrange(0, i as int)),
        decreases fields@.len() - i,
    {
        proof {
            broadcast use vstd::std_specs::vec::group_vec_axioms;

            assert(decreases_to!(*fields => fields@[i as int]));
            assert(decreases_to!(fields@[i as int] => fields@[i as int].1));
        }
        collect_string_leaves(&fields[i].1, out);
        proof {
            lemma_string_leaves_fields_snoc(m.subrange(0, i as int), m[i as int]);
            assert(m.subrange(0, i as int).push(m[i as int]) =~= m.subrange(0, i + 1 as int));
            assert(out.deep_view() =~~= base + string_leaves_fields(m.subrange(0, i + 1 as int)));
        }
        i += 1;
    }
    proof {
        assert(m.subrange(0, m.len() as int) =~= m);
    }
}

/// Rebuilds a tree with its string leaves replaced, in walk order, by
/// `replacements[k..]`: only the text of string leaves changes — the
/// skeleton, keys included, stays exactly as it was.  Returns the rebuilt
/// tree and the position after the leaves this subtree consumed.
pub fn replace_string_leaves(v: &JsonValue, replacements: &Vec<String>, k: usize) -> (r: (
    JsonValue,
    usize,
))
    requires
        k + string_leaves(v@).len() <= replacements@.len(),
    ensures
        r.1 == k + string_leaves(v@).len(),
        skeleton(r.0@) == skeleton(v@),
        string_leaves(r.0@) == replacements.deep_view().subrange(k as int, r.1 as int),
    decreases *v,
{
    let total = replacements.len();
    proof {
        assert(replacements@.len() == total);
    }
    match v {
        JsonValue::Str(_) => {
            let r = JsonValue::Str(replacements[k].clone());
            proof {
                assert(string_leaves(r@) =~~= replacements.deep_view().subrange(
                    k as int,
                    k + 1 as int,
                ));
            }
            (r, k + 1)
        },
        JsonValue::Arr(items) => {
            proof {
                assert(decreases_to!(*v => *items));
            }
            let (out, pos) = replace_in_items(items, replacements, k);
            let r = JsonValue::Arr(out);
            (r, pos)
        },
        JsonValue::Obj(fields) => {
            proof {
                assert(decreases_to!(*v => *fields));
            }
            let (out, pos) = replace_in_fields(fields, replacements, k);
            let r = JsonValue::Obj(out);
            (r, pos)
        },
        _ => {
            let r = crate::jsonval::jv_clone(v);
            proof {
                assert(string_leaves(r@) =~~= replacements.deep_view().subrange(
                    k as int,
                    k as int,
                ));
            }
            (r, k)
        },
    }
}

/// Rebuilds an array's elements with their string leaves replaced.
fn replace_in_items(items: &Vec<JsonValue>, replacements: &Vec<String>, k: usize) -> (r: (
    Vec<JsonValue>,
    usize,
))
    requires
        k + string_leaves_seq(jv_of_seq(items@)).len() <= replacements@.len(),
    ensures
        r.1 == k + string_leaves_seq(jv_of_seq(items@)).len(),
        skeleton_seq(jv_of_seq(r.0@)) == skeleton_seq(jv_of_seq(items@)),
        string_leaves_seq(jv_of_seq(r.0@)) == replacements.deep_view().subrange(
            k as int,
            r.1 as int,
        ),
    decreases *items,
{
    let ghost m = jv_of_seq(items@);
    proof {
        crate::jsonval::lemma_jv_of_seq_index(items@);
        assert(m.subrange(0, 0) =~= Seq::<Jv>::empty());
        assert(m.skip(0) =~= m);
    }
    let mut out: Vec<JsonValue> = Vec::new();
    let mut pos: usize = k;
    proof {
        assert(jv_of_seq(out@) =~= Seq::<Jv>::empty());
        assert(skeleton_seq(jv_of_seq(out@)) =~= skeleton_seq(m.subrange(0, 0)));
        assert(string_leaves_seq(jv_of_seq(out@)) =~= replacements.deep_view().subrange(
            k as int,
            pos as int,
        ));
    }
    let mut i: usize = 0;
    while i < items.len()
        invariant
            i <= items@.len(),
            m == jv_of_seq(items@),
            m.len() == items@.len(),
            forall|t: int| 0 <= t < m.len() ==> m[t] == jv_of(items@[t]),
            k <= pos,
            pos == k + string_leaves_seq(m.subrange(0, i as int)).len(),
            pos + string_leaves_seq(m.skip(i as int)).len() <= replacements@.len(),
            skeleton_seq(jv_of_seq(out@)) == skeleton_seq(m.subrange(0, i as int)),
            string_leaves_seq(jv_of_seq(out@)) == replacements.deep_view().subrange(
                k as int,
                pos as int,
            ),
        decreases items@.len() - i,
    {
        proof {
            broadcast use vstd::std_specs::vec::group_vec_axioms;

            assert(decreases_to!(*items => items@[i as int]));
            assert(m.skip(i as int)[0] == m[i as int]);
            assert(m.skip(i as int).drop_first() =~= m.skip(i + 1 as int));
            lemma_leaves_seq_prefix(m.skip(i as int), 1);
            assert(m.skip(i as int).subrange(0, 1) =~= seq![m[i as int]]);
            assert(string_leaves_seq(seq![m[i as int]]) =~= string_leaves(m[i as int]));
        }
        let (child, next) = replace_string_leaves(&items[i], replacements, pos);
        let ghost prev_vec = out@;
        let ghost prev_out = jv_of_seq(out@);
        out.push(child);
        proof {
            crate::jsonval::lemma_jv_of_seq_snoc(prev_vec, out@.last());
            assert(out@ == prev_vec.push(out@.last()));
            assert(jv_of_seq(out@) =~= prev_out.push(jv_of(out@.last())));
            lemma_string_leaves_seq_snoc(prev_out, jv_of(out@.last()));
            lemma_string_leaves_seq_snoc(m.subrange(0, i as int), m[i as int]);
            assert(m.subrange(0, i as int).push(m[i as int]) =~= m.subrange(0, i + 1 as int));
            assert(replacements.deep_view().subrange(k as int, pos as int)
                + replacements.deep_view().subrange(pos as int, next as int)
                =~= replacements.deep_view().subrange(k as int, next as int));
            assert(skeleton_seq(jv_of_seq(out@)) =~= skeleton_seq(m.subrange(0, i + 1 as int)));
            assert(string_leaves_seq(jv_of_seq(out@)) =~= replacements.deep_view().subrange(
                k as int,
                next as int,
            ));
        }
        pos = next;
        i += 1;
    }
    proof {
        assert(m.subrange(0, m.len() as int) =~= m);
        assert(m.skip(m.len() as int).len() == 0);
    }
    (out, pos)
}

/// Rebuilds an object's members with their string leaves replaced, keys
/// kept.
fn replace_in_fields(fields: &Vec<(String, JsonValue)>, replacements: &Vec<String>, k: usize) -> (r:
    (Vec<(String, JsonValue)>, usize))
    requires
        k + string_leaves_fields(jv_of_fields(fields@)).len() <= replacements@.len(),
    ensures
        r.1 == k + string_leaves_fields(jv_of_fields(fields@)).len(),
        skeleton_fields(jv_of_fields(r.0@)) == skeleton_fields(jv_of_fields(fields@)),
        string_leaves_fields(jv_of_fields(r.0@)) == replacements.deep_view().subrange(
            k as int,
            r.1 as int,
        ),
    decreases *fields,
{
    let ghost m = jv_of_fields(fields@);
    proof {
        crate::jsonval::lemma_jv_of_fields_index(fields@);
        assert(m.subrange(0, 0) =~= Seq::<(Seq<char>, Jv)>::empty());
        assert(m.skip(0) =~= m);
    }
    let mut out: Vec<(String, JsonValue)> = Vec::new();
    let mut pos: usize = k;
    proof {
        assert(jv_of_fields(out@) =~= Seq::<(Seq<char>, Jv)>::empty());
        assert(skeleton_fields(jv_of_fields(out@)) =~= skeleton_fields(m.subrange(0, 0)));
        assert(string_leaves_fields(jv_of_fields(out@)) =~= replacements.deep_view().subrange(
            k as int,
            pos as int,
        ));
    }
    let mut i: usize = 0;
    while i < fields.len()
        invariant
            i <= fields@.len(),
            m == jv_of_fields(fields@),
            m.len() == fields@.len(),
            forall|t: int| 0 <= t < m.len() ==> m[t] == (fields@[t].0@, jv_of(fields@[t].1)),
            k <= pos,
            pos == k + string_leaves_fields(m.subrange(0, i as int)).len(),
            pos + string_leaves_fields(m.skip(i as int)).len() <= replacements@.len(),
            skeleton_fields(jv_of_fields(out@)) == skeleton_fields(m.subrange(0, i as int)),
            string_leaves_fields(jv_of_fields(out@)) == replacements.deep_view().subrange(
                k as int,
                pos as int,
            ),
        decreases fields@.len() - i,
    {
        proof {
            broadcast use vstd::std_specs::vec::group_vec_axioms;

            assert(decreases_to!(*fields => fields@[i as int]));
            assert(decreases_to!(fields@[i as int] => fields@[i as int].1));
            assert(m.skip(i as int)[0] == m[i as int]);
            assert(m.skip(i as int).drop_first() =~= m.skip(i + 1 as int));
            lemma_leaves_fields_prefix(m.skip(i as int), 1);
            assert(m.skip(i as int).subrange(0, 1) =~= seq![m[i as int]]);
            assert(string_leaves_fields(seq![m[i as int]]) =~= string_leaves(m[i as int].1));
        }
        let key = fields[i].0.clone();
        let (child, next) = replace_string_leaves(&fields[i].1, replacements, pos);
        let ghost prev_vec = out@;
        let ghost prev_out = jv_of_fields(out@);
        out.push((key, child));
        proof {
            crate::jsonval::lemma_jv_of_fields_snoc(prev_vec, out@.last());
            assert(out@ == prev_vec.push(out@.last()));
            assert(jv_of_fields(out@) =~= prev_out.push((out@.last().0@, jv_of(out@.last().1))));
            lemma_string_leaves_fields_snoc(prev_out, (out@.last().0@, jv_of(out@.last().1)));
            lemma_string_leaves_fields_snoc(m.subrange(0, i as int), m[i as int]);
            assert(m.subrange(0, i as int).push(m[i as int]) =~= m.subrange(0, i + 1 as int));
            assert(replacements.deep_view().subrange(k as int, pos as int)
                + replacements.deep_view().subrange(pos as int, next as int)
                =~= replacements.deep_view().subrange(k as int, next as int));
            assert(skeleton_fields(jv_of_fields(out@)) =~= skeleton_fields(
                m.subrange(0, i + 1 as int),
            ));
            assert(string_leaves_fields(jv_of_fields(out@)) =~= replacements.deep_view().subrange(
                k as int,
                next as int,
            ));
        }
        pos = next;
        i += 1;
    }
    proof {
        assert(m.subrange(0, m.len() as int) =~= m);
        assert(m.skip(m.len() as int).len() == 0);
    }
    (out, pos)
}

/// Splitting the element walk at a position splits its leaves.
proof fn lemma_leaves_seq_prefix(items: Seq<Jv>, i: int)
    requires
        0 <= i <= items.len(),
    ensures
        string_leaves_seq(items) == string_leaves_seq(items.subrange(0, i)) + string_leaves_seq(
            items.skip(i),
        ),
    decreases i,
{
    if i == 0 {
        assert(items.subrange(0, 0) =~= Seq::<Jv>::empty());
        assert(items.skip(0) =~= items);
        assert(string_leaves_seq(items) =~= string_leaves_seq(items.subrange(0, 0))
            + string_leaves_seq(items.skip(0)));
    } else {
        lemma_leaves_seq_prefix(items, i - 1);
        lemma_string_leaves_seq_snoc(items.subrange(0, i - 1), items[i - 1]);
        assert(items.subrange(0, i - 1).push(items[i - 1]) =~= items.subrange(0, i));
        assert(items.skip(i - 1)[0] == items[i - 1]);
        assert(items.skip(i - 1).drop_first() =~= items.skip(i));
        assert(string_leaves_seq(items) =~= string_leaves_seq(items.subrange(0, i))
            + string_leaves_seq(items.skip(i)));
    }
}

/// Splitting the member walk at a position splits its leaves.
proof fn lemma_leaves_fields_prefix(fields: Seq<(Seq<char>, Jv)>, i: int)
    requires
        0 <= i <= fields.len(),
    ensures
        string_leaves_fields(fields) == string_leaves_fields(fields.subrange(0, i))
            + string_leaves_fields(fields.skip(i)),
    decreases i,
{
    if i == 0 {
        assert(fields.subrange(0, 0) =~= Seq::<(Seq<char>, Jv)>::empty());
        assert(fields.skip(0) =~= fields);
        assert(string_leaves_fields(fields) =~= string_leaves_fields(fields.subrange(0, 0))
            + string_leaves_fields(fields.skip(0)));
    } else {
        lemma_leaves_fields_prefix(fields, i - 1);
        lemma_string_leaves_fields_snoc(fields.subrange(0, i - 1), fields[i - 1]);
        assert(fields.subrange(0, i - 1).push(fields[i - 1]) =~= fields.subrange(0, i));
        assert(fields.skip(i - 1)[0] == fields[i - 1]);
        assert(fields.skip(i - 1).drop_first() =~= fields.skip(i));
        assert(string_leaves_fields(fields) =~= string_leaves_fields(fields.subrange(0, i))
            + string_leaves_fields(fields.skip(i)));
    }
}

} // verus!
