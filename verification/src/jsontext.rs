//! Rendering a JSON tree as text.
//!
//! Error records carry the model output they diagnose as JSON text, and the
//! category cache keys its entries by the JSON text of the mismatched
//! values, so the rendering itself is part of the library's contract:
//! [`json_text`] says exactly which text a tree renders to, and
//! [`to_json_text`] produces it.

use crate::jsonval::{
    jv_of, jv_of_fields, jv_of_seq, lemma_jv_of_fields_index, lemma_jv_of_seq_index, JsonValue, Jv,
};
use crate::strutil::{dec_digit, int_text, push_char, push_dec_i64, push_str};
use vstd::prelude::*;

verus! {

/// The hexadecimal digit for a value below sixteen.
pub open spec fn hex_digit(d: nat) -> char {
    if d < 10 {
        dec_digit(d)
    } else if d == 10 {
        'a'
    } else if d == 11 {
        'b'
    } else if d == 12 {
        'c'
    } else if d == 13 {
        'd'
    } else if d == 14 {
        'e'
    } else {
        'f'
    }
}

/// How one character appears inside a JSON string literal: quote, backslash
/// and control characters are escaped, all else stands as itself.
pub open spec fn escape_char(c: char) -> Seq<char> {
    if c == '"' {
        seq!['\\', '"']
    } else if c == '\\' {
        seq!['\\', '\\']
    } else if c == '\n' {
        seq!['\\', 'n']
    } else if c == '\r' {
        seq!['\\', 'r']
    } else if c == '\t' {
        seq!['\\', 't']
    } else if (c as u32) < 32 {
        seq!['\\', 'u', '0', '0', hex_digit((c as u32) as nat / 16), hex_digit(
            (c as u32) as nat % 16,
        )]
    } else {
        seq![c]
    }
}

/// The escaped body of a JSON string literal.
pub open spec fn escape_text(s: Seq<char>) -> Seq<char>
    decreases s.len(),
{
    if s.len() == 0 {
        Seq::empty()
    } else {
        escape_char(s[0]) + escape_text(s.drop_first())
    }
}

/// A JSON string literal: quotes around the escaped body.
pub open spec fn string_text(s: Seq<char>) -> Seq<char> {
    seq!['"'] + escape_text(s) + seq!['"']
}

/// The JSON text of a tree: members and elements in order, no added
/// whitespace, integers in decimal, non-integer numbers as their kept
/// literal text.
pub open spec fn json_text(v: Jv) -> Seq<char>
    decreases v,
{
    match v {
        Jv::Null => seq!['n', 'u', 'l', 'l'],
        Jv::Bool(b) => if b {
            seq!['t', 'r', 'u', 'e']
        } else {
            seq!['f', 'a', 'l', 's', 'e']
        },
        Jv::Int(i) => int_text(i),
        Jv::NumText(s) => s,
        Jv::Str(s) => string_text(s),
        Jv::Arr(items) => seq!['['] + arr_text(items) + seq![']'],
        Jv::Obj(fields) => seq!['{'] + obj_text(fields) + seq!['}'],
    }
}

/// The comma-separated texts of array elements.
pub open spec fn arr_text(items: Seq<Jv>) -> Seq<char>
    decreases items,
{
    if items.len() == 0 {
        Seq::empty()
    } else if items.len() == 1 {
        json_text(items[0])
    } else {
        json_text(items[0]) + seq![','] + arr_text(items.drop_first())
    }
}

/// The comma-separated `"key":value` texts of object members.
pub open spec fn obj_text(fields: Seq<(Seq<char>, Jv)>) -> Seq<char>
    decreases fields,
{
    if fields.len() == 0 {
        Seq::empty()
    } else if fields.len() == 1 {
        string_text(fields[0].0) + seq![':'] + json_text(fields[0].1)
    } else {
        string_text(fields[0].0) + seq![':'] + json_text(fields[0].1) + seq![','] + obj_text(
            fields.drop_first(),
        )
    }
}

/// The text of one object member.
pub open spec fn member_text(f: (Seq<char>, Jv)) -> Seq<char> {
    string_text(f.0) + seq![':'] + json_text(f.1)
}

/// Extending the text one character at a time.
proof fn lemma_escape_text_snoc(s: Seq<char>, c: char)
    ensures
        escape_text(s.push(c)) == escape_text(s) + escape_char(c),
    decreases s.len(),
{
    if s.len() == 0 {
        assert(s.push(c).drop_first() =~= s);
        assert(escape_text(s.push(c)) =~= escape_text(s) + escape_char(c));
    } else {
        lemma_escape_text_snoc(s.drop_first(), c);
        assert(s.push(c).drop_first() =~= s.drop_first().push(c));
        assert(s.push(c)[0] == s[0]);
        assert(escape_text(s.push(c)) =~= escape_text(s) + escape_char(c));
    }
}

/// Extending the array text by one element.
proof fn lemma_arr_text_snoc(items: Seq<Jv>, x: Jv)
    ensures
        arr_text(items.push(x)) == if items.len() == 0 {
            json_text(x)
        } else {
            arr_text(items) + seq![','] + json_text(x)
        },
    decreases items.len(),
{
    if items.len() == 0 {
        assert(items.push(x)[0] == x);
        assert(arr_text(items.push(x)) == json_text(x));
    } else {
        lemma_arr_text_snoc(items.drop_first(), x);
        assert(items.push(x).drop_first() =~= items.drop_first().push(x));
        assert(items.push(x)[0] == items[0]);
        if items.len() == 1 {
            assert(arr_text(items.push(x)) =~= arr_text(items) + seq![','] + json_text(x));
        } else {
            assert(arr_text(items.push(x)) =~= arr_text(items) + seq![','] + json_text(x));
        }
    }
}

/// Extending the object text by one member.
proof fn lemma_obj_text_snoc(fields: Seq<(Seq<char>, Jv)>, f: (Seq<char>, Jv))
    ensures
        obj_text(fields.push(f)) == if fields.len() == 0 {
            member_text(f)
        } else {
            obj_text(fields) + seq![','] + member_text(f)
        },
    decreases fields.len(),
{
    if fields.len() == 0 {
        assert(fields.push(f)[0] == f);
        assert(obj_text(fields.push(f)) == member_text(f));
    } else {
        lemma_obj_text_snoc(fields.drop_first(), f);
        assert(fields.push(f).drop_first() =~= fields.drop_first().push(f));
        assert(fields.push(f)[0] == fields[0]);
        assert(obj_text(fields.push(f)) =~= obj_text(fields) + seq![','] + member_text(f));
    }
}

fn exec_hex_digit(d: u32) -> (c: char)
    requires
        d < 16,
    ensures
        c == hex_digit(d as nat),
{
    if d < 10 {
        exec_dec_digit_u32(d)
    } else if d == 10 {
        'a'
    } else if d == 11 {
        'b'
    } else if d == 12 {
        'c'
    } else if d == 13 {
        'd'
    } else if d == 14 {
        'e'
    } else {
        'f'
    }
}

fn exec_dec_digit_u32(d: u32) -> (c: char)
    requires
        d < 10,
    ensures
        c == dec_digit(d as nat),
{
    if d == 0 {
        '0'
    } else if d == 1 {
        '1'
    } else if d == 2 {
        '2'
    } else if d == 3 {
        '3'
    } else if d == 4 {
        '4'
    } else if d == 5 {
        '5'
    } else if d == 6 {
        '6'
    } else if d == 7 {
        '7'
    } else if d == 8 {
        '8'
    } else {
        '9'
    }
}

/// Appends one character of a string literal body, escaped as JSON asks.
fn push_escaped_char(out: &mut String, c: char)
    ensures
        final(out)@ == old(out)@ + escape_char(c),
{
    if c == '"' {
        push_char(out, '\\');
        push_char(out, '"');
        proof {
            assert(final(out)@ =~= old(out)@ + escape_char(c));
        }
    } else if c == '\\' {
        push_char(out, '\\');
        push_char(out, '\\');
        proof {
            assert(final(out)@ =~= old(out)@ + escape_char(c));
        }
    } else if c == '\n' {
        push_char(out, '\\');
        push_char(out, 'n');
        proof {
            assert(final(out)@ =~= old(out)@ + escape_char(c));
        }
    } else if c == '\r' {
        push_char(out, '\\');
        push_char(out, 'r');
        proof {
            assert(final(out)@ =~= old(out)@ + escape_char(c));
        }
    } else if c == '\t' {
        push_char(out, '\\');
        push_char(out, 't');
        proof {
            assert(final(out)@ =~= old(out)@ + escape_char(c));
        }
    } else if (c as u32) < 32 {
        let n = c as u32;
        push_char(out, '\\');
        push_char(out, 'u');
        push_char(out, '0');
        push_char(out, '0');
        push_char(out, exec_hex_digit(n / 16));
        push_char(out, exec_hex_digit(n % 16));
        proof {
            assert(final(out)@ =~= old(out)@ + escape_char(c));
        }
    } else {
        push_char(out, c);
        proof {
            assert(final(out)@ =~= old(out)@ + escape_char(c));
        }
    }
}

/// Appends a quoted, escaped JSON string literal.
pub fn push_string_text(out: &mut String, s: &str)
    ensures
        final(out)@ == old(out)@ + string_text(s@),
{
    push_char(out, '"');
    let n = s.unicode_len();
    let mut i: usize = 0;
    while i < n
        invariant
            n == s@.len(),
            i <= n,
            out@ == old(out)@ + seq!['"'] + escape_text(s@.subrange(0, i as int)),
        decreases n - i,
    {
        let c = s.get_char(i);
        push_escaped_char(out, c);
        proof {
            lemma_escape_text_snoc(s@.subrange(0, i as int), c);
            assert(s@.subrange(0, i as int).push(c) =~= s@.subrange(0, i + 1 as int));
            assert(out@ =~= old(out)@ + seq!['"'] + escape_text(s@.subrange(0, i + 1 as int)));
        }
        i += 1;
    }
    push_char(out, '"');
    proof {
        assert(s@.subrange(0, s@.len() as int) =~= s@);
        assert(final(out)@ =~= old(out)@ + string_text(s@));
    }
}

/// Appends the JSON text of a tree.
pub fn push_json_text(out: &mut String, v: &JsonValue)
    ensures
        final(out)@ == old(out)@ + json_text(v@),
    decreases *v,
{
    match v {
        JsonValue::Null => {
            proof {
                reveal_strlit("null");
            }
            push_str(out, "null");
            proof {
                assert(final(out)@ =~= old(out)@ + json_text(v@));
            }
        },
        JsonValue::Bool(b) => {
            if *b {
                proof {
                    reveal_strlit("true");
                }
                push_str(out, "true");
                proof {
                    assert(final(out)@ =~= old(out)@ + json_text(v@));
                }
            } else {
                proof {
                    reveal_strlit("false");
                }
                push_str(out, "false");
                proof {
                    assert(final(out)@ =~= old(out)@ + json_text(v@));
                }
            }
        },
        JsonValue::Int(i) => {
            push_dec_i64(out, *i);
        },
        JsonValue::NumText(s) => {
            push_str(out, s.as_str());
        },
        JsonValue::Str(s) => {
            push_string_text(out, s.as_str());
        },
        JsonValue::Arr(items) => {
            proof {
                assert(decreases_to!(*v => *items));
            }
            push_char(out, '[');
            push_arr_elems(out, items);
            push_char(out, ']');
            proof {
                assert(final(out)@ =~= old(out)@ + json_text(v@));
            }
        },
        JsonValue::Obj(fields) => {
            proof {
                assert(decreases_to!(*v => *fields));
            }
            push_char(out, '{');
            push_obj_members(out, fields);
            push_char(out, '}');
            proof {
                assert(final(out)@ =~= old(out)@ + json_text(v@));
            }
        },
    }
}

/// Appends the comma-separated element texts of an array.
fn push_arr_elems(out: &mut String, xs: &Vec<JsonValue>)
    ensures
        final(out)@ == old(out)@ + arr_text(jv_of_seq(xs@)),
    decreases *xs,
{
    let ghost m = jv_of_seq(xs@);
    proof {
        lemma_jv_of_seq_index(xs@);
        assert(m.subrange(0, 0) =~= Seq::<Jv>::empty());
    }
    let mut i: usize = 0;
    while i < xs.len()
        invariant
            i <= xs@.len(),
            m == jv_of_seq(xs@),
            m.len() == xs@.len(),
            forall|k: int| 0 <= k < m.len() ==> m[k] == jv_of(xs@[k]),
            out@ == old(out)@ + arr_text(m.subrange(0, i as int)),
        decreases xs@.len() - i,
    {
        proof {
            broadcast use vstd::std_specs::vec::group_vec_axioms;

            assert(decreases_to!(*xs => xs@[i as int]));
        }
        if i > 0 {
            push_char(out, ',');
        }
        push_json_text(out, &xs[i]);
        proof {
            lemma_arr_text_snoc(m.subrange(0, i as int), m[i as int]);
            assert(m.subrange(0, i as int).push(m[i as int]) =~= m.subrange(0, i + 1 as int));
            assert(out@ =~= old(out)@ + arr_text(m.subrange(0, i + 1 as int)));
        }
        i += 1;
    }
    proof {
        assert(m.subrange(0, m.len() as int) =~= m);
    }
}

/// Appends the comma-separated member texts of an object.
fn push_obj_members(out: &mut String, fields: &Vec<(String, JsonValue)>)
    ensures
        final(out)@ == old(out)@ + obj_text(jv_of_fields(fields@)),
    decreases *fields,
{
    let ghost m = jv_of_fields(fields@);
    proof {
        lemma_jv_of_fields_index(fields@);
        assert(m.subrange(0, 0) =~= Seq::<(Seq<char>, Jv)>::empty());
    }
    let mut i: usize = 0;
    while i < fields.len()
        invariant
            i <= fields@.len(),
            m == jv_of_fields(fields@),
            m.len() == fields@.len(),
            forall|k: int| 0 <= k < m.len() ==> m[k] == (fields@[k].0@, jv_of(fields@[k].1)),
            out@ == old(out)@ + obj_text(m.subrange(0, i as int)),
        decreases fields@.len() - i,
    {
        proof {
            broadcast use vstd::std_specs::vec::group_vec_axioms;

            assert(decreases_to!(*fields => fields@[i as int]));
            assert(decreases_to!(fields@[i as int] => fields@[i as int].1));
        }
        if i > 0 {
            push_char(out, ',');
        }
        push_string_text(out, fields[i].0.as_str());
        push_char(out, ':');
        push_json_text(out, &fields[i].1);
        proof {
            lemma_obj_text_snoc(m.subrange(0, i as int), m[i as int]);
            assert(m.subrange(0, i as int).push(m[i as int]) =~= m.subrange(0, i + 1 as int));
            assert(out@ =~= old(out)@ + obj_text(m.subrange(0, i + 1 as int)));
        }
        i += 1;
    }
    proof {
        assert(m.subrange(0, m.len() as int) =~= m);
    }
}

/// The JSON text of a tree, as a string.
pub fn to_json_text(v: &JsonValue) -> (r: String)
    ensures
        r@ == json_text(v@),
{
    let mut out = String::new();
    push_json_text(&mut out, v);
    proof {
        assert(out@ =~= json_text(v@));
    }
    out
}

/// The JSON text of a list of trees, rendered as a JSON array.
pub fn list_to_json_text(xs: &Vec<JsonValue>) -> (r: String)
    ensures
        r@ == json_text(Jv::Arr(jv_of_seq(xs@))),
{
    let mut out = String::new();
    push_char(&mut out, '[');
    push_arr_elems(&mut out, xs);
    push_char(&mut out, ']');
    proof {
        assert(out@ =~= json_text(Jv::Arr(jv_of_seq(xs@))));
    }
    out
}

} // verus!
