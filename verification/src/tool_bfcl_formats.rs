//! The benchmark data model: dataset entries, function definitions with
//! their recursive parameter schema, ground-truth answers, and the model's
//! structured output calls — each with a strict parser from a JSON tree and,
//! where the harness writes it back, a serializer that round-trips.

use crate::jsonval::{
    jv_clone, jv_clone_vec, jv_get, jv_of, jv_of_fields, jv_of_seq, lemma_jv_of_fields_index,
    lemma_jv_of_seq_index, obj_get, obj_lookup, obj_set, obj_set_fields, JsonValue, Jv,
};
use crate::strutil::{string_eq, string_eq_lit};
use vstd::prelude::*;

verus! {

/// Model of a [`BfclParameter`].
#[verifier::ext_equal]
pub struct BfclParameterV {
    pub ty: Seq<char>,
    pub properties: Option<Seq<(Seq<char>, BfclParameterV)>>,
    pub items: Option<Box<BfclParameterV>>,
    pub enum_values: Option<Seq<Jv>>,
    pub description: Option<Seq<char>>,
    pub format: Option<Seq<char>>,
    pub required: Option<Seq<Seq<char>>>,
    pub default: Option<Jv>,
    pub optional: Option<bool>,
    pub maximum: Option<Jv>,
}

/// One node of a function's parameter schema.  `properties` nests schemas
/// for an object's members in order, `items` the schema of an array's
/// elements; every other field is optional annotation.  Unknown fields are
/// rejected when parsing.
#[derive(Debug)]
pub struct BfclParameter {
    pub ty: String,
    pub properties: Option<Vec<(String, BfclParameter)>>,
    pub items: Option<Box<BfclParameter>>,
    pub enum_values: Option<Vec<JsonValue>>,
    pub description: Option<String>,
    pub format: Option<String>,
    pub required: Option<Vec<String>>,
    pub default: Option<JsonValue>,
    pub optional: Option<bool>,
    pub maximum: Option<JsonValue>,
}

/// The model of a parameter node.
pub open spec fn param_view(p: BfclParameter) -> BfclParameterV
    decreases p,
{
    BfclParameterV {
        ty: p.ty@,
        properties: match p.properties {
            None => None,
            Some(props) => Some(param_fields_view(props@)),
        },
        items: match p.items {
            None => None,
            Some(b) => Some(Box::new(param_view(*b))),
        },
        enum_values: match p.enum_values {
            None => None,
            Some(vs) => Some(jv_of_seq(vs@)),
        },
        description: match p.description {
            None => None,
            Some(s) => Some(s@),
        },
        format: match p.format {
            None => None,
            Some(s) => Some(s@),
        },
        required: match p.required {
            None => None,
            Some(rs) => Some(rs.deep_view()),
        },
        default: match p.default {
            None => None,
            Some(d) => Some(jv_of(d)),
        },
        optional: p.optional,
        maximum: match p.maximum {
            None => None,
            Some(m) => Some(jv_of(m)),
        },
    }
}

/// The models of named nested parameter schemas.
pub open spec fn param_fields_view(props: Seq<(String, BfclParameter)>) -> Seq<
    (Seq<char>, BfclParameterV),
>
    decreases props,
{
    if props.len() == 0 {
        Seq::empty()
    } else {
        seq![(props[0].0@, param_view(props[0].1))] + param_fields_view(props.drop_first())
    }
}

/// `param_fields_view` maps the members one by one.
pub proof fn lemma_param_fields_view_index(props: Seq<(String, BfclParameter)>)
    ensures
        param_fields_view(props).len() == props.len(),
        forall|i: int| 0 <= i < props.len()
            ==> param_fields_view(props)[i] == (props[i].0@, param_view(props[i].1)),
    decreases props.len(),
{
    if props.len() > 0 {
        lemma_param_fields_view_index(props.drop_first());
        assert forall|i: int| 0 <= i < props.len() implies param_fields_view(props)[i] == (
            props[i].0@,
            param_view(props[i].1),
        ) by {
            if i > 0 {
                assert(props.drop_first()[i - 1] == props[i]);
            }
        }
    }
}

impl View for BfclParameter {
    type V = BfclParameterV;

    open spec fn view(&self) -> BfclParameterV {
        param_view(*self)
    }
}

/// The member keys a parameter node may carry.
pub open spec fn param_allowed_key(k: Seq<char>) -> bool {
    ||| k == "type"@
    ||| k == "properties"@
    ||| k == "items"@
    ||| k == "enum"@
    ||| k == "description"@
    ||| k == "format"@
    ||| k == "required"@
    ||| k == "default"@
    ||| k == "optional"@
    ||| k == "maximum"@
}

/// Keys are pairwise distinct and all allowed: the strictness condition on
/// a parameter node's members.
pub open spec fn param_keys_ok(fields: Seq<(Seq<char>, Jv)>) -> bool {
    &&& (forall|i: int, j: int| 0 <= i < j < fields.len() ==> fields[i].0 != fields[j].0)
    &&& (forall|i: int| 0 <= i < fields.len() ==> param_allowed_key(#[trigger] fields[i].0))
}

/// The strings of a JSON array of strings; `None` when a value is no string.
pub open spec fn strings_of(items: Seq<Jv>) -> Option<Seq<Seq<char>>>
    decreases items.len(),
{
    if items.len() == 0 {
        Some(Seq::empty())
    } else {
        match items[0] {
            Jv::Str(s) => match strings_of(items.drop_first()) {
                Some(rest) => Some(seq![s] + rest),
                None => None,
            },
            _ => None,
        }
    }
}

/// An optional member that must be a string when present.
/// The outer `None` means the member is present but malformed.
pub open spec fn opt_str_member(fields: Seq<(Seq<char>, Jv)>, key: Seq<char>) -> Option<
    Option<Seq<char>>,
> {
    match obj_lookup(fields, key) {
        None => Some(None),
        Some(Jv::Str(s)) => Some(Some(s)),
        Some(_) => None,
    }
}

/// An optional member that must be a bool when present.
pub open spec fn opt_bool_member(fields: Seq<(Seq<char>, Jv)>, key: Seq<char>) -> Option<
    Option<bool>,
> {
    match obj_lookup(fields, key) {
        None => Some(None),
        Some(Jv::Bool(b)) => Some(Some(b)),
        Some(_) => None,
    }
}

/// An optional member that must be an array of strings when present.
pub open spec fn opt_strings_member(fields: Seq<(Seq<char>, Jv)>, key: Seq<char>) -> Option<
    Option<Seq<Seq<char>>>,
> {
    match obj_lookup(fields, key) {
        None => Some(None),
        Some(Jv::Arr(items)) => match strings_of(items) {
            Some(ss) => Some(Some(ss)),
            None => None,
        },
        Some(_) => None,
    }
}

/// A member holding `Some(x)` in an `obj_lookup` points at some member's
/// value.
pub proof fn lemma_obj_lookup_element(fields: Seq<(Seq<char>, Jv)>, key: Seq<char>)
    requires
        obj_lookup(fields, key) is Some,
    ensures
        exists|k: int|
            0 <= k < fields.len() && fields[k].1 == obj_lookup(fields, key)->0 && fields[k].0
                == key,
    decreases fields.len(),
{
    if fields.len() > 0 {
        if fields[0].0 == key {
            assert(fields[0].1 == obj_lookup(fields, key)->0 && fields[0].0 == key);
        } else {
            lemma_obj_lookup_element(fields.drop_first(), key);
            let k = choose|k: int|
                0 <= k < fields.drop_first().len() && fields.drop_first()[k].1 == obj_lookup(
                    fields.drop_first(),
                    key,
                )->0 && fields.drop_first()[k].0 == key;
            assert(fields[k + 1] == fields.drop_first()[k]);
        }
    }
}

/// The parameter schema a JSON tree describes; `None` when the tree is not
/// a strict schema node.
pub open spec fn param_of_jv(v: Jv) -> Option<BfclParameterV>
    decreases v,
    via param_of_jv_decreases
{
    match v {
        Jv::Obj(fields) => {
            if !param_keys_ok(fields) {
                None
            } else {
                let tyo = obj_lookup(fields, "type"@);
                if !(tyo matches Some(Jv::Str(_))) {
                    None
                } else {
                    let props = match obj_lookup(fields, "properties"@) {
                        None => Some(None),
                        Some(Jv::Obj(pf)) => match params_of_members(pf) {
                            Some(ps) => Some(Some(ps)),
                            None => None,
                        },
                        Some(_) => None,
                    };
                    let items = match obj_lookup(fields, "items"@) {
                        None => Some(None),
                        Some(iv) => match param_of_jv(iv) {
                            Some(p) => Some(Some(Box::new(p))),
                            None => None,
                        },
                    };
                    let enum_values = match obj_lookup(fields, "enum"@) {
                        None => Some(None),
                        Some(Jv::Arr(vs)) => Some(Some(vs)),
                        Some(_) => None,
                    };
                    let description = opt_str_member(fields, "description"@);
                    let format = opt_str_member(fields, "format"@);
                    let required = opt_strings_member(fields, "required"@);
                    let optional = opt_bool_member(fields, "optional"@);
                    if props is None || items is None || enum_values is None || description is None
                        || format is None || required is None || optional is None {
                        None
                    } else {
                        Some(
                            BfclParameterV {
                                ty: tyo->0->Str_0,
                                properties: props->0,
                                items: items->0,
                                enum_values: enum_values->0,
                                description: description->0,
                                format: format->0,
                                required: required->0,
                                default: obj_lookup(fields, "default"@),
                                optional: optional->0,
                                maximum: obj_lookup(fields, "maximum"@),
                            },
                        )
                    }
                }
            }
        },
        _ => None,
    }
}

/// The named schemas a `properties` object describes; `None` when any
/// member is not a strict schema node.
pub open spec fn params_of_members(fields: Seq<(Seq<char>, Jv)>) -> Option<
    Seq<(Seq<char>, BfclParameterV)>,
>
    decreases fields,
{
    if fields.len() == 0 {
        Some(Seq::empty())
    } else {
        match param_of_jv(fields[0].1) {
            Some(p) => match params_of_members(fields.drop_first()) {
                Some(rest) => Some(seq![(fields[0].0, p)] + rest),
                None => None,
            },
            None => None,
        }
    }
}

#[via_fn]
proof fn param_of_jv_decreases(v: Jv) {
    match v {
        Jv::Obj(fields) => {
            if obj_lookup(fields, "properties"@) is Some {
                lemma_obj_lookup_element(fields, "properties"@);
                let k = choose|k: int|
                    0 <= k < fields.len() && fields[k].1 == obj_lookup(fields, "properties"@)->0
                        && fields[k].0 == "properties"@;
                assert(decreases_to!(fields => fields[k]));
                assert(decreases_to!(v => fields[k].1));
            }
            if obj_lookup(fields, "items"@) is Some {
                lemma_obj_lookup_element(fields, "items"@);
                let k = choose|k: int|
                    0 <= k < fields.len() && fields[k].1 == obj_lookup(fields, "items"@)->0
                        && fields[k].0 == "items"@;
                assert(decreases_to!(fields => fields[k]));
                assert(decreases_to!(v => fields[k].1));
            }
        },
        _ => {},
    }
}

} // verus!

verus! {

/// Extending `strings_of` by one element.
proof fn lemma_strings_of_snoc(items: Seq<Jv>, x: Jv)
    ensures
        strings_of(items.push(x)) == match strings_of(items) {
            Some(ss) => match x {
                Jv::Str(s) => Some(ss.push(s)),
                _ => None,
            },
            None => None,
        },
    decreases items.len(),
{
    if items.len() == 0 {
        assert(items.push(x)[0] == x);
        assert(items.push(x).drop_first() =~= items);
        match x {
            Jv::Str(s) => {
                assert(strings_of(items.push(x)) matches Some(o) && o =~= Seq::empty().push(s));
            },
            _ => {},
        }
    } else {
        lemma_strings_of_snoc(items.drop_first(), x);
        assert(items.push(x).drop_first() =~= items.drop_first().push(x));
        assert(items.push(x)[0] == items[0]);
        match (items[0], x) {
            (Jv::Str(s0), Jv::Str(s)) => {
                match strings_of(items.drop_first()) {
                    Some(rest) => {
                        assert(strings_of(items) == Some(seq![s0] + rest));
                        assert(seq![s0] + rest.push(s) =~= (seq![s0] + rest).push(s));
                    },
                    None => {},
                }
            },
            _ => {},
        }
    }
}

/// Extending `params_of_members` by one member.
proof fn lemma_params_of_members_snoc(fields: Seq<(Seq<char>, Jv)>, f: (Seq<char>, Jv))
    ensures
        params_of_members(fields.push(f)) == match params_of_members(fields) {
            Some(ps) => match param_of_jv(f.1) {
                Some(p) => Some(ps.push((f.0, p))),
                None => None,
            },
            None => None,
        },
    decreases fields.len(),
{
    if fields.len() == 0 {
        assert(fields.push(f)[0] == f);
        assert(fields.push(f).drop_first() =~= fields);
        match param_of_jv(f.1) {
            Some(p) => {
                assert(params_of_members(fields.push(f)) matches Some(o) && o =~= Seq::empty().push(
                    (f.0, p),
                ));
            },
            None => {},
        }
    } else {
        lemma_params_of_members_snoc(fields.drop_first(), f);
        assert(fields.push(f).drop_first() =~= fields.drop_first().push(f));
        assert(fields.push(f)[0] == fields[0]);
        match param_of_jv(fields[0].1) {
            Some(p0) => {
                match (params_of_members(fields.drop_first()), param_of_jv(f.1)) {
                    (Some(rest), Some(p)) => {
                        assert(seq![(fields[0].0, p0)] + rest.push((f.0, p)) =~= (seq![
                            (fields[0].0, p0),
                        ] + rest).push((f.0, p)));
                    },
                    _ => {},
                }
            },
            None => {},
        }
    }
}

/// A malformed member makes the whole member list malformed.
proof fn lemma_params_of_members_fail(fields: Seq<(Seq<char>, Jv)>, j: int)
    requires
        0 <= j < fields.len(),
        param_of_jv(fields[j].1) is None,
    ensures
        params_of_members(fields) is None,
    decreases fields.len(),
{
    if j > 0 {
        lemma_params_of_members_fail(fields.drop_first(), j - 1);
        assert(fields.drop_first()[j - 1] == fields[j]);
    }
}

/// Extending `param_fields_view` by one member.
proof fn lemma_param_fields_view_snoc(props: Seq<(String, BfclParameter)>, f: (String, BfclParameter))
    ensures
        param_fields_view(props.push(f)) == param_fields_view(props).push((f.0@, param_view(f.1))),
    decreases props.len(),
{
    if props.len() == 0 {
        assert(props.push(f).drop_first() =~= props);
        assert(param_fields_view(props.push(f)) =~= param_fields_view(props).push(
            (f.0@, param_view(f.1)),
        ));
    } else {
        lemma_param_fields_view_snoc(props.drop_first(), f);
        assert(props.push(f).drop_first() =~= props.drop_first().push(f));
        assert(props.push(f)[0] == props[0]);
        assert(param_fields_view(props.push(f)) =~= param_fields_view(props).push(
            (f.0@, param_view(f.1)),
        ));
    }
}

/// True when the member keys of a schema node are distinct and allowed.
fn check_param_keys(fields: &Vec<(String, JsonValue)>) -> (r: bool)
    ensures
        r == param_keys_ok(jv_of_fields(fields@)),
{
    let ghost m = jv_of_fields(fields@);
    proof {
        lemma_jv_of_fields_index(fields@);
    }
    let mut i: usize = 0;
    while i < fields.len()
        invariant
            i <= fields@.len(),
            m == jv_of_fields(fields@),
            m.len() == fields@.len(),
            forall|k: int| 0 <= k < m.len() ==> m[k] == (fields@[k].0@, jv_of(fields@[k].1)),
            forall|k: int| 0 <= k < i ==> param_allowed_key(#[trigger] m[k].0),
            forall|k1: int, k2: int| 0 <= k1 < k2 < i ==> m[k1].0 != m[k2].0,
        decreases fields@.len() - i,
    {
        let key = &fields[i].0;
        let allowed = string_eq_lit(key, "type") || string_eq_lit(key, "properties")
            || string_eq_lit(key, "items") || string_eq_lit(key, "enum") || string_eq_lit(
            key,
            "description",
        ) || string_eq_lit(key, "format") || string_eq_lit(key, "required") || string_eq_lit(
            key,
            "default",
        ) || string_eq_lit(key, "optional") || string_eq_lit(key, "maximum");
        if !allowed {
            assert(!param_allowed_key(m[i as int].0));
            assert(!param_keys_ok(m));
            return false;
        }
        let mut j: usize = 0;
        while j < i
            invariant
                j <= i < fields@.len(),
                m == jv_of_fields(fields@),
                m.len() == fields@.len(),
                forall|k: int| 0 <= k < m.len() ==> m[k] == (fields@[k].0@, jv_of(fields@[k].1)),
                forall|k: int| 0 <= k < j ==> m[k].0 != m[i as int].0,
            decreases i - j,
        {
            if string_eq(&fields[j].0, &fields[i].0) {
                assert(m[j as int].0 == m[i as int].0);
                assert(!param_keys_ok(m));
                return false;
            }
            j += 1;
        }
        i += 1;
    }
    true
}

/// Parses a JSON array whose values must all be strings.
fn parse_string_list(items: &Vec<JsonValue>) -> (r: Result<Vec<String>, String>)
    ensures
        match r {
            Ok(ss) => strings_of(jv_of_seq(items@)) == Some(ss.deep_view()),
            Err(m) => strings_of(jv_of_seq(items@)) is None && m@
                == "Expected a string in string list"@,
        },
{
    let ghost m = jv_of_seq(items@);
    proof {
        lemma_jv_of_seq_index(items@);
        assert(m.subrange(0, 0) =~= Seq::<Jv>::empty());
    }
    let mut out: Vec<String> = Vec::new();
    let mut i: usize = 0;
    while i < items.len()
        invariant
            i <= items@.len(),
            m == jv_of_seq(items@),
            m.len() == items@.len(),
            forall|k: int| 0 <= k < m.len() ==> m[k] == jv_of(items@[k]),
            strings_of(m.subrange(0, i as int)) == Some(out.deep_view()),
        decreases items@.len() - i,
    {
        match &items[i] {
            JsonValue::Str(s) => {
                let ghost prev = out.deep_view();
                out.push(s.clone());
                proof {
                    lemma_strings_of_snoc(m.subrange(0, i as int), m[i as int]);
                    assert(m.subrange(0, i as int).push(m[i as int]) =~= m.subrange(
                        0,
                        i + 1 as int,
                    ));
                    assert(out.deep_view() =~= prev.push(s@));
                }
            },
            _ => {
                proof {
                    if strings_of(m) is Some {
                        lemma_strings_of_at(m, i as int);
                    }
                }
                return Err(String::from_str("Expected a string in string list"));
            },
        }
        i += 1;
    }
    proof {
        assert(m.subrange(0, m.len() as int) =~= m);
    }
    Ok(out)
}

/// When the whole list parses as strings, each element is a string.
proof fn lemma_strings_of_at(items: Seq<Jv>, j: int)
    requires
        0 <= j < items.len(),
        strings_of(items) is Some,
    ensures
        items[j] is Str,
    decreases items.len(),
{
    if j > 0 {
        lemma_strings_of_at(items.drop_first(), j - 1);
        assert(items.drop_first()[j - 1] == items[j]);
    }
}

/// Parses the named nested schemas of a `properties` object.
fn parse_param_members(props: &Vec<(String, JsonValue)>) -> (r: Result<
    Vec<(String, BfclParameter)>,
    String,
>)
    ensures
        match r {
            Ok(ps) => params_of_members(jv_of_fields(props@)) == Some(param_fields_view(ps@)),
            Err(m) => params_of_members(jv_of_fields(props@)) is None && m@
                == param_members_err_msg(jv_of_fields(props@)),
        },
    decreases *props,
{
    let ghost m = jv_of_fields(props@);
    proof {
        lemma_jv_of_fields_index(props@);
        assert(m.subrange(0, 0) =~= Seq::<(Seq<char>, Jv)>::empty());
    }
    let mut out: Vec<(String, BfclParameter)> = Vec::new();
    let mut i: usize = 0;
    while i < props.len()
        invariant
            i <= props@.len(),
            m == jv_of_fields(props@),
            m.len() == props@.len(),
            forall|k: int| 0 <= k < m.len() ==> m[k] == (props@[k].0@, jv_of(props@[k].1)),
            params_of_members(m.subrange(0, i as int)) == Some(param_fields_view(out@)),
        decreases props@.len() - i,
    {
        proof {
            broadcast use vstd::std_specs::vec::group_vec_axioms;

            assert(decreases_to!(*props => props@[i as int]));
            assert(decreases_to!(props@[i as int] => props@[i as int].1));
        }
        match parse_parameter(&props[i].1) {
            Ok(p) => {
                let k = props[i].0.clone();
                let ghost prev = out@;
                let ghost kp = (k, p);
                out.push((k, p));
                proof {
                    lemma_params_of_members_snoc(m.subrange(0, i as int), m[i as int]);
                    assert(m.subrange(0, i as int).push(m[i as int]) =~= m.subrange(
                        0,
                        i + 1 as int,
                    ));
                    lemma_param_fields_view_snoc(prev, kp);
                    assert(out@ == prev.push(kp));
                    assert(param_fields_view(out@) =~= param_fields_view(prev).push(
                        (kp.0@, param_view(kp.1)),
                    ));
                }
            },
            Err(e) => {
                proof {
                    lemma_params_of_members_fail(m, i as int);
                    lemma_param_members_err_at(m, i as int);
                }
                return Err(e);
            },
        }
        i += 1;
    }
    proof {
        assert(m.subrange(0, m.len() as int) =~= m);
    }
    Ok(out)
}

/// Parses one strict schema node from a JSON tree.
pub fn parse_parameter(v: &JsonValue) -> (r: Result<BfclParameter, String>)
    ensures
        match r {
            Ok(p) => param_of_jv(v@) == Some(p@),
            Err(m) => param_of_jv(v@) is None && m@ == param_err_msg(v@),
        },
    decreases *v,
{
    let fields = match v {
        JsonValue::Obj(fields) => fields,
        _ => {
            return Err(String::from_str("Parameter should be a JSON object"));
        },
    };
    if !check_param_keys(fields) {
        return Err(String::from_str("Unknown or repeated field in parameter"));
    }
    let ty: String = match obj_get(v, "type") {
        Some(c) => match c {
            JsonValue::Str(s) => s.clone(),
            _ => {
                return Err(String::from_str("Missing or invalid 'type' field in parameter"));
            },
        },
        None => {
            return Err(String::from_str("Missing or invalid 'type' field in parameter"));
        },
    };
    let properties: Option<Vec<(String, BfclParameter)>> = match obj_get(v, "properties") {
        None => None,
        Some(c) => match c {
            JsonValue::Obj(pf) => {
                proof {
                    assert(decreases_to!(*c => *pf));
                }
                match parse_param_members(pf) {
                    Ok(ps) => Some(ps),
                    Err(e) => {
                        return Err(e);
                    },
                }
            },
            _ => {
                return Err(String::from_str("'properties' field should be an object"));
            },
        },
    };
    let items: Option<Box<BfclParameter>> = match obj_get(v, "items") {
        None => None,
        Some(c) => match parse_parameter(c) {
            Ok(p) => Some(Box::new(p)),
            Err(e) => {
                return Err(e);
            },
        },
    };
    let enum_values: Option<Vec<JsonValue>> = match obj_get(v, "enum") {
        None => None,
        Some(c) => match c {
            JsonValue::Arr(vs) => Some(jv_clone_vec(vs)),
            _ => {
                return Err(String::from_str("'enum' field should be an array"));
            },
        },
    };
    let description: Option<String> = match obj_get(v, "description") {
        None => None,
        Some(c) => match c {
            JsonValue::Str(s) => Some(s.clone()),
            _ => {
                return Err(String::from_str("'description' field should be a string"));
            },
        },
    };
    let format: Option<String> = match obj_get(v, "format") {
        None => None,
        Some(c) => match c {
            JsonValue::Str(s) => Some(s.clone()),
            _ => {
                return Err(String::from_str("'format' field should be a string"));
            },
        },
    };
    let required: Option<Vec<String>> = match obj_get(v, "required") {
        None => None,
        Some(c) => match c {
            JsonValue::Arr(vs) => match parse_string_list(vs) {
                Ok(ss) => Some(ss),
                Err(e) => {
                    return Err(e);
                },
            },
            _ => {
                return Err(String::from_str("'required' field should be an array"));
            },
        },
    };
    let default: Option<JsonValue> = match obj_get(v, "default") {
        None => None,
        Some(c) => Some(jv_clone(c)),
    };
    let optional: Option<bool> = match obj_get(v, "optional") {
        None => None,
        Some(c) => match c {
            JsonValue::Bool(b) => Some(*b),
            _ => {
                return Err(String::from_str("'optional' field should be a bool"));
            },
        },
    };
    let maximum: Option<JsonValue> = match obj_get(v, "maximum") {
        None => None,
        Some(c) => Some(jv_clone(c)),
    };
    let p = BfclParameter {
        ty,
        properties,
        items,
        enum_values,
        description,
        format,
        required,
        default,
        optional,
        maximum,
    };
    Ok(p)
}

} // verus!

verus! {

/// Model of a [`BfclFunctionDef`].
#[verifier::ext_equal]
pub struct BfclFunctionDefV {
    pub name: Seq<char>,
    pub description: Seq<char>,
    pub parameters: BfclParameterV,
    pub required: Seq<Seq<char>>,
}

/// One callable function of a dataset entry: its name, its description, its
/// top-level parameter schema, and the required parameter names derived
/// from that schema.
#[derive(Debug)]
pub struct BfclFunctionDef {
    pub name: String,
    pub description: String,
    pub parameters: BfclParameter,
    pub required: Vec<String>,
}

impl View for BfclFunctionDef {
    type V = BfclFunctionDefV;

    open spec fn view(&self) -> BfclFunctionDefV {
        BfclFunctionDefV {
            name: self.name@,
            description: self.description@,
            parameters: self.parameters@,
            required: self.required.deep_view(),
        }
    }
}

/// The models of a list of function definitions.
pub open spec fn fndefs_view(s: Seq<BfclFunctionDef>) -> Seq<BfclFunctionDefV> {
    Seq::new(s.len(), |i: int| s[i]@)
}

/// The function definition a JSON tree describes.  The schema under
/// `parameters` must carry both `properties` and `required`.
pub open spec fn fndef_of_jv(v: Jv) -> Option<BfclFunctionDefV> {
    match v {
        Jv::Obj(fields) => {
            let name = obj_lookup(fields, "name"@);
            let desc = obj_lookup(fields, "description"@);
            let params = obj_lookup(fields, "parameters"@);
            if !(name matches Some(Jv::Str(_))) {
                None
            } else if !(desc matches Some(Jv::Str(_))) {
                None
            } else {
                match params {
                    Some(pv) => match param_of_jv(pv) {
                        Some(p) => if p.properties is Some && p.required is Some {
                            Some(
                                BfclFunctionDefV {
                                    name: name->0->Str_0,
                                    description: desc->0->Str_0,
                                    parameters: p,
                                    required: p.required->0,
                                },
                            )
                        } else {
                            None
                        },
                        None => None,
                    },
                    None => None,
                }
            }
        },
        _ => None,
    }
}

/// The function definitions a JSON array describes; `None` when any element
/// is malformed.
pub open spec fn fndefs_of(items: Seq<Jv>) -> Option<Seq<BfclFunctionDefV>>
    decreases items.len(),
{
    if items.len() == 0 {
        Some(Seq::empty())
    } else {
        match fndef_of_jv(items[0]) {
            Some(d) => match fndefs_of(items.drop_first()) {
                Some(rest) => Some(seq![d] + rest),
                None => None,
            },
            None => None,
        }
    }
}

/// Extending `fndefs_of` by one element.
proof fn lemma_fndefs_of_snoc(items: Seq<Jv>, x: Jv)
    ensures
        fndefs_of(items.push(x)) == match fndefs_of(items) {
            Some(ds) => match fndef_of_jv(x) {
                Some(d) => Some(ds.push(d)),
                None => None,
            },
            None => None,
        },
    decreases items.len(),
{
    if items.len() == 0 {
        assert(items.push(x)[0] == x);
        assert(items.push(x).drop_first() =~= items);
        match fndef_of_jv(x) {
            Some(d) => {
                assert(fndefs_of(items.push(x)) matches Some(o) && o =~= Seq::empty().push(d));
            },
            None => {},
        }
    } else {
        lemma_fndefs_of_snoc(items.drop_first(), x);
        assert(items.push(x).drop_first() =~= items.drop_first().push(x));
        assert(items.push(x)[0] == items[0]);
        match (fndef_of_jv(items[0]), fndefs_of(items.drop_first()), fndef_of_jv(x)) {
            (Some(d0), Some(rest), Some(d)) => {
                assert(seq![d0] + rest.push(d) =~= (seq![d0] + rest).push(d));
            },
            _ => {},
        }
    }
}

/// A malformed element makes the whole list malformed.
proof fn lemma_fndefs_of_fail(items: Seq<Jv>, j: int)
    requires
        0 <= j < items.len(),
        fndef_of_jv(items[j]) is None,
    ensures
        fndefs_of(items) is None,
    decreases items.len(),
{
    if j > 0 {
        lemma_fndefs_of_fail(items.drop_first(), j - 1);
        assert(items.drop_first()[j - 1] == items[j]);
    }
}

/// A deep copy of a string list, with the same model.
pub fn clone_string_vec(xs: &Vec<String>) -> (r: Vec<String>)
    ensures
        r.deep_view() == xs.deep_view(),
{
    let mut out: Vec<String> = Vec::new();
    let mut i: usize = 0;
    while i < xs.len()
        invariant
            i <= xs@.len(),
            out@.len() == i,
            forall|k: int| 0 <= k < i ==> out@[k]@ == xs@[k]@,
        decreases xs@.len() - i,
    {
        out.push(xs[i].clone());
        i += 1;
    }
    proof {
        assert(out.deep_view() =~= xs.deep_view());
    }
    out
}

/// Parses one function definition from a JSON tree.
pub fn parse_function_def(v: &JsonValue) -> (r: Result<BfclFunctionDef, String>)
    ensures
        match r {
            Ok(d) => fndef_of_jv(v@) == Some(d@),
            Err(m) => fndef_of_jv(v@) is None && m@ == fndef_err_msg(v@),
        },
{
    if !(matches!(v, JsonValue::Obj(_))) {
        return Err(String::from_str("Function should be a JSON object"));
    }
    let name: String = match obj_get(v, "name") {
        Some(c) => match c {
            JsonValue::Str(s) => s.clone(),
            _ => {
                return Err(String::from_str("Missing or invalid 'name' field in function"));
            },
        },
        None => {
            return Err(String::from_str("Missing or invalid 'name' field in function"));
        },
    };
    let description: String = match obj_get(v, "description") {
        Some(c) => match c {
            JsonValue::Str(s) => s.clone(),
            _ => {
                return Err(String::from_str("Missing or invalid 'description' field in function"));
            },
        },
        None => {
            return Err(String::from_str("Missing or invalid 'description' field in function"));
        },
    };
    let parameters: BfclParameter = match obj_get(v, "parameters") {
        Some(c) => match parse_parameter(c) {
            Ok(p) => p,
            Err(e) => {
                return Err(e);
            },
        },
        None => {
            return Err(String::from_str("Missing or invalid 'parameters' field in function"));
        },
    };
    if parameters.properties.is_none() {
        return Err(String::from_str("Missing or invalid 'parameters.properties' field"));
    }
    let required: Vec<String> = match &parameters.required {
        Some(rs) => clone_string_vec(rs),
        None => {
            return Err(String::from_str("Missing or invalid 'parameters.required' field"));
        },
    };
    Ok(BfclFunctionDef { name, description, parameters, required })
}

/// Model of a [`BfclDatasetEntry`].
#[verifier::ext_equal]
pub struct BfclDatasetEntryV {
    pub id: Seq<char>,
    pub question_content: Seq<char>,
    pub functions: Seq<BfclFunctionDefV>,
    pub raw_entry: Jv,
}

/// One benchmark case: its id, the question put to the model, the functions
/// it may call, and the original document the case was parsed from.  The
/// document is kept because translation passes rewrite the question text in
/// place without touching anything else.
#[derive(Debug)]
pub struct BfclDatasetEntry {
    pub id: String,
    pub question_content: String,
    pub functions: Vec<BfclFunctionDef>,
    pub raw_entry: JsonValue,
}

impl View for BfclDatasetEntry {
    type V = BfclDatasetEntryV;

    open spec fn view(&self) -> BfclDatasetEntryV {
        BfclDatasetEntryV {
            id: self.id@,
            question_content: self.question_content@,
            functions: fndefs_view(self.functions@),
            raw_entry: self.raw_entry@,
        }
    }
}

/// The question text of a dataset document: the `content` member of the
/// first message of the first question turn.
pub open spec fn question_content_of(fields: Seq<(Seq<char>, Jv)>) -> Option<Seq<char>> {
    match obj_lookup(fields, "question"@) {
        Some(Jv::Arr(qs)) => if qs.len() == 0 {
            None
        } else {
            match qs[0] {
                Jv::Arr(q0) => if q0.len() == 0 {
                    None
                } else {
                    match q0[0] {
                        Jv::Obj(q00) => match obj_lookup(q00, "content"@) {
                            Some(Jv::Str(s)) => Some(s),
                            _ => None,
                        },
                        _ => None,
                    }
                },
                _ => None,
            }
        },
        _ => None,
    }
}

/// The dataset entry a JSON document describes; `None` when any required
/// part is missing or mis-typed.
pub open spec fn dataset_entry_of_jv(v: Jv) -> Option<BfclDatasetEntryV> {
    match v {
        Jv::Obj(fields) => {
            let id = obj_lookup(fields, "id"@);
            if !(id matches Some(Jv::Str(_))) {
                None
            } else {
                match question_content_of(fields) {
                    None => None,
                    Some(qc) => match obj_lookup(fields, "function"@) {
                        Some(Jv::Arr(fs)) => match fndefs_of(fs) {
                            Some(ds) => Some(
                                BfclDatasetEntryV {
                                    id: id->0->Str_0,
                                    question_content: qc,
                                    functions: ds,
                                    raw_entry: v,
                                },
                            ),
                            None => None,
                        },
                        _ => None,
                    },
                }
            }
        },
        _ => None,
    }
}

impl BfclDatasetEntry {
    /// Parses a dataset entry from its JSON document, strictly, and keeps
    /// the document itself.
    pub fn deserialize_from_json(raw_entry: JsonValue) -> (r: Result<BfclDatasetEntry, String>)
        ensures
            match r {
                Ok(e) => dataset_entry_of_jv(raw_entry@) == Some(e@),
                Err(m) => dataset_entry_of_jv(raw_entry@) is None && m@ == dataset_err_msg(
                    raw_entry@,
                ),
            },
    {
        if !(matches!(&raw_entry, JsonValue::Obj(_))) {
            return Err(String::from_str("Dataset entry should be a JSON object"));
        }
        let id: String = match obj_get(&raw_entry, "id") {
            Some(c) => match c {
                JsonValue::Str(s) => s.clone(),
                _ => {
                    return Err(String::from_str("Missing or invalid 'id' field"));
                },
            },
            None => {
                return Err(String::from_str("Missing or invalid 'id' field"));
            },
        };
        let question_content: String = {
            let qs = match obj_get(&raw_entry, "question") {
                Some(c) => match c {
                    JsonValue::Arr(qs) => qs,
                    _ => {
                        return Err(
                            String::from_str("Missing or invalid 'question[0][0].content' field"),
                        );
                    },
                },
                None => {
                    return Err(
                        String::from_str("Missing or invalid 'question[0][0].content' field"),
                    );
                },
            };
            proof {
                lemma_jv_of_seq_index(qs@);
            }
            if qs.len() == 0 {
                return Err(String::from_str("Missing or invalid 'question[0][0].content' field"));
            }
            let q0 = match &qs[0] {
                JsonValue::Arr(q0) => q0,
                _ => {
                    return Err(
                        String::from_str("Missing or invalid 'question[0][0].content' field"),
                    );
                },
            };
            proof {
                lemma_jv_of_seq_index(q0@);
            }
            if q0.len() == 0 {
                return Err(String::from_str("Missing or invalid 'question[0][0].content' field"));
            }
            match obj_get(&q0[0], "content") {
                Some(c) => match c {
                    JsonValue::Str(s) => s.clone(),
                    _ => {
                        return Err(
                            String::from_str("Missing or invalid 'question[0][0].content' field"),
                        );
                    },
                },
                None => {
                    return Err(
                        String::from_str("Missing or invalid 'question[0][0].content' field"),
                    );
                },
            }
        };
        let fs = match obj_get(&raw_entry, "function") {
            Some(c) => match c {
                JsonValue::Arr(fs) => fs,
                _ => {
                    return Err(String::from_str("Missing or invalid 'function' field"));
                },
            },
            None => {
                return Err(String::from_str("Missing or invalid 'function' field"));
            },
        };
        let ghost fsm = jv_of_seq(fs@);
        proof {
            lemma_jv_of_seq_index(fs@);
            assert(fsm.subrange(0, 0) =~= Seq::<Jv>::empty());
        }
        let mut functions: Vec<BfclFunctionDef> = Vec::new();
        let mut i: usize = 0;
        while i < fs.len()
            invariant
                i <= fs@.len(),
                fsm == jv_of_seq(fs@),
                raw_entry@ is Obj,
                jv_get(raw_entry@, "function"@) == Some(Jv::Arr(fsm)),
                dataset_err_msg(raw_entry@) == fndefs_err_msg(fsm),
                fsm.len() == fs@.len(),
                forall|k: int| 0 <= k < fsm.len() ==> fsm[k] == jv_of(fs@[k]),
                fndefs_of(fsm.subrange(0, i as int)) == Some(fndefs_view(functions@)),
            decreases fs@.len() - i,
        {
            match parse_function_def(&fs[i]) {
                Ok(d) => {
                    let ghost prev = functions@;
                    functions.push(d);
                    proof {
                        lemma_fndefs_of_snoc(fsm.subrange(0, i as int), fsm[i as int]);
                        assert(fsm.subrange(0, i as int).push(fsm[i as int]) =~= fsm.subrange(
                            0,
                            i + 1 as int,
                        ));
                        assert(fndefs_view(functions@) =~= fndefs_view(prev).push(
                            functions@.last()@,
                        ));
                    }
                },
                Err(e) => {
                    proof {
                        lemma_fndefs_of_fail(fsm, i as int);
                        lemma_fndefs_err_at(fsm, i as int);
                    }
                    return Err(e);
                },
            }
            i += 1;
        }
        proof {
            assert(fsm.subrange(0, fsm.len() as int) =~= fsm);
        }
        Ok(BfclDatasetEntry { id, question_content, functions, raw_entry })
    }

    /// The document this entry was parsed from.
    pub fn serialize_to_json(&self) -> (r: JsonValue)
        ensures
            r@ == self@.raw_entry,
    {
        jv_clone(&self.raw_entry)
    }
}

} // verus!

verus! {

/// The document with the question text of the first message of the first
/// turn replaced; `None` when the document does not have that shape.
pub open spec fn modified_question(raw: Jv, txt: Seq<char>) -> Option<Jv> {
    match raw {
        Jv::Obj(fields) => match obj_lookup(fields, "question"@) {
            Some(Jv::Arr(qs)) => if qs.len() == 0 {
                None
            } else {
                match qs[0] {
                    Jv::Arr(q0) => if q0.len() == 0 {
                        None
                    } else {
                        match q0[0] {
                            Jv::Obj(q00) => Some(
                                Jv::Obj(
                                    obj_set(
                                        fields,
                                        "question"@,
                                        Jv::Arr(
                                            qs.update(
                                                0,
                                                Jv::Arr(
                                                    q0.update(
                                                        0,
                                                        Jv::Obj(
                                                            obj_set(q00, "content"@, Jv::Str(txt)),
                                                        ),
                                                    ),
                                                ),
                                            ),
                                        ),
                                    ),
                                ),
                            ),
                            _ => None,
                        }
                    },
                    _ => None,
                }
            },
            _ => None,
        },
        _ => None,
    }
}

impl BfclDatasetEntry {
    /// Replaces the question text inside the kept document and re-derives
    /// the cached `question_content`; everything else of the document and
    /// of the entry stays as it was.  Fails when the document does not have
    /// the expected shape.
    pub fn modify_question_content(&mut self, new_content: &str) -> (r: Result<(), String>)
        ensures
            match r {
                Ok(_) => {
                    &&& modified_question(old(self)@.raw_entry, new_content@) == Some(
                        final(self)@.raw_entry,
                    )
                    &&& final(self)@.question_content == new_content@
                    &&& final(self)@.id == old(self)@.id
                    &&& final(self)@.functions == old(self)@.functions
                },
                Err(m) => {
                    &&& modified_question(old(self)@.raw_entry, new_content@) is None
                    &&& *final(self) == *old(self)
                    &&& m@ == modify_err_msg(old(self)@.raw_entry)
                },
            },
    {
        let new_raw: JsonValue = {
            let raw = &self.raw_entry;
            let fields = match raw {
                JsonValue::Obj(fields) => fields,
                _ => {
                    return Err(String::from_str("Missing or invalid 'question' field"));
                },
            };
            let qs = match obj_get(raw, "question") {
                Some(c) => match c {
                    JsonValue::Arr(qs) => qs,
                    _ => {
                        return Err(String::from_str("Missing or invalid 'question' field"));
                    },
                },
                None => {
                    return Err(String::from_str("Missing or invalid 'question' field"));
                },
            };
            proof {
                lemma_jv_of_seq_index(qs@);
            }
            if qs.len() == 0 {
                return Err(String::from_str("Missing or invalid 'question[0]' field"));
            }
            let q0 = match &qs[0] {
                JsonValue::Arr(q0) => q0,
                _ => {
                    return Err(String::from_str("Missing or invalid 'question[0]' field"));
                },
            };
            proof {
                lemma_jv_of_seq_index(q0@);
            }
            if q0.len() == 0 {
                return Err(String::from_str("Missing or invalid 'question[0][0]' field"));
            }
            let q00f = match &q0[0] {
                JsonValue::Obj(q00f) => q00f,
                _ => {
                    return Err(String::from_str("Missing or invalid 'question[0][0]' field"));
                },
            };
            let new_q00 = JsonValue::Obj(
                obj_set_fields(
                    q00f,
                    String::from_str("content"),
                    JsonValue::Str(String::from_str(new_content)),
                ),
            );
            let ghost q0_m = jv_of_seq(q0@);
            let ghost qs_m = jv_of_seq(qs@);
            let mut new_q0 = jv_clone_vec(q0);
            let ghost new_q0_before = new_q0@;
            new_q0[0] = new_q00;
            proof {
                lemma_jv_of_seq_index(new_q0_before);
                lemma_jv_of_seq_index(new_q0@);
                assert(jv_of_seq(new_q0@) =~= q0_m.update(
                    0,
                    Jv::Obj(obj_set(jv_of_fields(q00f@), "content"@, Jv::Str(new_content@))),
                ));
            }
            let new_q0v = JsonValue::Arr(new_q0);
            let mut new_qs = jv_clone_vec(qs);
            let ghost new_qs_before = new_qs@;
            new_qs[0] = new_q0v;
            proof {
                lemma_jv_of_seq_index(new_qs_before);
                lemma_jv_of_seq_index(new_qs@);
                assert(jv_of_seq(new_qs@) =~= qs_m.update(
                    0,
                    Jv::Arr(
                        q0_m.update(
                            0,
                            Jv::Obj(
                                obj_set(jv_of_fields(q00f@), "content"@, Jv::Str(new_content@)),
                            ),
                        ),
                    ),
                ));
            }
            JsonValue::Obj(
                obj_set_fields(fields, String::from_str("question"), JsonValue::Arr(new_qs)),
            )
        };
        proof {
            assert(modified_question(self@.raw_entry, new_content@) == Some(new_raw@));
        }
        self.raw_entry = new_raw;
        self.question_content = String::from_str(new_content);
        Ok(())
    }
}

/// Model of a [`BfclGroundTruthFunctionCallParameters`].
#[verifier::ext_equal]
pub struct BfclGroundTruthCallV {
    pub function_name: Seq<char>,
    pub parameters: Seq<(Seq<char>, Seq<Jv>)>,
}

/// One acceptable call of a ground-truth entry: the expected function name
/// and, per parameter, the list of acceptable value alternatives.
#[derive(Debug)]
pub struct BfclGroundTruthFunctionCallParameters {
    pub function_name: String,
    pub parameters: Vec<(String, Vec<JsonValue>)>,
}

/// The models of a ground-truth parameter map.
pub open spec fn gt_params_view(ps: Seq<(String, Vec<JsonValue>)>) -> Seq<(Seq<char>, Seq<Jv>)> {
    Seq::new(ps.len(), |i: int| (ps[i].0@, jv_of_seq(ps[i].1@)))
}

impl View for BfclGroundTruthFunctionCallParameters {
    type V = BfclGroundTruthCallV;

    open spec fn view(&self) -> BfclGroundTruthCallV {
        BfclGroundTruthCallV {
            function_name: self.function_name@,
            parameters: gt_params_view(self.parameters@),
        }
    }
}

/// The value-alternative lists of a ground-truth parameter object; `None`
/// when a parameter's value is not an array.
pub open spec fn arrays_of_members(fields: Seq<(Seq<char>, Jv)>) -> Option<
    Seq<(Seq<char>, Seq<Jv>)>,
>
    decreases fields.len(),
{
    if fields.len() == 0 {
        Some(Seq::empty())
    } else {
        match fields[0].1 {
            Jv::Arr(vs) => match arrays_of_members(fields.drop_first()) {
                Some(rest) => Some(seq![(fields[0].0, vs)] + rest),
                None => None,
            },
            _ => None,
        }
    }
}

/// Extending `arrays_of_members` by one member.
proof fn lemma_arrays_of_members_snoc(fields: Seq<(Seq<char>, Jv)>, f: (Seq<char>, Jv))
    ensures
        arrays_of_members(fields.push(f)) == match arrays_of_members(fields) {
            Some(ps) => match f.1 {
                Jv::Arr(vs) => Some(ps.push((f.0, vs))),
                _ => None,
            },
            None => None,
        },
    decreases fields.len(),
{
    if fields.len() == 0 {
        assert(fields.push(f)[0] == f);
        assert(fields.push(f).drop_first() =~= fields);
        match f.1 {
            Jv::Arr(vs) => {
                assert(arrays_of_members(fields.push(f)) matches Some(o) && o =~= Seq::empty().push(
                    (f.0, vs),
                ));
            },
            _ => {},
        }
    } else {
        lemma_arrays_of_members_snoc(fields.drop_first(), f);
        assert(fields.push(f).drop_first() =~= fields.drop_first().push(f));
        assert(fields.push(f)[0] == fields[0]);
        match (fields[0].1, arrays_of_members(fields.drop_first()), f.1) {
            (Jv::Arr(v0), Some(rest), Jv::Arr(vs)) => {
                assert(seq![(fields[0].0, v0)] + rest.push((f.0, vs)) =~= (seq![(fields[0].0, v0)]
                    + rest).push((f.0, vs)));
            },
            _ => {},
        }
    }
}

/// A non-array member value makes the whole parameter object malformed.
proof fn lemma_arrays_of_members_fail(fields: Seq<(Seq<char>, Jv)>, j: int)
    requires
        0 <= j < fields.len(),
        !(fields[j].1 is Arr),
    ensures
        arrays_of_members(fields) is None,
    decreases fields.len(),
{
    if j > 0 {
        lemma_arrays_of_members_fail(fields.drop_first(), j - 1);
        assert(fields.drop_first()[j - 1] == fields[j]);
    }
}

/// `arrays_of_members` keeps keys and turns each value into its elements.
proof fn lemma_arrays_of_members_index(fields: Seq<(Seq<char>, Jv)>)
    requires
        arrays_of_members(fields) is Some,
    ensures
        arrays_of_members(fields)->0.len() == fields.len(),
        forall|i: int| 0 <= i < fields.len() ==> fields[i].1 is Arr,
        forall|i: int| 0 <= i < fields.len() ==> arrays_of_members(fields)->0[i] == (
            fields[i].0,
            fields[i].1->Arr_0,
        ),
    decreases fields.len(),
{
    if fields.len() > 0 {
        lemma_arrays_of_members_index(fields.drop_first());
        assert forall|i: int| 0 <= i < fields.len() implies (#[trigger] fields[i]).1 is Arr by {
            if i > 0 {
                assert(fields.drop_first()[i - 1] == fields[i]);
            }
        }
        assert forall|i: int|
            0 <= i < fields.len() implies arrays_of_members(fields)->0[i] == (
            (#[trigger] fields[i]).0,
            fields[i].1->Arr_0,
        ) by {
            if i > 0 {
                assert(fields.drop_first()[i - 1] == fields[i]);
            }
        }
    }
}

/// The ground-truth call a JSON tree describes: an object with exactly one
/// member, mapping the function name to a parameter object whose values are
/// arrays of acceptable alternatives.
pub open spec fn gt_call_of_jv(v: Jv) -> Option<BfclGroundTruthCallV> {
    match v {
        Jv::Obj(fields) => if fields.len() != 1 {
            None
        } else {
            match fields[0].1 {
                Jv::Obj(params) => match arrays_of_members(params) {
                    Some(ps) => Some(
                        BfclGroundTruthCallV { function_name: fields[0].0, parameters: ps },
                    ),
                    None => None,
                },
                _ => None,
            }
        },
        _ => None,
    }
}

/// The JSON tree a ground-truth call serializes to.
pub open spec fn gt_call_to_jv(g: BfclGroundTruthCallV) -> Jv {
    Jv::Obj(
        seq![
            (
                g.function_name,
                Jv::Obj(Seq::new(g.parameters.len(), |i: int| (g.parameters[i].0, Jv::Arr(g.parameters[i].1)))),
            ),
        ],
    )
}

impl BfclGroundTruthFunctionCallParameters {
    /// Serializes the call back to its JSON shape.
    pub fn serialize_to_json(self) -> (r: JsonValue)
        ensures
            r@ == gt_call_to_jv(self@),
    {
        let mut params: Vec<(String, JsonValue)> = Vec::new();
        let mut i: usize = 0;
        while i < self.parameters.len()
            invariant
                i <= self.parameters@.len(),
                params@.len() == i,
                forall|k: int| 0 <= k < i ==> params@[k].0@ == self.parameters@[k].0@ && jv_of(
                    params@[k].1,
                ) == Jv::Arr(jv_of_seq(self.parameters@[k].1@)),
            decreases self.parameters@.len() - i,
        {
            let k = self.parameters[i].0.clone();
            let vs = jv_clone_vec(&self.parameters[i].1);
            params.push((k, JsonValue::Arr(vs)));
            i += 1;
        }
        let mut outer: Vec<(String, JsonValue)> = Vec::new();
        outer.push((self.function_name.clone(), JsonValue::Obj(params)));
        let r = JsonValue::Obj(outer);
        proof {
            lemma_jv_of_fields_index(params@);
            lemma_jv_of_fields_index(outer@);
            assert(jv_of_fields(params@) =~= gt_call_to_jv(self@)->Obj_0[0].1->Obj_0);
            assert(jv_of_fields(outer@) =~= gt_call_to_jv(self@)->Obj_0);
        }
        r
    }

    /// Parses a ground-truth call from its JSON shape.
    pub fn deserialize_from_json(value: &JsonValue) -> (r: Result<
        BfclGroundTruthFunctionCallParameters,
        String,
    >)
        ensures
            match r {
                Ok(g) => gt_call_of_jv(value@) == Some(g@),
                Err(m) => gt_call_of_jv(value@) is None && m@ == gt_call_err_msg(value@),
            },
    {
        let fields = match value {
            JsonValue::Obj(fields) => fields,
            _ => {
                return Err(String::from_str("Expected a JSON object"));
            },
        };
        proof {
            lemma_jv_of_fields_index(fields@);
        }
        if fields.len() != 1 {
            return Err(String::from_str("Expected exactly one function call"));
        }
        let function_name = fields[0].0.clone();
        let params = match &fields[0].1 {
            JsonValue::Obj(params) => params,
            _ => {
                return Err(String::from_str("Expected parameters to be a JSON object"));
            },
        };
        let ghost pm = jv_of_fields(params@);
        proof {
            lemma_jv_of_fields_index(params@);
            assert(pm.subrange(0, 0) =~= Seq::<(Seq<char>, Jv)>::empty());
        }
        let mut parameters: Vec<(String, Vec<JsonValue>)> = Vec::new();
        let mut i: usize = 0;
        while i < params.len()
            invariant
                i <= params@.len(),
                pm == jv_of_fields(params@),
                pm.len() == params@.len(),
                forall|k: int| 0 <= k < pm.len() ==> pm[k] == (params@[k].0@, jv_of(params@[k].1)),
                value@ is Obj,
                value@->Obj_0.len() == 1,
                value@->Obj_0[0].1 == Jv::Obj(pm),
                arrays_of_members(pm.subrange(0, i as int)) == Some(gt_params_view(parameters@)),
            decreases params@.len() - i,
        {
            match &params[i].1 {
                JsonValue::Arr(vs) => {
                    let k = params[i].0.clone();
                    let cs = jv_clone_vec(vs);
                    let ghost prev = parameters@;
                    parameters.push((k, cs));
                    proof {
                        lemma_arrays_of_members_snoc(pm.subrange(0, i as int), pm[i as int]);
                        assert(pm.subrange(0, i as int).push(pm[i as int]) =~= pm.subrange(
                            0,
                            i + 1 as int,
                        ));
                        assert(gt_params_view(parameters@) =~= gt_params_view(prev).push(
                            (params@[i as int].0@, jv_of_seq(params@[i as int].1->Arr_0@)),
                        ));
                    }
                },
                _ => {
                    proof {
                        lemma_arrays_of_members_fail(pm, i as int);
                    }
                    return Err(String::from_str("Expected parameter value to be a JSON array"));
                },
            }
            i += 1;
        }
        proof {
            assert(pm.subrange(0, pm.len() as int) =~= pm);
        }
        Ok(BfclGroundTruthFunctionCallParameters { function_name, parameters })
    }
}

/// Parsing a ground-truth call and serializing it back gives the document
/// it came from; serializing any call gives a document that parses back to
/// the same call.
pub proof fn lemma_gt_call_round_trip(v: Jv, g: BfclGroundTruthCallV)
    ensures
        gt_call_of_jv(v) == Some(g) ==> gt_call_to_jv(g) == v,
        gt_call_of_jv(gt_call_to_jv(g)) == Some(g),
{
    if gt_call_of_jv(v) == Some(g) {
        let fields = v->Obj_0;
        let params = fields[0].1->Obj_0;
        lemma_arrays_of_members_index(params);
        assert(Seq::new(g.parameters.len(), |i: int| (g.parameters[i].0, Jv::Arr(g.parameters[i].1)))
            =~= params);
        assert(gt_call_to_jv(g)->Obj_0 =~= fields);
    }
    let made = gt_call_to_jv(g);
    let mfields = made->Obj_0;
    let mparams = mfields[0].1->Obj_0;
    lemma_arrays_of_members_complete(g.parameters);
    assert(gt_call_of_jv(made)->0 =~= g);
}

/// A member list built from alternative lists always parses back to them.
proof fn lemma_arrays_of_members_complete(ps: Seq<(Seq<char>, Seq<Jv>)>)
    ensures
        arrays_of_members(Seq::new(ps.len(), |i: int| (ps[i].0, Jv::Arr(ps[i].1)))) == Some(ps),
    decreases ps.len(),
{
    let m = Seq::new(ps.len(), |i: int| (ps[i].0, Jv::Arr(ps[i].1)));
    if ps.len() > 0 {
        lemma_arrays_of_members_complete(ps.drop_first());
        let mtail = Seq::new(
            ps.drop_first().len(),
            |i: int| (ps.drop_first()[i].0, Jv::Arr(ps.drop_first()[i].1)),
        );
        assert(m.drop_first() =~= mtail);
        assert(arrays_of_members(m)->0 =~= ps);
    } else {
        assert(arrays_of_members(m) =~= Some(ps));
    }
}

} // verus!

verus! {

/// Model of a [`BfclOutputFunctionCall`].
#[verifier::ext_equal]
pub struct BfclOutputCallV {
    pub function_name: Seq<char>,
    pub parameters: Seq<(Seq<char>, Jv)>,
}

/// One structured call extracted from a model's answer: the called function
/// and its arguments, keys in the model's order.
#[derive(Debug)]
pub struct BfclOutputFunctionCall {
    pub function_name: String,
    pub parameters: Vec<(String, JsonValue)>,
}

impl View for BfclOutputFunctionCall {
    type V = BfclOutputCallV;

    open spec fn view(&self) -> BfclOutputCallV {
        BfclOutputCallV {
            function_name: self.function_name@,
            parameters: jv_of_fields(self.parameters@),
        }
    }
}

/// The output call a JSON tree describes: an object with exactly one
/// member, mapping the function name to the argument object.
pub open spec fn out_call_of_jv(v: Jv) -> Option<BfclOutputCallV> {
    match v {
        Jv::Obj(fields) => if fields.len() != 1 {
            None
        } else {
            match fields[0].1 {
                Jv::Obj(params) => Some(
                    BfclOutputCallV { function_name: fields[0].0, parameters: params },
                ),
                _ => None,
            }
        },
        _ => None,
    }
}

/// The JSON tree an output call serializes to.
pub open spec fn out_call_to_jv(g: BfclOutputCallV) -> Jv {
    Jv::Obj(seq![(g.function_name, Jv::Obj(g.parameters))])
}

impl BfclOutputFunctionCall {
    /// Builds a call from its parts.
    pub fn new(function_name: String, parameters: Vec<(String, JsonValue)>) -> (r:
        BfclOutputFunctionCall)
        ensures
            r@.function_name == function_name@,
            r@.parameters == jv_of_fields(parameters@),
    {
        BfclOutputFunctionCall { function_name, parameters }
    }

    /// Serializes the call back to its JSON shape.
    pub fn serialize_to_json(self) -> (r: JsonValue)
        ensures
            r@ == out_call_to_jv(self@),
    {
        let ghost gv = self@;
        let mut outer: Vec<(String, JsonValue)> = Vec::new();
        outer.push((self.function_name, JsonValue::Obj(self.parameters)));
        let r = JsonValue::Obj(outer);
        proof {
            lemma_jv_of_fields_index(outer@);
            assert(jv_of_fields(outer@) =~= out_call_to_jv(gv)->Obj_0);
        }
        r
    }

    /// Parses an output call from its JSON shape.
    pub fn deserialize_from_json(value: &JsonValue) -> (r: Result<BfclOutputFunctionCall, String>)
        ensures
            match r {
                Ok(g) => out_call_of_jv(value@) == Some(g@),
                Err(m) => out_call_of_jv(value@) is None && m@ == out_call_err_msg(value@),
            },
    {
        let fields = match value {
            JsonValue::Obj(fields) => fields,
            _ => {
                return Err(String::from_str("Expected a JSON object"));
            },
        };
        proof {
            lemma_jv_of_fields_index(fields@);
        }
        if fields.len() != 1 {
            return Err(String::from_str("Expected exactly one function call"));
        }
        let function_name = fields[0].0.clone();
        let params = match &fields[0].1 {
            JsonValue::Obj(params) => params,
            _ => {
                return Err(String::from_str("Expected parameters to be a JSON object"));
            },
        };
        let parameters = crate::jsonval::jv_clone_fields(params);
        Ok(BfclOutputFunctionCall { function_name, parameters })
    }
}

/// Parsing an output call and serializing it back gives the document it
/// came from; serializing any call gives a document that parses back to the
/// same call.
pub proof fn lemma_out_call_round_trip(v: Jv, g: BfclOutputCallV)
    ensures
        out_call_of_jv(v) == Some(g) ==> out_call_to_jv(g) == v,
        out_call_of_jv(out_call_to_jv(g)) == Some(g),
{
    if out_call_of_jv(v) == Some(g) {
        let fields = v->Obj_0;
        assert(out_call_to_jv(g)->Obj_0 =~= fields);
    }
    assert(out_call_of_jv(out_call_to_jv(g))->0 =~= g);
}

/// Model of a [`BfclGroundTruthEntry`].
#[verifier::ext_equal]
pub struct BfclGroundTruthEntryV {
    pub id: Seq<char>,
    pub ground_truth: Seq<BfclGroundTruthCallV>,
}

/// The ground truth for one benchmark case: the case id and the acceptable
/// calls.  The evaluated subset carries exactly one call per entry.
#[derive(Debug)]
pub struct BfclGroundTruthEntry {
    pub id: String,
    pub ground_truth: Vec<BfclGroundTruthFunctionCallParameters>,
}

/// The models of a list of ground-truth calls.
pub open spec fn gt_calls_view(s: Seq<BfclGroundTruthFunctionCallParameters>) -> Seq<
    BfclGroundTruthCallV,
> {
    Seq::new(s.len(), |i: int| s[i]@)
}

impl View for BfclGroundTruthEntry {
    type V = BfclGroundTruthEntryV;

    open spec fn view(&self) -> BfclGroundTruthEntryV {
        BfclGroundTruthEntryV { id: self.id@, ground_truth: gt_calls_view(self.ground_truth@) }
    }
}

/// The ground-truth calls a JSON array describes; `None` when any element
/// is malformed.
pub open spec fn gt_calls_of(items: Seq<Jv>) -> Option<Seq<BfclGroundTruthCallV>>
    decreases items.len(),
{
    if items.len() == 0 {
        Some(Seq::empty())
    } else {
        match gt_call_of_jv(items[0]) {
            Some(g) => match gt_calls_of(items.drop_first()) {
                Some(rest) => Some(seq![g] + rest),
                None => None,
            },
            None => None,
        }
    }
}

/// Extending `gt_calls_of` by one element.
proof fn lemma_gt_calls_of_snoc(items: Seq<Jv>, x: Jv)
    ensures
        gt_calls_of(items.push(x)) == match gt_calls_of(items) {
            Some(gs) => match gt_call_of_jv(x) {
                Some(g) => Some(gs.push(g)),
                None => None,
            },
            None => None,
        },
    decreases items.len(),
{
    if items.len() == 0 {
        assert(items.push(x)[0] == x);
        assert(items.push(x).drop_first() =~= items);
        match gt_call_of_jv(x) {
            Some(g) => {
                assert(gt_calls_of(items.push(x)) matches Some(o) && o =~= Seq::empty().push(g));
            },
            None => {},
        }
    } else {
        lemma_gt_calls_of_snoc(items.drop_first(), x);
        assert(items.push(x).drop_first() =~= items.drop_first().push(x));
        assert(items.push(x)[0] == items[0]);
        match (gt_call_of_jv(items[0]), gt_calls_of(items.drop_first()), gt_call_of_jv(x)) {
            (Some(g0), Some(rest), Some(g)) => {
                assert(seq![g0] + rest.push(g) =~= (seq![g0] + rest).push(g));
            },
            _ => {},
        }
    }
}

/// A malformed element makes the whole list malformed.
proof fn lemma_gt_calls_of_fail(items: Seq<Jv>, j: int)
    requires
        0 <= j < items.len(),
        gt_call_of_jv(items[j]) is None,
    ensures
        gt_calls_of(items) is None,
    decreases items.len(),
{
    if j > 0 {
        lemma_gt_calls_of_fail(items.drop_first(), j - 1);
        assert(items.drop_first()[j - 1] == items[j]);
    }
}

/// The ground-truth entry a JSON document describes.
pub open spec fn gt_entry_of_jv(v: Jv) -> Option<BfclGroundTruthEntryV> {
    match v {
        Jv::Obj(fields) => {
            let id = obj_lookup(fields, "id"@);
            if !(id matches Some(Jv::Str(_))) {
                None
            } else {
                match obj_lookup(fields, "ground_truth"@) {
                    Some(Jv::Arr(gs)) => match gt_calls_of(gs) {
                        Some(cs) => Some(
                            BfclGroundTruthEntryV { id: id->0->Str_0, ground_truth: cs },
                        ),
                        None => None,
                    },
                    _ => None,
                }
            }
        },
        _ => None,
    }
}

impl BfclGroundTruthEntry {
    /// Parses a ground-truth entry from its JSON document.
    pub fn deserialize_from_json(raw_entry: JsonValue) -> (r: Result<BfclGroundTruthEntry, String>)
        ensures
            match r {
                Ok(e) => gt_entry_of_jv(raw_entry@) == Some(e@),
                Err(m) => gt_entry_of_jv(raw_entry@) is None && m@ == gt_entry_err_msg(
                    raw_entry@,
                ),
            },
    {
        if !(matches!(&raw_entry, JsonValue::Obj(_))) {
            return Err(String::from_str("Ground truth entry should be a JSON object"));
        }
        let id: String = match obj_get(&raw_entry, "id") {
            Some(c) => match c {
                JsonValue::Str(s) => s.clone(),
                _ => {
                    return Err(String::from_str("Missing or invalid 'id' field"));
                },
            },
            None => {
                return Err(String::from_str("Missing or invalid 'id' field"));
            },
        };
        let gs = match obj_get(&raw_entry, "ground_truth") {
            Some(c) => match c {
                JsonValue::Arr(gs) => gs,
                _ => {
                    return Err(String::from_str("Missing or invalid 'ground_truth' field"));
                },
            },
            None => {
                return Err(String::from_str("Missing or invalid 'ground_truth' field"));
            },
        };
        let ghost gm = jv_of_seq(gs@);
        proof {
            lemma_jv_of_seq_index(gs@);
            assert(gm.subrange(0, 0) =~= Seq::<Jv>::empty());
        }
        let mut ground_truth: Vec<BfclGroundTruthFunctionCallParameters> = Vec::new();
        let mut i: usize = 0;
        while i < gs.len()
            invariant
                i <= gs@.len(),
                gm == jv_of_seq(gs@),
                gm.len() == gs@.len(),
                forall|k: int| 0 <= k < gm.len() ==> gm[k] == jv_of(gs@[k]),
                raw_entry@ is Obj,
                jv_get(raw_entry@, "ground_truth"@) == Some(Jv::Arr(gm)),
                gt_entry_err_msg(raw_entry@) == gt_calls_err_msg(gm),
                gt_calls_of(gm.subrange(0, i as int)) == Some(gt_calls_view(ground_truth@)),
            decreases gs@.len() - i,
        {
            match BfclGroundTruthFunctionCallParameters::deserialize_from_json(&gs[i]) {
                Ok(g) => {
                    let ghost prev = ground_truth@;
                    ground_truth.push(g);
                    proof {
                        lemma_gt_calls_of_snoc(gm.subrange(0, i as int), gm[i as int]);
                        assert(gm.subrange(0, i as int).push(gm[i as int]) =~= gm.subrange(
                            0,
                            i + 1 as int,
                        ));
                        assert(gt_calls_view(ground_truth@) =~= gt_calls_view(prev).push(
                            ground_truth@.last()@,
                        ));
                    }
                },
                Err(e) => {
                    proof {
                        lemma_gt_calls_of_fail(gm, i as int);
                        lemma_gt_calls_err_at(gm, i as int);
                    }
                    return Err(e);
                },
            }
            i += 1;
        }
        proof {
            assert(gm.subrange(0, gm.len() as int) =~= gm);
        }
        Ok(BfclGroundTruthEntry { id, ground_truth })
    }
}

} // verus!

verus! {

/// A parsed dataset entry keeps its document: serializing it back gives
/// exactly the document it was parsed from, every field and member order
/// included.
pub proof fn lemma_dataset_entry_round_trip(d: Jv, e: BfclDatasetEntryV)
    ensures
        dataset_entry_of_jv(d) == Some(e) ==> e.raw_entry == d,
{
}

} // verus!

verus! {

/// The message of the checks of a schema node after `properties` and
/// `items` have passed: enumeration, annotations, required list, flag.
/// Empty when none of them fails.
pub open spec fn param_tail_err_msg(fields: Seq<(Seq<char>, Jv)>) -> Seq<char> {
    if (match obj_lookup(fields, "enum"@) {
        Some(e) => !(e is Arr),
        None => false,
    }) {
        "'enum' field should be an array"@
    } else if opt_str_member(fields, "description"@) is None {
        "'description' field should be a string"@
    } else if opt_str_member(fields, "format"@) is None {
        "'format' field should be a string"@
    } else {
        match obj_lookup(fields, "required"@) {
            Some(Jv::Arr(items)) => if strings_of(items) is None {
                "Expected a string in string list"@
            } else if opt_bool_member(fields, "optional"@) is None {
                "'optional' field should be a bool"@
            } else {
                Seq::empty()
            },
            Some(_) => "'required' field should be an array"@,
            None => if opt_bool_member(fields, "optional"@) is None {
                "'optional' field should be a bool"@
            } else {
                Seq::empty()
            },
        }
    }
}

/// The message a failed schema-node parse reports, by the check that
/// failed first, in check order.
pub open spec fn param_err_msg(v: Jv) -> Seq<char>
    decreases v,
    via param_err_msg_decreases
{
    match v {
        Jv::Obj(fields) => {
            if !param_keys_ok(fields) {
                "Unknown or repeated field in parameter"@
            } else if !(obj_lookup(fields, "type"@) matches Some(Jv::Str(_))) {
                "Missing or invalid 'type' field in parameter"@
            } else {
                match obj_lookup(fields, "properties"@) {
                    Some(Jv::Obj(pf)) => if params_of_members(pf) is None {
                        param_members_err_msg(pf)
                    } else {
                        param_nested_err_msg(fields)
                    },
                    Some(_) => "'properties' field should be an object"@,
                    None => param_nested_err_msg(fields),
                }
            }
        },
        _ => "Parameter should be a JSON object"@,
    }
}

/// The message of the `items` check, or of the tail checks when the nested
/// schema parses.
pub open spec fn param_nested_err_msg(fields: Seq<(Seq<char>, Jv)>) -> Seq<char>
    decreases fields,
    via param_nested_err_msg_decreases
{
    match obj_lookup(fields, "items"@) {
        Some(iv) => if param_of_jv(iv) is None {
            param_err_msg(iv)
        } else {
            param_tail_err_msg(fields)
        },
        None => param_tail_err_msg(fields),
    }
}

/// The message of the first member of a `properties` object that fails to
/// parse.
pub open spec fn param_members_err_msg(fields: Seq<(Seq<char>, Jv)>) -> Seq<char>
    decreases fields,
{
    if fields.len() == 0 {
        Seq::empty()
    } else if param_of_jv(fields[0].1) is None {
        param_err_msg(fields[0].1)
    } else {
        param_members_err_msg(fields.drop_first())
    }
}

#[via_fn]
proof fn param_err_msg_decreases(v: Jv) {
    match v {
        Jv::Obj(fields) => {
            if obj_lookup(fields, "properties"@) is Some {
                lemma_obj_lookup_element(fields, "properties"@);
                let k = choose|k: int|
                    0 <= k < fields.len() && fields[k].1 == obj_lookup(fields, "properties"@)->0
                        && fields[k].0 == "properties"@;
                assert(decreases_to!(fields => fields[k]));
                assert(decreases_to!(v => fields[k].1));
            }
        },
        _ => {},
    }
}

#[via_fn]
proof fn param_nested_err_msg_decreases(fields: Seq<(Seq<char>, Jv)>) {
    if obj_lookup(fields, "items"@) is Some {
        lemma_obj_lookup_element(fields, "items"@);
        let k = choose|k: int|
            0 <= k < fields.len() && fields[k].1 == obj_lookup(fields, "items"@)->0 && fields[k].0
                == "items"@;
        assert(decreases_to!(fields => fields[k]));
        assert(decreases_to!(fields => fields[k].1));
    }
}

/// The message a failed function-definition parse reports, by the check
/// that failed first.
pub open spec fn fndef_err_msg(v: Jv) -> Seq<char>
    decreases v,
    via fndef_err_msg_decreases
{
    match v {
        Jv::Obj(fields) => {
            if !(obj_lookup(fields, "name"@) matches Some(Jv::Str(_))) {
                "Missing or invalid 'name' field in function"@
            } else if !(obj_lookup(fields, "description"@) matches Some(Jv::Str(_))) {
                "Missing or invalid 'description' field in function"@
            } else {
                match obj_lookup(fields, "parameters"@) {
                    None => "Missing or invalid 'parameters' field in function"@,
                    Some(pv) => match param_of_jv(pv) {
                        None => param_err_msg(pv),
                        Some(p) => if p.properties is None {
                            "Missing or invalid 'parameters.properties' field"@
                        } else if p.required is None {
                            "Missing or invalid 'parameters.required' field"@
                        } else {
                            Seq::empty()
                        },
                    },
                }
            }
        },
        _ => "Function should be a JSON object"@,
    }
}

#[via_fn]
proof fn fndef_err_msg_decreases(v: Jv) {
    match v {
        Jv::Obj(fields) => {
            if obj_lookup(fields, "parameters"@) is Some {
                lemma_obj_lookup_element(fields, "parameters"@);
                let k = choose|k: int|
                    0 <= k < fields.len() && fields[k].1 == obj_lookup(fields, "parameters"@)->0
                        && fields[k].0 == "parameters"@;
                assert(decreases_to!(fields => fields[k]));
                assert(decreases_to!(v => fields[k].1));
            }
        },
        _ => {},
    }
}

/// The message of the first function of a `function` array that fails to
/// parse.
pub open spec fn fndefs_err_msg(items: Seq<Jv>) -> Seq<char>
    decreases items.len(),
{
    if items.len() == 0 {
        Seq::empty()
    } else if fndef_of_jv(items[0]) is None {
        fndef_err_msg(items[0])
    } else {
        fndefs_err_msg(items.drop_first())
    }
}

/// The message a failed dataset-entry parse reports: it names the missing
/// or mis-typed field, or carries the first failing function's message.
pub open spec fn dataset_err_msg(v: Jv) -> Seq<char> {
    match v {
        Jv::Obj(fields) => {
            if !(obj_lookup(fields, "id"@) matches Some(Jv::Str(_))) {
                "Missing or invalid 'id' field"@
            } else if question_content_of(fields) is None {
                "Missing or invalid 'question[0][0].content' field"@
            } else {
                match obj_lookup(fields, "function"@) {
                    Some(Jv::Arr(fs)) => fndefs_err_msg(fs),
                    _ => "Missing or invalid 'function' field"@,
                }
            }
        },
        _ => "Dataset entry should be a JSON object"@,
    }
}

/// The message a failed ground-truth-call parse reports.
pub open spec fn gt_call_err_msg(v: Jv) -> Seq<char> {
    match v {
        Jv::Obj(fields) => {
            if fields.len() != 1 {
                "Expected exactly one function call"@
            } else {
                match fields[0].1 {
                    Jv::Obj(params) => if arrays_of_members(params) is None {
                        "Expected parameter value to be a JSON array"@
                    } else {
                        Seq::empty()
                    },
                    _ => "Expected parameters to be a JSON object"@,
                }
            }
        },
        _ => "Expected a JSON object"@,
    }
}

/// The message a failed output-call parse reports.
pub open spec fn out_call_err_msg(v: Jv) -> Seq<char> {
    match v {
        Jv::Obj(fields) => {
            if fields.len() != 1 {
                "Expected exactly one function call"@
            } else {
                match fields[0].1 {
                    Jv::Obj(_) => Seq::empty(),
                    _ => "Expected parameters to be a JSON object"@,
                }
            }
        },
        _ => "Expected a JSON object"@,
    }
}

/// The message of the first call of a `ground_truth` array that fails to
/// parse, propagated unchanged.
pub open spec fn gt_calls_err_msg(items: Seq<Jv>) -> Seq<char>
    decreases items.len(),
{
    if items.len() == 0 {
        Seq::empty()
    } else if gt_call_of_jv(items[0]) is None {
        gt_call_err_msg(items[0])
    } else {
        gt_calls_err_msg(items.drop_first())
    }
}

/// The message a failed ground-truth-entry parse reports.
pub open spec fn gt_entry_err_msg(v: Jv) -> Seq<char> {
    match v {
        Jv::Obj(fields) => {
            if !(obj_lookup(fields, "id"@) matches Some(Jv::Str(_))) {
                "Missing or invalid 'id' field"@
            } else {
                match obj_lookup(fields, "ground_truth"@) {
                    Some(Jv::Arr(gs)) => gt_calls_err_msg(gs),
                    _ => "Missing or invalid 'ground_truth' field"@,
                }
            }
        },
        _ => "Ground truth entry should be a JSON object"@,
    }
}

/// The message a failed question rewrite reports: the deepest level of the
/// expected document shape that is missing.
pub open spec fn modify_err_msg(raw: Jv) -> Seq<char> {
    match raw {
        Jv::Obj(fields) => match obj_lookup(fields, "question"@) {
            Some(Jv::Arr(qs)) => if qs.len() == 0 {
                "Missing or invalid 'question[0]' field"@
            } else {
                match qs[0] {
                    Jv::Arr(q0) => if q0.len() == 0 {
                        "Missing or invalid 'question[0][0]' field"@
                    } else {
                        match q0[0] {
                            Jv::Obj(_) => Seq::empty(),
                            _ => "Missing or invalid 'question[0][0]' field"@,
                        }
                    },
                    _ => "Missing or invalid 'question[0]' field"@,
                }
            },
            _ => "Missing or invalid 'question' field"@,
        },
        _ => "Missing or invalid 'question' field"@,
    }
}

/// When a prefix of the members parses and member `j` does not, the
/// member-list message is member `j`'s message.
proof fn lemma_param_members_err_at(fields: Seq<(Seq<char>, Jv)>, j: int)
    requires
        0 <= j < fields.len(),
        params_of_members(fields.subrange(0, j)) is Some,
        param_of_jv(fields[j].1) is None,
    ensures
        param_members_err_msg(fields) == param_err_msg(fields[j].1),
    decreases j,
{
    if j == 0 {
    } else {
        assert(fields.subrange(0, j)[0] == fields[0]);
        assert(param_of_jv(fields[0].1) is Some);
        assert(fields.subrange(0, j).drop_first() =~= fields.drop_first().subrange(0, j - 1));
        lemma_param_members_err_at(fields.drop_first(), j - 1);
        assert(fields.drop_first()[j - 1] == fields[j]);
    }
}

/// When a prefix of the functions parses and function `j` does not, the
/// list message is function `j`'s message.
proof fn lemma_fndefs_err_at(items: Seq<Jv>, j: int)
    requires
        0 <= j < items.len(),
        fndefs_of(items.subrange(0, j)) is Some,
        fndef_of_jv(items[j]) is None,
    ensures
        fndefs_err_msg(items) == fndef_err_msg(items[j]),
    decreases j,
{
    if j == 0 {
    } else {
        assert(items.subrange(0, j)[0] == items[0]);
        assert(fndef_of_jv(items[0]) is Some);
        assert(items.subrange(0, j).drop_first() =~= items.drop_first().subrange(0, j - 1));
        lemma_fndefs_err_at(items.drop_first(), j - 1);
        assert(items.drop_first()[j - 1] == items[j]);
    }
}

/// When a prefix of the calls parses and call `j` does not, the list
/// message is call `j`'s message.
proof fn lemma_gt_calls_err_at(items: Seq<Jv>, j: int)
    requires
        0 <= j < items.len(),
        gt_calls_of(items.subrange(0, j)) is Some,
        gt_call_of_jv(items[j]) is None,
    ensures
        gt_calls_err_msg(items) == gt_call_err_msg(items[j]),
    decreases j,
{
    if j == 0 {
    } else {
        assert(items.subrange(0, j)[0] == items[0]);
        assert(gt_call_of_jv(items[0]) is Some);
        assert(items.subrange(0, j).drop_first() =~= items.drop_first().subrange(0, j - 1));
        lemma_gt_calls_err_at(items.drop_first(), j - 1);
        assert(items.drop_first()[j - 1] == items[j]);
    }
}

} // verus!
