//! The Granite-4 model-family adapter.
//!
//! Tool definitions follow the nested `{type:"function", function:{...}}`
//! schema, with the benchmark's type hints renamed to JSON-Schema names.
//! The model answers with `<tool_call>{...}</tool_call>` blocks; the
//! adapter frames those blocks into one JSON array text, and turns the
//! decoded array back into calls under original function names.

use crate::assoc::assoc_lookup;
use crate::function_name_mapper::{FunctionNameMapper, LookupError};
use crate::jsonval::{
    jv_clone, jv_clone_fields, jv_clone_vec, jv_get, jv_of, jv_of_fields, jv_of_seq,
    lemma_jv_of_fields_index, lemma_jv_of_seq_index, obj_get, obj_lookup, JsonValue, Jv,
};
use crate::strutil::str_eq_lit;
use crate::tool_bfcl_formats::{
    clone_string_vec, fndefs_view, BfclFunctionDef, BfclFunctionDefV, BfclOutputFunctionCall,
    BfclParameter, BfclParameterV,
};
use crate::tool_error_analysis::{EvalErrorV, EvaluationError};
use vstd::prelude::*;

verus! {

/// Model of a [`Granite4Parameter`].
#[verifier::ext_equal]
pub struct Granite4ParameterV {
    pub ty: Seq<char>,
    pub description: Option<Seq<char>>,
    pub properties: Option<Seq<(Seq<char>, Granite4ParameterV)>>,
    pub items: Option<Box<Granite4ParameterV>>,
    pub enum_values: Option<Seq<Jv>>,
    pub required: Option<Seq<Seq<char>>>,
    pub default: Option<Jv>,
    pub format: Option<Seq<char>>,
    pub maximum: Option<Jv>,
}

/// One node of a Granite-4 tool schema, mirroring the wire shape member by
/// member.
#[derive(Debug)]
pub struct Granite4Parameter {
    pub ty: String,
    pub description: Option<String>,
    pub properties: Option<Vec<(String, Granite4Parameter)>>,
    pub items: Option<Box<Granite4Parameter>>,
    pub enum_values: Option<Vec<JsonValue>>,
    pub required: Option<Vec<String>>,
    pub default: Option<JsonValue>,
    pub format: Option<String>,
    pub maximum: Option<JsonValue>,
}

/// The model of a Granite-4 schema node.
pub open spec fn g4_param_view(p: Granite4Parameter) -> Granite4ParameterV
    decreases p,
{
    Granite4ParameterV {
        ty: p.ty@,
        description: match p.description {
            None => None,
            Some(s) => Some(s@),
        },
        properties: match p.properties {
            None => None,
            Some(props) => Some(g4_fields_view(props@)),
        },
        items: match p.items {
            None => None,
            Some(b) => Some(Box::new(g4_param_view(*b))),
        },
        enum_values: match p.enum_values {
            None => None,
            Some(vs) => Some(jv_of_seq(vs@)),
        },
        required: match p.required {
            None => None,
            Some(rs) => Some(rs.deep_view()),
        },
        default: match p.default {
            None => None,
            Some(d) => Some(jv_of(d)),
        },
        format: match p.format {
            None => None,
            Some(s) => Some(s@),
        },
        maximum: match p.maximum {
            None => None,
            Some(m) => Some(jv_of(m)),
        },
    }
}

/// The models of named nested Granite-4 schema nodes.
pub open spec fn g4_fields_view(props: Seq<(String, Granite4Parameter)>) -> Seq<
    (Seq<char>, Granite4ParameterV),
>
    decreases props,
{
    if props.len() == 0 {
        Seq::empty()
    } else {
        seq![(props[0].0@, g4_param_view(props[0].1))] + g4_fields_view(props.drop_first())
    }
}

/// `g4_fields_view` maps the members one by one.
pub proof fn lemma_g4_fields_view_index(props: Seq<(String, Granite4Parameter)>)
    ensures
        g4_fields_view(props).len() == props.len(),
        forall|i: int| 0 <= i < props.len()
            ==> g4_fields_view(props)[i] == (props[i].0@, g4_param_view(props[i].1)),
    decreases props.len(),
{
    if props.len() > 0 {
        lemma_g4_fields_view_index(props.drop_first());
        assert forall|i: int| 0 <= i < props.len() implies g4_fields_view(props)[i] == (
            props[i].0@,
            g4_param_view(props[i].1),
        ) by {
            if i > 0 {
                assert(props.drop_first()[i - 1] == props[i]);
            }
        }
    }
}

impl View for Granite4Parameter {
    type V = Granite4ParameterV;

    open spec fn view(&self) -> Granite4ParameterV {
        g4_param_view(*self)
    }
}

/// The JSON-Schema name of a benchmark type hint: `dict` is an object,
/// `float` a number, `tuple` an array; everything else stands.
pub open spec fn spec_map_type_hint(ty: Seq<char>) -> Seq<char> {
    if ty == "dict"@ {
        "object"@
    } else if ty == "float"@ {
        "number"@
    } else if ty == "tuple"@ {
        "array"@
    } else {
        ty
    }
}

/// The Granite-4 schema node a benchmark schema node converts to: the type
/// hint renamed, the unused `optional` flag dropped, and every nested node
/// converted the same way.
pub open spec fn granite4_of_bfcl(p: BfclParameterV) -> Granite4ParameterV
    decreases p,
{
    Granite4ParameterV {
        ty: spec_map_type_hint(p.ty),
        description: p.description,
        properties: match p.properties {
            None => None,
            Some(props) => Some(granite4_of_bfcl_fields(props)),
        },
        items: match p.items {
            None => None,
            Some(b) => Some(Box::new(granite4_of_bfcl(*b))),
        },
        enum_values: p.enum_values,
        required: p.required,
        default: p.default,
        format: p.format,
        maximum: p.maximum,
    }
}

/// The conversions of named nested schema nodes.
pub open spec fn granite4_of_bfcl_fields(props: Seq<(Seq<char>, BfclParameterV)>) -> Seq<
    (Seq<char>, Granite4ParameterV),
>
    decreases props,
{
    if props.len() == 0 {
        Seq::empty()
    } else {
        seq![(props[0].0, granite4_of_bfcl(props[0].1))] + granite4_of_bfcl_fields(
            props.drop_first(),
        )
    }
}

/// `granite4_of_bfcl_fields` maps the members one by one.
pub proof fn lemma_granite4_of_bfcl_fields_index(props: Seq<(Seq<char>, BfclParameterV)>)
    ensures
        granite4_of_bfcl_fields(props).len() == props.len(),
        forall|i: int| 0 <= i < props.len()
            ==> granite4_of_bfcl_fields(props)[i] == (props[i].0, granite4_of_bfcl(props[i].1)),
    decreases props.len(),
{
    if props.len() > 0 {
        lemma_granite4_of_bfcl_fields_index(props.drop_first());
        assert forall|i: int| 0 <= i < props.len() implies granite4_of_bfcl_fields(props)[i] == (
            props[i].0,
            granite4_of_bfcl(props[i].1),
        ) by {
            if i > 0 {
                assert(props.drop_first()[i - 1] == props[i]);
            }
        }
    }
}

/// The Granite-4 adapter.
#[derive(Clone, Copy, Debug)]
pub struct Granite4Interface;

impl Granite4Interface {
    /// The JSON-Schema name of a benchmark type hint.
    pub fn map_type_hint(ty: &str) -> (r: String)
        ensures
            r@ == spec_map_type_hint(ty@),
    {
        if str_eq_lit(ty, "dict") {
            String::from_str("object")
        } else if str_eq_lit(ty, "float") {
            String::from_str("number")
        } else if str_eq_lit(ty, "tuple") {
            String::from_str("array")
        } else {
            String::from_str(ty)
        }
    }
}

/// Converts one benchmark schema node to the Granite-4 wire schema.
pub fn bfcl_param_to_granite4_param(bfcl_parameter: &BfclParameter) -> (r: Granite4Parameter)
    ensures
        r@ == granite4_of_bfcl(bfcl_parameter@),
    decreases *bfcl_parameter,
{
    let ty = Granite4Interface::map_type_hint(bfcl_parameter.ty.as_str());
    let description: Option<String> = match &bfcl_parameter.description {
        Some(s) => Some(s.clone()),
        None => None,
    };
    let properties: Option<Vec<(String, Granite4Parameter)>> = match &bfcl_parameter.properties {
        Some(props) => {
            proof {
                assert(decreases_to!(*bfcl_parameter => *props));
            }
            Some(bfcl_props_to_granite4(props))
        },
        None => None,
    };
    let items: Option<Box<Granite4Parameter>> = match &bfcl_parameter.items {
        Some(b) => {
            proof {
                assert(decreases_to!(*bfcl_parameter => **b));
            }
            Some(Box::new(bfcl_param_to_granite4_param(&**b)))
        },
        None => None,
    };
    let enum_values: Option<Vec<JsonValue>> = match &bfcl_parameter.enum_values {
        Some(vs) => Some(jv_clone_vec(vs)),
        None => None,
    };
    let required: Option<Vec<String>> = match &bfcl_parameter.required {
        Some(rs) => Some(clone_string_vec(rs)),
        None => None,
    };
    let default: Option<JsonValue> = match &bfcl_parameter.default {
        Some(d) => Some(jv_clone(d)),
        None => None,
    };
    let format: Option<String> = match &bfcl_parameter.format {
        Some(s) => Some(s.clone()),
        None => None,
    };
    let maximum: Option<JsonValue> = match &bfcl_parameter.maximum {
        Some(m) => Some(jv_clone(m)),
        None => None,
    };
    Granite4Parameter {
        ty,
        description,
        properties,
        items,
        enum_values,
        required,
        default,
        format,
        maximum,
    }
}

/// Converts the named nested schema nodes of a `properties` map.
fn bfcl_props_to_granite4(props: &Vec<(String, BfclParameter)>) -> (r: Vec<
    (String, Granite4Parameter),
>)
    ensures
        g4_fields_view(r@) == granite4_of_bfcl_fields(
            crate::tool_bfcl_formats::param_fields_view(props@),
        ),
    decreases *props,
{
    let ghost pm = crate::tool_bfcl_formats::param_fields_view(props@);
    proof {
        crate::tool_bfcl_formats::lemma_param_fields_view_index(props@);
        lemma_granite4_of_bfcl_fields_index(pm);
    }
    let mut out: Vec<(String, Granite4Parameter)> = Vec::new();
    let mut i: usize = 0;
    while i < props.len()
        invariant
            i <= props@.len(),
            pm == crate::tool_bfcl_formats::param_fields_view(props@),
            pm.len() == props@.len(),
            forall|k: int| 0 <= k < pm.len() ==> pm[k] == (
                props@[k].0@,
                crate::tool_bfcl_formats::param_view(props@[k].1),
            ),
            out@.len() == i,
            forall|k: int| 0 <= k < i ==> out@[k].0@ == props@[k].0@ && g4_param_view(out@[k].1)
                == granite4_of_bfcl(pm[k].1),
        decreases props@.len() - i,
    {
        proof {
            broadcast use vstd::std_specs::vec::group_vec_axioms;

            assert(decreases_to!(*props => props@[i as int]));
            assert(decreases_to!(props@[i as int] => props@[i as int].1));
        }
        let k = props[i].0.clone();
        let c = bfcl_param_to_granite4_param(&props[i].1);
        out.push((k, c));
        i += 1;
    }
    proof {
        lemma_g4_fields_view_index(out@);
        assert(g4_fields_view(out@) =~= granite4_of_bfcl_fields(pm));
    }
    out
}

} // verus!

verus! {

/// The string elements of a `required` list, as JSON values.
pub open spec fn strs_to_jv(rs: Seq<Seq<char>>) -> Seq<Jv> {
    Seq::new(rs.len(), |i: int| Jv::Str(rs[i]))
}

/// The JSON tree of a Granite-4 schema node: members in wire order, absent
/// members skipped.
pub open spec fn granite4_param_jv(g: Granite4ParameterV) -> Jv
    decreases g,
{
    Jv::Obj(
        seq![("type"@, Jv::Str(g.ty))] + (match g.description {
            Some(d) => seq![("description"@, Jv::Str(d))],
            None => Seq::empty(),
        }) + (match g.properties {
            Some(ps) => seq![("properties"@, Jv::Obj(granite4_props_jv(ps)))],
            None => Seq::empty(),
        }) + (match g.items {
            Some(b) => seq![("items"@, granite4_param_jv(*b))],
            None => Seq::empty(),
        }) + (match g.enum_values {
            Some(vs) => seq![("enum"@, Jv::Arr(vs))],
            None => Seq::empty(),
        }) + (match g.required {
            Some(rs) => seq![("required"@, Jv::Arr(strs_to_jv(rs)))],
            None => Seq::empty(),
        }) + (match g.default {
            Some(d) => seq![("default"@, d)],
            None => Seq::empty(),
        }) + (match g.format {
            Some(f) => seq![("format"@, Jv::Str(f))],
            None => Seq::empty(),
        }) + (match g.maximum {
            Some(m) => seq![("maximum"@, m)],
            None => Seq::empty(),
        }),
    )
}

/// The JSON members of a `properties` map.
pub open spec fn granite4_props_jv(ps: Seq<(Seq<char>, Granite4ParameterV)>) -> Seq<
    (Seq<char>, Jv),
>
    decreases ps,
{
    if ps.len() == 0 {
        Seq::empty()
    } else {
        seq![(ps[0].0, granite4_param_jv(ps[0].1))] + granite4_props_jv(ps.drop_first())
    }
}

/// `granite4_props_jv` maps the members one by one.
pub proof fn lemma_granite4_props_jv_index(ps: Seq<(Seq<char>, Granite4ParameterV)>)
    ensures
        granite4_props_jv(ps).len() == ps.len(),
        forall|i: int| 0 <= i < ps.len()
            ==> granite4_props_jv(ps)[i] == (ps[i].0, granite4_param_jv(ps[i].1)),
    decreases ps.len(),
{
    if ps.len() > 0 {
        lemma_granite4_props_jv_index(ps.drop_first());
        assert forall|i: int| 0 <= i < ps.len() implies granite4_props_jv(ps)[i] == (
            ps[i].0,
            granite4_param_jv(ps[i].1),
        ) by {
            if i > 0 {
                assert(ps.drop_first()[i - 1] == ps[i]);
            }
        }
    }
}

/// Renders one Granite-4 schema node as a JSON tree.
#[verifier::rlimit(60)]
pub fn granite4_param_to_json(g: &Granite4Parameter) -> (r: JsonValue)
    ensures
        r@ == granite4_param_jv(g@),
    decreases *g,
{
    let ghost gv = g@;
    let mut ms: Vec<(String, JsonValue)> = Vec::new();
    let ghost prev = ms@;
    ms.push((String::from_str("type"), JsonValue::Str(g.ty.clone())));
    let ghost seg0 = seq![("type"@, Jv::Str(gv.ty))];
    proof {
        lemma_jv_of_fields_index(ms@);
        assert(jv_of_fields(ms@) =~= seg0);
    }
    match &g.description {
        Some(d) => {
            let ghost prev = ms@;
            ms.push((String::from_str("description"), JsonValue::Str(d.clone())));
    proof {
        crate::jsonval::lemma_jv_of_fields_snoc(prev, ms@.last());
        assert(ms@ == prev.push(ms@.last()));
    }
        },
        None => {},
    }
    let ghost seg1 = seg0 + (match gv.description {
        Some(d) => seq![("description"@, Jv::Str(d))],
        None => Seq::empty(),
    });
    proof {
        assert(jv_of_fields(ms@) =~= seg1);
    }
    match &g.properties {
        Some(props) => {
            proof {
                assert(decreases_to!(*g => *props));
            }
            let pj = granite4_props_to_json(props);
            let ghost lastlen = ms@.len();
            let ghost prev = ms@;
            ms.push((String::from_str("properties"), JsonValue::Obj(pj)));
            proof {
                crate::jsonval::lemma_jv_of_fields_snoc(prev, ms@.last());
                assert(ms@ == prev.push(ms@.last()));
            }
        },
        None => {},
    }
    let ghost seg2 = seg1 + (match gv.properties {
        Some(ps) => seq![("properties"@, Jv::Obj(granite4_props_jv(ps)))],
        None => Seq::empty(),
    });
    proof {
        assert(jv_of_fields(ms@) =~= seg2);
    }
    match &g.items {
        Some(b) => {
            proof {
                assert(decreases_to!(*g => **b));
            }
            let ij = granite4_param_to_json(&**b);
            let ghost prev = ms@;
            ms.push((String::from_str("items"), ij));
            proof {
                crate::jsonval::lemma_jv_of_fields_snoc(prev, ms@.last());
                assert(ms@ == prev.push(ms@.last()));
            }
        },
        None => {},
    }
    let ghost seg3 = seg2 + (match gv.items {
        Some(b) => seq![("items"@, granite4_param_jv(*b))],
        None => Seq::empty(),
    });
    proof {
        assert(jv_of_fields(ms@) =~= seg3);
    }
    match &g.enum_values {
        Some(vs) => {
            let ghost prev = ms@;
            ms.push((String::from_str("enum"), JsonValue::Arr(jv_clone_vec(vs))));
            proof {
                crate::jsonval::lemma_jv_of_fields_snoc(prev, ms@.last());
                assert(ms@ == prev.push(ms@.last()));
            }
        },
        None => {},
    }
    let ghost seg4 = seg3 + (match gv.enum_values {
        Some(vs) => seq![("enum"@, Jv::Arr(vs))],
        None => Seq::empty(),
    });
    proof {
        assert(jv_of_fields(ms@) =~= seg4);
    }
    match &g.required {
        Some(rs) => {
            let mut rj: Vec<JsonValue> = Vec::new();
            let mut i: usize = 0;
            while i < rs.len()
                invariant
                    i <= rs@.len(),
                    rj@.len() == i,
                    forall|k: int| 0 <= k < i ==> jv_of(rj@[k]) == Jv::Str(rs@[k]@),
                decreases rs@.len() - i,
            {
                rj.push(JsonValue::Str(rs[i].clone()));
                i += 1;
            }
            proof {
                lemma_jv_of_seq_index(rj@);
                assert(jv_of_seq(rj@) =~= strs_to_jv(rs.deep_view()));
            }
            let ghost prev = ms@;
            ms.push((String::from_str("required"), JsonValue::Arr(rj)));
            proof {
                crate::jsonval::lemma_jv_of_fields_snoc(prev, ms@.last());
                assert(ms@ == prev.push(ms@.last()));
            }
        },
        None => {},
    }
    let ghost seg5 = seg4 + (match gv.required {
        Some(rs) => seq![("required"@, Jv::Arr(strs_to_jv(rs)))],
        None => Seq::empty(),
    });
    proof {
        assert(jv_of_fields(ms@) =~= seg5);
    }
    match &g.default {
        Some(d) => {
            let ghost prev = ms@;
            ms.push((String::from_str("default"), jv_clone(d)));
            proof {
                crate::jsonval::lemma_jv_of_fields_snoc(prev, ms@.last());
                assert(ms@ == prev.push(ms@.last()));
            }
        },
        None => {},
    }
    let ghost seg6 = seg5 + (match gv.default {
        Some(d) => seq![("default"@, d)],
        None => Seq::empty(),
    });
    proof {
        assert(jv_of_fields(ms@) =~= seg6);
    }
    match &g.format {
        Some(f) => {
            let ghost prev = ms@;
            ms.push((String::from_str("format"), JsonValue::Str(f.clone())));
            proof {
                crate::jsonval::lemma_jv_of_fields_snoc(prev, ms@.last());
                assert(ms@ == prev.push(ms@.last()));
            }
        },
        None => {},
    }
    let ghost seg7 = seg6 + (match gv.format {
        Some(f) => seq![("format"@, Jv::Str(f))],
        None => Seq::empty(),
    });
    proof {
        assert(jv_of_fields(ms@) =~= seg7);
    }
    match &g.maximum {
        Some(m) => {
            let ghost prev = ms@;
            ms.push((String::from_str("maximum"), jv_clone(m)));
            proof {
                crate::jsonval::lemma_jv_of_fields_snoc(prev, ms@.last());
                assert(ms@ == prev.push(ms@.last()));
            }
        },
        None => {},
    }
    proof {
        assert(jv_of_fields(ms@) =~= granite4_param_jv(gv)->Obj_0);
    }
    JsonValue::Obj(ms)
}

/// Renders the named nested schema nodes of a `properties` map.
fn granite4_props_to_json(props: &Vec<(String, Granite4Parameter)>) -> (r: Vec<
    (String, JsonValue),
>)
    ensures
        jv_of_fields(r@) == granite4_props_jv(g4_fields_view(props@)),
    decreases *props,
{
    let ghost pm = g4_fields_view(props@);
    proof {
        lemma_g4_fields_view_index(props@);
        lemma_granite4_props_jv_index(pm);
    }
    let mut out: Vec<(String, JsonValue)> = Vec::new();
    let mut i: usize = 0;
    while i < props.len()
        invariant
            i <= props@.len(),
            pm == g4_fields_view(props@),
            pm.len() == props@.len(),
            forall|k: int| 0 <= k < pm.len() ==> pm[k] == (props@[k].0@, g4_param_view(
                props@[k].1,
            )),
            out@.len() == i,
            forall|k: int| 0 <= k < i ==> out@[k].0@ == pm[k].0 && jv_of(out@[k].1)
                == granite4_param_jv(pm[k].1),
        decreases props@.len() - i,
    {
        proof {
            broadcast use vstd::std_specs::vec::group_vec_axioms;

            assert(decreases_to!(*props => props@[i as int]));
            assert(decreases_to!(props@[i as int] => props@[i as int].1));
        }
        let k = props[i].0.clone();
        let c = granite4_param_to_json(&props[i].1);
        out.push((k, c));
        i += 1;
    }
    proof {
        lemma_jv_of_fields_index(out@);
        lemma_granite4_props_jv_index(pm);
        assert(jv_of_fields(out@) =~= granite4_props_jv(pm));
    }
    out
}

} // verus!

verus! {

/// Model of a [`Granite4Function`].
#[verifier::ext_equal]
pub struct Granite4FunctionV {
    pub name: Seq<char>,
    pub description: Seq<char>,
    pub parameters: Granite4ParameterV,
}

/// The function member of a Granite-4 tool definition.
#[derive(Debug)]
pub struct Granite4Function {
    pub name: String,
    pub description: String,
    pub parameters: Granite4Parameter,
}

impl View for Granite4Function {
    type V = Granite4FunctionV;

    open spec fn view(&self) -> Granite4FunctionV {
        Granite4FunctionV {
            name: self.name@,
            description: self.description@,
            parameters: self.parameters@,
        }
    }
}

/// Model of a [`Granite4Tool`].
#[verifier::ext_equal]
pub struct Granite4ToolV {
    pub ty: Seq<char>,
    pub function: Granite4FunctionV,
}

/// One Granite-4 tool definition: the `{type:"function", function:{...}}`
/// wire shape.
#[derive(Debug)]
pub struct Granite4Tool {
    pub ty: String,
    pub function: Granite4Function,
}

impl View for Granite4Tool {
    type V = Granite4ToolV;

    open spec fn view(&self) -> Granite4ToolV {
        Granite4ToolV { ty: self.ty@, function: self.function@ }
    }
}

/// The JSON tree of one tool definition.
pub open spec fn granite4_tool_jv(t: Granite4ToolV) -> Jv {
    Jv::Obj(
        seq![
            ("type"@, Jv::Str(t.ty)),
            (
                "function"@,
                Jv::Obj(
                    seq![
                        ("name"@, Jv::Str(t.function.name)),
                        ("description"@, Jv::Str(t.function.description)),
                        ("parameters"@, granite4_param_jv(t.function.parameters)),
                    ],
                ),
            ),
        ],
    )
}

/// Renders one tool definition as a JSON tree.
pub fn granite4_tool_to_json(t: &Granite4Tool) -> (r: JsonValue)
    ensures
        r@ == granite4_tool_jv(t@),
{
    let pj = granite4_param_to_json(&t.function.parameters);
    let mut inner: Vec<(String, JsonValue)> = Vec::new();
    inner.push((String::from_str("name"), JsonValue::Str(t.function.name.clone())));
    inner.push((String::from_str("description"), JsonValue::Str(t.function.description.clone())));
    inner.push((String::from_str("parameters"), pj));
    let mut outer: Vec<(String, JsonValue)> = Vec::new();
    outer.push((String::from_str("type"), JsonValue::Str(t.ty.clone())));
    outer.push((String::from_str("function"), JsonValue::Obj(inner)));
    let r = JsonValue::Obj(outer);
    proof {
        lemma_jv_of_fields_index(inner@);
        lemma_jv_of_fields_index(outer@);
        assert(jv_of_fields(inner@) =~= granite4_tool_jv(t@)->Obj_0[1].1->Obj_0);
        assert(jv_of_fields(outer@) =~= granite4_tool_jv(t@)->Obj_0);
    }
    r
}

/// The tool definitions of a function list: each function under its
/// sanitized name, or `None` as soon as the mapper lacks a name.
pub open spec fn granite4_tooldefs(
    defs: Seq<BfclFunctionDefV>,
    o2s: Seq<(Seq<char>, Seq<char>)>,
) -> Option<Seq<Jv>>
    decreases defs.len(),
{
    if defs.len() == 0 {
        Some(Seq::empty())
    } else {
        match assoc_lookup(o2s, defs[0].name) {
            None => None,
            Some(sanitized) => match granite4_tooldefs(defs.drop_first(), o2s) {
                Some(rest) => Some(
                    seq![
                        granite4_tool_jv(
                            Granite4ToolV {
                                ty: "function"@,
                                function: Granite4FunctionV {
                                    name: sanitized,
                                    description: defs[0].description,
                                    parameters: granite4_of_bfcl(defs[0].parameters),
                                },
                            },
                        ),
                    ] + rest,
                ),
                None => None,
            },
        }
    }
}

/// Extending `granite4_tooldefs` by one function.
proof fn lemma_granite4_tooldefs_snoc(
    defs: Seq<BfclFunctionDefV>,
    d: BfclFunctionDefV,
    o2s: Seq<(Seq<char>, Seq<char>)>,
)
    ensures
        granite4_tooldefs(defs.push(d), o2s) == match granite4_tooldefs(defs, o2s) {
            Some(ts) => match assoc_lookup(o2s, d.name) {
                Some(sanitized) => Some(
                    ts.push(
                        granite4_tool_jv(
                            Granite4ToolV {
                                ty: "function"@,
                                function: Granite4FunctionV {
                                    name: sanitized,
                                    description: d.description,
                                    parameters: granite4_of_bfcl(d.parameters),
                                },
                            },
                        ),
                    ),
                ),
                None => None,
            },
            None => None,
        },
    decreases defs.len(),
{
    if defs.len() == 0 {
        assert(defs.push(d)[0] == d);
        assert(defs.push(d).drop_first() =~= defs);
        match assoc_lookup(o2s, d.name) {
            Some(sanitized) => {
                let tool = granite4_tool_jv(
                    Granite4ToolV {
                        ty: "function"@,
                        function: Granite4FunctionV {
                            name: sanitized,
                            description: d.description,
                            parameters: granite4_of_bfcl(d.parameters),
                        },
                    },
                );
                assert(granite4_tooldefs(defs.push(d), o2s) matches Some(o) && o
                    =~= Seq::empty().push(tool));
            },
            None => {},
        }
    } else {
        lemma_granite4_tooldefs_snoc(defs.drop_first(), d, o2s);
        assert(defs.push(d).drop_first() =~= defs.drop_first().push(d));
        assert(defs.push(d)[0] == defs[0]);
        match (
            assoc_lookup(o2s, defs[0].name),
            granite4_tooldefs(defs.drop_first(), o2s),
            assoc_lookup(o2s, d.name),
        ) {
            (Some(s0), Some(rest), Some(sd)) => {
                let t0 = granite4_tool_jv(
                    Granite4ToolV {
                        ty: "function"@,
                        function: Granite4FunctionV {
                            name: s0,
                            description: defs[0].description,
                            parameters: granite4_of_bfcl(defs[0].parameters),
                        },
                    },
                );
                let td = granite4_tool_jv(
                    Granite4ToolV {
                        ty: "function"@,
                        function: Granite4FunctionV {
                            name: sd,
                            description: d.description,
                            parameters: granite4_of_bfcl(d.parameters),
                        },
                    },
                );
                assert(seq![t0] + rest.push(td) =~= (seq![t0] + rest).push(td));
            },
            _ => {},
        }
    }
}

/// An unmapped function name makes the whole definition list fail.
proof fn lemma_granite4_tooldefs_fail(
    defs: Seq<BfclFunctionDefV>,
    j: int,
    o2s: Seq<(Seq<char>, Seq<char>)>,
)
    requires
        0 <= j < defs.len(),
        assoc_lookup(o2s, defs[j].name) is None,
    ensures
        granite4_tooldefs(defs, o2s) is None,
    decreases defs.len(),
{
    if j > 0 {
        lemma_granite4_tooldefs_fail(defs.drop_first(), j - 1, o2s);
        assert(defs.drop_first()[j - 1] == defs[j]);
    }
}

impl Granite4Interface {
    /// Builds the Granite-4 tool-definition document for a case's
    /// functions, under the mapper's sanitized names.  Fails when the
    /// mapper has no entry for some function: adapters never synthesize a
    /// name themselves.
    pub fn generate_tool_definitions(
        &self,
        bfcl_functions: &Vec<BfclFunctionDef>,
        name_mapper: &FunctionNameMapper,
    ) -> (r: Result<JsonValue, LookupError>)
        ensures
            match r {
                Ok(j) => granite4_tooldefs(fndefs_view(bfcl_functions@), name_mapper.o2s())
                    matches Some(ts) && j@ == Jv::Arr(ts),
                Err(_) => granite4_tooldefs(
                    fndefs_view(bfcl_functions@),
                    name_mapper.o2s(),
                ) is None,
            },
    {
        let ghost dm = fndefs_view(bfcl_functions@);
        proof {
            assert(dm.subrange(0, 0) =~= Seq::<BfclFunctionDefV>::empty());
        }
        let mut tools: Vec<JsonValue> = Vec::new();
        let mut i: usize = 0;
        while i < bfcl_functions.len()
            invariant
                i <= bfcl_functions@.len(),
                dm == fndefs_view(bfcl_functions@),
                dm.len() == bfcl_functions@.len(),
                forall|k: int| 0 <= k < dm.len() ==> dm[k] == bfcl_functions@[k]@,
                granite4_tooldefs(dm.subrange(0, i as int), name_mapper.o2s()) == Some(
                    jv_of_seq(tools@),
                ),
            decreases bfcl_functions@.len() - i,
        {
            let func = &bfcl_functions[i];
            let sanitized = match name_mapper.lookup_sanitized(&func.name) {
                Some(s) => s,
                None => {
                    proof {
                        lemma_granite4_tooldefs_fail(dm, i as int, name_mapper.o2s());
                    }
                    return Err(LookupError { name: func.name.clone() });
                },
            };
            let params = bfcl_param_to_granite4_param(&func.parameters);
            let tool = Granite4Tool {
                ty: String::from_str("function"),
                function: Granite4Function {
                    name: sanitized,
                    description: func.description.clone(),
                    parameters: params,
                },
            };
            let tj = granite4_tool_to_json(&tool);
            let ghost prev = tools@;
            tools.push(tj);
            proof {
                lemma_granite4_tooldefs_snoc(
                    dm.subrange(0, i as int),
                    dm[i as int],
                    name_mapper.o2s(),
                );
                assert(dm.subrange(0, i as int).push(dm[i as int]) =~= dm.subrange(
                    0,
                    i + 1 as int,
                ));
                crate::jsonval::lemma_jv_of_seq_snoc(prev, tools@.last());
                assert(tools@ == prev.push(tools@.last()));
            }
            i += 1;
        }
        proof {
            assert(dm.subrange(0, dm.len() as int) =~= dm);
        }
        Ok(JsonValue::Arr(tools))
    }
}

} // verus!

verus! {

/// The opening delimiter of a Granite-4 tool-call block.
pub open spec fn open_tag() -> Seq<char> {
    "<tool_call>"@
}

/// The closing delimiter of a Granite-4 tool-call block.
pub open spec fn close_tag() -> Seq<char> {
    "</tool_call>"@
}

/// The first position at or after `from` where `pat` occurs in `s`.
pub open spec fn find_from(s: Seq<char>, pat: Seq<char>, from: int) -> Option<int>
    decreases s.len() - from,
{
    if pat.len() == 0 || from < 0 || from + pat.len() > s.len() {
        None
    } else if s.subrange(from, from + pat.len()) == pat {
        Some(from)
    } else {
        find_from(s, pat, from + 1)
    }
}

/// A found position is in range and at or after `from`.
pub proof fn lemma_find_from_bounds(s: Seq<char>, pat: Seq<char>, from: int)
    requires
        find_from(s, pat, from) is Some,
    ensures
        from <= find_from(s, pat, from)->0,
        find_from(s, pat, from)->0 + pat.len() <= s.len(),
    decreases s.len() - from,
{
    if !(pat.len() == 0 || from < 0 || from + pat.len() > s.len()) && s.subrange(
        from,
        from + pat.len(),
    ) != pat {
        lemma_find_from_bounds(s, pat, from + 1);
    }
}

/// A blank character: space, tab, newline or carriage return.
pub open spec fn is_blank(c: char) -> bool {
    c == ' ' || c == '\t' || c == '\n' || c == '\r'
}

/// A character the fence strip removes: backtick, newline or space.
pub open spec fn is_fence(c: char) -> bool {
    c == '`' || c == '\n' || c == ' '
}

/// The suffix after the leading blanks.
pub open spec fn trim_start_blank(s: Seq<char>) -> Seq<char>
    decreases s.len(),
{
    if s.len() > 0 && is_blank(s[0]) {
        trim_start_blank(s.drop_first())
    } else {
        s
    }
}

/// The prefix before the trailing blanks.
pub open spec fn trim_end_blank(s: Seq<char>) -> Seq<char>
    decreases s.len(),
{
    if s.len() > 0 && is_blank(s[s.len() - 1]) {
        trim_end_blank(s.drop_last())
    } else {
        s
    }
}

/// The text without leading and trailing blanks.
pub open spec fn trim_blank(s: Seq<char>) -> Seq<char> {
    trim_end_blank(trim_start_blank(s))
}

/// The suffix after the leading fence characters.
pub open spec fn trim_start_fence(s: Seq<char>) -> Seq<char>
    decreases s.len(),
{
    if s.len() > 0 && is_fence(s[0]) {
        trim_start_fence(s.drop_first())
    } else {
        s
    }
}

/// The prefix before the trailing fence characters.
pub open spec fn trim_end_fence(s: Seq<char>) -> Seq<char>
    decreases s.len(),
{
    if s.len() > 0 && is_fence(s[s.len() - 1]) {
        trim_end_fence(s.drop_last())
    } else {
        s
    }
}

/// The text without leading and trailing fence characters.
pub open spec fn trim_fence(s: Seq<char>) -> Seq<char> {
    trim_end_fence(trim_start_fence(s))
}

/// The delimited block contents of a model answer, in source order: for
/// each opening tag, the text up to the next closing tag, blank-trimmed,
/// empty blocks skipped.
pub open spec fn extract_segments(s: Seq<char>) -> Seq<Seq<char>>
    decreases s.len(),
    via extract_segments_decreases
{
    match find_from(s, open_tag(), 0) {
        None => Seq::empty(),
        Some(i) => {
            let cstart = i + open_tag().len();
            match find_from(s, close_tag(), cstart) {
                None => Seq::empty(),
                Some(j) => {
                    let content = trim_blank(s.subrange(cstart, j));
                    let rest = extract_segments(s.skip(j + close_tag().len()));
                    if content.len() == 0 {
                        rest
                    } else {
                        seq![content] + rest
                    }
                },
            }
        },
    }
}

#[via_fn]
proof fn extract_segments_decreases(s: Seq<char>) {
    reveal_strlit("<tool_call>");
    reveal_strlit("</tool_call>");
    match find_from(s, open_tag(), 0) {
        None => {},
        Some(i) => {
            lemma_find_from_bounds(s, open_tag(), 0);
            let cstart = i + open_tag().len();
            match find_from(s, close_tag(), cstart) {
                None => {},
                Some(j) => {
                    lemma_find_from_bounds(s, close_tag(), cstart);
                },
            }
        },
    }
}

/// The segments joined with commas.
pub open spec fn join_inner(segs: Seq<Seq<char>>) -> Seq<char>
    decreases segs.len(),
{
    if segs.len() == 0 {
        Seq::empty()
    } else if segs.len() == 1 {
        segs[0]
    } else {
        segs[0] + seq![','] + join_inner(segs.drop_first())
    }
}

/// The segments joined with commas, wrapped as a JSON array text.
pub open spec fn join_segments(segs: Seq<Seq<char>>) -> Seq<char> {
    seq!['['] + join_inner(segs) + seq![']']
}

/// What the framing step yields for a raw model answer: the delimited
/// blocks joined into one array text when any are present, otherwise the
/// answer itself; then fence characters stripped from both ends, and a
/// text opening with a bare object wrapped into a one-element array.
pub open spec fn granite4_frame(raw: Seq<char>) -> Seq<char> {
    let t = trim_blank(raw);
    let segs = extract_segments(t);
    let base = if find_from(t, open_tag(), 0) is Some && segs.len() > 0 {
        join_segments(segs)
    } else {
        t
    };
    let stripped = trim_fence(base);
    if stripped.len() > 0 && stripped[0] == '{' {
        seq!['['] + stripped + seq![']']
    } else {
        stripped
    }
}

} // verus!

verus! {

fn is_blank_c(c: char) -> (r: bool)
    ensures
        r == is_blank(c),
{
    c == ' ' || c == '\t' || c == '\n' || c == '\r'
}

fn is_fence_c(c: char) -> (r: bool)
    ensures
        r == is_fence(c),
{
    c == '`' || c == '\n' || c == ' '
}

/// A copy of a character range.
fn char_subvec(v: &Vec<char>, a: usize, b: usize) -> (r: Vec<char>)
    requires
        a <= b <= v@.len(),
    ensures
        r@ == v@.subrange(a as int, b as int),
{
    let mut out: Vec<char> = Vec::new();
    let mut i: usize = a;
    while i < b
        invariant
            a <= i <= b <= v@.len(),
            out@ == v@.subrange(a as int, i as int),
        decreases b - i,
    {
        out.push(v[i]);
        proof {
            assert(out@ =~= v@.subrange(a as int, i + 1 as int));
        }
        i += 1;
    }
    out
}

/// When the first `i` characters are blank and character `i` (if any) is
/// not, the blank-trimmed start is the suffix from `i`.
proof fn lemma_trim_start_blank_at(s: Seq<char>, i: int)
    requires
        0 <= i <= s.len(),
        forall|k: int| 0 <= k < i ==> is_blank(s[k]),
        i == s.len() || !is_blank(s[i]),
    ensures
        trim_start_blank(s) == s.skip(i),
    decreases i,
{
    if i == 0 {
        assert(s.skip(0) =~= s);
    } else {
        lemma_trim_start_blank_at(s.drop_first(), i - 1);
        assert(s.drop_first().skip(i - 1) =~= s.skip(i));
        assert(forall|k: int| 0 <= k < i - 1 ==> is_blank(#[trigger] s.drop_first()[k]));
    }
}

/// When every character from `j` on is blank and character `j - 1` (if
/// any) is not, the blank-trimmed end is the prefix up to `j`.
proof fn lemma_trim_end_blank_at(s: Seq<char>, j: int)
    requires
        0 <= j <= s.len(),
        forall|k: int| j <= k < s.len() ==> is_blank(s[k]),
        j == 0 || !is_blank(s[j - 1]),
    ensures
        trim_end_blank(s) == s.take(j),
    decreases s.len() - j,
{
    if j == s.len() {
        assert(s.take(j) =~= s);
    } else {
        lemma_trim_end_blank_at(s.drop_last(), j);
        assert(s.drop_last().take(j) =~= s.take(j));
        assert(forall|k: int| j <= k < s.drop_last().len() ==> is_blank(#[trigger] s.drop_last()[k]));
    }
}

/// When the first `i` characters are fence characters and character `i`
/// (if any) is not, the stripped start is the suffix from `i`.
proof fn lemma_trim_start_fence_at(s: Seq<char>, i: int)
    requires
        0 <= i <= s.len(),
        forall|k: int| 0 <= k < i ==> is_fence(s[k]),
        i == s.len() || !is_fence(s[i]),
    ensures
        trim_start_fence(s) == s.skip(i),
    decreases i,
{
    if i == 0 {
        assert(s.skip(0) =~= s);
    } else {
        lemma_trim_start_fence_at(s.drop_first(), i - 1);
        assert(s.drop_first().skip(i - 1) =~= s.skip(i));
        assert(forall|k: int| 0 <= k < i - 1 ==> is_fence(#[trigger] s.drop_first()[k]));
    }
}

/// When every character from `j` on is a fence character and character
/// `j - 1` (if any) is not, the stripped end is the prefix up to `j`.
proof fn lemma_trim_end_fence_at(s: Seq<char>, j: int)
    requires
        0 <= j <= s.len(),
        forall|k: int| j <= k < s.len() ==> is_fence(s[k]),
        j == 0 || !is_fence(s[j - 1]),
    ensures
        trim_end_fence(s) == s.take(j),
    decreases s.len() - j,
{
    if j == s.len() {
        assert(s.take(j) =~= s);
    } else {
        lemma_trim_end_fence_at(s.drop_last(), j);
        assert(s.drop_last().take(j) =~= s.take(j));
        assert(forall|k: int| j <= k < s.drop_last().len() ==> is_fence(#[trigger] s.drop_last()[k]));
    }
}

/// The characters without leading and trailing blanks.
fn trim_blank_chars(v: &Vec<char>) -> (r: Vec<char>)
    ensures
        r@ == trim_blank(v@),
{
    let mut a: usize = 0;
    while a < v.len() && is_blank_c(v[a])
        invariant
            a <= v@.len(),
            forall|k: int| 0 <= k < a ==> is_blank(v@[k]),
        decreases v@.len() - a,
    {
        a += 1;
    }
    proof {
        lemma_trim_start_blank_at(v@, a as int);
    }
    let ghost t = v@.skip(a as int);
    let mut b: usize = v.len();
    while b > a && is_blank_c(v[b - 1])
        invariant
            a <= b <= v@.len(),
            t == v@.skip(a as int),
            forall|k: int| b <= k < v@.len() ==> is_blank(v@[k]),
        decreases b,
    {
        b -= 1;
    }
    proof {
        assert forall|k: int| (b - a) <= k < t.len() implies is_blank(t[k]) by {
            assert(t[k] == v@[k + a]);
        }
        if b > a {
            assert(t[b - a - 1] == v@[b - 1]);
        }
        lemma_trim_end_blank_at(t, b - a);
        assert(t.take(b - a) =~= v@.subrange(a as int, b as int));
    }
    char_subvec(v, a, b)
}

/// The characters without leading and trailing fence characters.
fn trim_fence_chars(v: &Vec<char>) -> (r: Vec<char>)
    ensures
        r@ == trim_fence(v@),
{
    let mut a: usize = 0;
    while a < v.len() && is_fence_c(v[a])
        invariant
            a <= v@.len(),
            forall|k: int| 0 <= k < a ==> is_fence(v@[k]),
        decreases v@.len() - a,
    {
        a += 1;
    }
    proof {
        lemma_trim_start_fence_at(v@, a as int);
    }
    let ghost t = v@.skip(a as int);
    let mut b: usize = v.len();
    while b > a && is_fence_c(v[b - 1])
        invariant
            a <= b <= v@.len(),
            t == v@.skip(a as int),
            forall|k: int| b <= k < v@.len() ==> is_fence(v@[k]),
        decreases b,
    {
        b -= 1;
    }
    proof {
        assert forall|k: int| (b - a) <= k < t.len() implies is_fence(t[k]) by {
            assert(t[k] == v@[k + a]);
        }
        if b > a {
            assert(t[b - a - 1] == v@[b - 1]);
        }
        lemma_trim_end_fence_at(t, b - a);
        assert(t.take(b - a) =~= v@.subrange(a as int, b as int));
    }
    char_subvec(v, a, b)
}

/// The first position at or after `from` where `pat` occurs, if any.
fn find_sub(s: &Vec<char>, pat: &Vec<char>, from: usize) -> (r: Option<usize>)
    ensures
        match r {
            Some(i) => find_from(s@, pat@, from as int) == Some(i as int) && from <= i && i
                + pat@.len() <= s@.len(),
            None => find_from(s@, pat@, from as int) is None,
        },
{
    if pat.len() == 0 || s.len() < pat.len() || from > s.len() - pat.len() {
        return None;
    }
    let sl = s.len();
    let mut idx: usize = from;
    while idx <= s.len() - pat.len()
        invariant
            pat@.len() >= 1,
            pat@.len() <= s@.len(),
            s@.len() == sl,
            from <= idx,
            idx <= s@.len() - pat@.len() + 1,
            find_from(s@, pat@, from as int) == find_from(s@, pat@, idx as int),
        decreases s@.len() - idx,
    {
        let mut k: usize = 0;
        let mut matched = true;
        while k < pat.len() && matched
            invariant
                idx + pat@.len() <= s@.len(),
                s@.len() == sl,
                k <= pat@.len(),
                matched ==> forall|t: int| 0 <= t < k ==> s@[idx + t] == pat@[t],
                !matched ==> s@.subrange(idx as int, idx + pat@.len()) != pat@,
            decreases pat@.len() - k + (if matched {
                1int
            } else {
                0int
            }),
        {
            if s[idx + k] != pat[k] {
                proof {
                    assert(s@.subrange(idx as int, idx + pat@.len())[k as int] == s@[idx + k]);
                }
                matched = false;
            } else {
                k += 1;
            }
        }
        if matched {
            proof {
                assert(s@.subrange(idx as int, idx + pat@.len()) =~= pat@);
            }
            return Some(idx);
        }
        proof {
            assert(find_from(s@, pat@, idx as int) == find_from(s@, pat@, idx + 1 as int));
        }
        idx += 1;
    }
    proof {
        assert(find_from(s@, pat@, idx as int) is None);
    }
    None
}

/// Extending the segment list by the segments of a shorter suffix.
proof fn lemma_extract_segments_step(s: Seq<char>, i: int, j: int)
    requires
        find_from(s, open_tag(), 0) == Some(i),
        find_from(s, close_tag(), i + open_tag().len()) == Some(j),
    ensures
        extract_segments(s) == (if trim_blank(
            s.subrange(i + open_tag().len(), j),
        ).len() == 0 {
            extract_segments(s.skip(j + close_tag().len()))
        } else {
            seq![trim_blank(s.subrange(i + open_tag().len(), j))] + extract_segments(
                s.skip(j + close_tag().len()),
            )
        }),
{
}

/// The delimited block contents of a blank-trimmed answer, in source order.
fn extract_tool_call_segments(t: &Vec<char>) -> (r: Vec<Vec<char>>)
    ensures
        r.deep_view() == extract_segments(t@),
{
    let open = crate::strutil::chars_of("<tool_call>");
    let close = crate::strutil::chars_of("</tool_call>");
    proof {
        assert(open@ == open_tag());
        assert(close@ == close_tag());
    }
    let mut segs: Vec<Vec<char>> = Vec::new();
    let mut rem = char_subvec(t, 0, t.len());
    proof {
        assert(t@.subrange(0, t@.len() as int) =~= t@);
        assert(segs.deep_view() =~= Seq::<Seq<char>>::empty());
    }
    loop
        invariant
            extract_segments(t@) == segs.deep_view() + extract_segments(rem@),
            open@ == open_tag(),
            close@ == close_tag(),
        decreases rem@.len(),
    {
        let i = match find_sub(&rem, &open, 0) {
            Some(i) => i,
            None => {
                proof {
                    assert(extract_segments(rem@) =~= Seq::<Seq<char>>::empty());
                    assert(segs.deep_view() =~= segs.deep_view() + extract_segments(rem@));
                }
                return segs;
            },
        };
        proof {
            broadcast use vstd::std_specs::vec::group_vec_axioms;

            assert(rem@.len() == rem.len());
        }
        let cstart = i + open.len();
        let j = match find_sub(&rem, &close, cstart) {
            Some(j) => j,
            None => {
                proof {
                    assert(extract_segments(rem@) =~= Seq::<Seq<char>>::empty());
                    assert(segs.deep_view() =~= segs.deep_view() + extract_segments(rem@));
                }
                return segs;
            },
        };
        let raw_content = char_subvec(&rem, cstart, j);
        let content = trim_blank_chars(&raw_content);
        proof {
            lemma_extract_segments_step(rem@, i as int, j as int);
        }
        let ghost segs_prev = segs.deep_view();
        let ghost rem_prev = rem@;
        if content.len() > 0 {
            segs.push(content);
            proof {
                assert(segs.deep_view() =~~= segs_prev.push(
                    trim_blank(rem_prev.subrange(cstart as int, j as int)),
                ));
            }
        }
        let next = char_subvec(&rem, j + close.len(), rem.len());
        proof {
            assert(next@ =~= rem_prev.skip(j + close_tag().len()));
        }
        rem = next;
        proof {
            if trim_blank(rem_prev.subrange(cstart as int, j as int)).len() == 0 {
                assert(segs.deep_view() + extract_segments(rem@) =~~= segs_prev + extract_segments(
                    rem_prev,
                ));
            } else {
                assert(segs.deep_view() + extract_segments(rem@) =~~= segs_prev + (seq![
                    trim_blank(rem_prev.subrange(cstart as int, j as int)),
                ] + extract_segments(rem@)));
                assert(segs_prev + (seq![trim_blank(rem_prev.subrange(cstart as int, j as int))]
                    + extract_segments(rem@)) =~~= segs_prev + extract_segments(rem_prev));
            }
        }
    }
}

/// Extending the joined text by one segment.
proof fn lemma_join_inner_snoc(segs: Seq<Seq<char>>, x: Seq<char>)
    ensures
        join_inner(segs.push(x)) == if segs.len() == 0 {
            x
        } else {
            join_inner(segs) + seq![','] + x
        },
    decreases segs.len(),
{
    if segs.len() == 0 {
        assert(segs.push(x)[0] == x);
        assert(join_inner(segs.push(x)) == x);
    } else {
        lemma_join_inner_snoc(segs.drop_first(), x);
        assert(segs.push(x).drop_first() =~= segs.drop_first().push(x));
        assert(segs.push(x)[0] == segs[0]);
        assert(join_inner(segs.push(x)) =~= join_inner(segs) + seq![','] + x);
    }
}

/// The segments joined with commas, wrapped as a JSON array text.
fn join_segments_chars(segs: &Vec<Vec<char>>) -> (r: Vec<char>)
    ensures
        r@ == join_segments(segs.deep_view()),
{
    let ghost m = segs.deep_view();
    let mut out: Vec<char> = Vec::new();
    out.push('[');
    proof {
        assert(m.subrange(0, 0) =~= Seq::<Seq<char>>::empty());
        assert(out@ =~= seq!['['] + join_inner(m.subrange(0, 0)));
    }
    let mut i: usize = 0;
    while i < segs.len()
        invariant
            i <= segs@.len(),
            m == segs.deep_view(),
            m.len() == segs@.len(),
            forall|k: int| 0 <= k < m.len() ==> m[k] == segs@[k]@,
            out@ == seq!['['] + join_inner(m.subrange(0, i as int)),
        decreases segs@.len() - i,
    {
        if i > 0 {
            out.push(',');
        }
        let ghost before = out@;
        let mut k: usize = 0;
        while k < segs[i].len()
            invariant
                i < segs@.len(),
                k <= segs@[i as int]@.len(),
                out@ == before + segs@[i as int]@.subrange(0, k as int),
            decreases segs@[i as int]@.len() - k,
        {
            out.push(segs[i][k]);
            proof {
                assert(out@ =~= before + segs@[i as int]@.subrange(0, k + 1 as int));
            }
            k += 1;
        }
        proof {
            assert(segs@[i as int]@.subrange(0, segs@[i as int]@.len() as int) =~= m[i as int]);
            lemma_join_inner_snoc(m.subrange(0, i as int), m[i as int]);
            assert(m.subrange(0, i as int).push(m[i as int]) =~= m.subrange(0, i + 1 as int));
            assert(out@ =~= seq!['['] + join_inner(m.subrange(0, i + 1 as int)));
        }
        i += 1;
    }
    out.push(']');
    proof {
        assert(m.subrange(0, m.len() as int) =~= m);
        assert(out@ =~= join_segments(m));
    }
    out
}

impl Granite4Interface {
    /// Frames a raw Granite-4 answer into one JSON array text: delimited
    /// blocks are collected and joined, fences stripped, and a bare object
    /// wrapped into a one-element array.  What this returns is handed to a
    /// JSON decoder; the decoded array comes back through
    /// [`Granite4Interface::decode_calls`].
    pub fn frame_tool_calls(&self, raw_output: &str) -> (r: String)
        ensures
            r@ == granite4_frame(raw_output@),
    {
        let rawv = crate::strutil::chars_of(raw_output);
        let t = trim_blank_chars(&rawv);
        let open = crate::strutil::chars_of("<tool_call>");
        proof {
            assert(open@ == open_tag());
        }
        let has = matches!(find_sub(&t, &open, 0), Some(_));
        let segs = extract_tool_call_segments(&t);
        let base: Vec<char> = if has && segs.len() > 0 {
            proof {
                assert(segs.deep_view().len() == segs@.len());
            }
            join_segments_chars(&segs)
        } else {
            proof {
                assert(segs.deep_view().len() == segs@.len());
            }
            t
        };
        let stripped = trim_fence_chars(&base);
        let framed: Vec<char> = if stripped.len() > 0 && stripped[0] == '{' {
            let mut w: Vec<char> = Vec::new();
            w.push('[');
            let mut k: usize = 0;
            while k < stripped.len()
                invariant
                    k <= stripped@.len(),
                    w@ == seq!['['] + stripped@.subrange(0, k as int),
                decreases stripped@.len() - k,
            {
                w.push(stripped[k]);
                proof {
                    assert(w@ =~= seq!['['] + stripped@.subrange(0, k + 1 as int));
                }
                k += 1;
            }
            w.push(']');
            proof {
                assert(stripped@.subrange(0, stripped@.len() as int) =~= stripped@);
                assert(w@ =~= seq!['['] + stripped@ + seq![']']);
            }
            w
        } else {
            stripped
        };
        crate::strutil::string_of_chars(&framed)
    }
}

} // verus!

verus! {

/// Model of a [`Granite4OutputFunctionCall`].
#[verifier::ext_equal]
pub struct Granite4OutputCallV {
    pub name: Seq<char>,
    pub arguments: Seq<(Seq<char>, Jv)>,
}

/// One call as Granite-4 emits it: the sanitized function name and the
/// argument object.
#[derive(Debug)]
pub struct Granite4OutputFunctionCall {
    pub name: String,
    pub arguments: Vec<(String, JsonValue)>,
}

impl View for Granite4OutputFunctionCall {
    type V = Granite4OutputCallV;

    open spec fn view(&self) -> Granite4OutputCallV {
        Granite4OutputCallV { name: self.name@, arguments: jv_of_fields(self.arguments@) }
    }
}

/// The call a decoded JSON tree describes: an object with a string `name`
/// and an object `arguments`; other members are ignored.
pub open spec fn g4_call_of_jv(v: Jv) -> Option<Granite4OutputCallV> {
    match v {
        Jv::Obj(fields) => {
            let name = obj_lookup(fields, "name"@);
            let args = obj_lookup(fields, "arguments"@);
            if !(name matches Some(Jv::Str(_))) {
                None
            } else if !(args matches Some(Jv::Obj(_))) {
                None
            } else {
                Some(
                    Granite4OutputCallV { name: name->0->Str_0, arguments: args->0->Obj_0 },
                )
            }
        },
        _ => None,
    }
}

/// The message a failed call-shape check reports for one call.
pub open spec fn g4_call_err_msg(v: Jv) -> Seq<char> {
    if !(jv_get(v, "name"@) matches Some(Jv::Str(_))) {
        "Tool call 'name' should be a string"@
    } else if !(jv_get(v, "arguments"@) matches Some(Jv::Obj(_))) {
        "Tool call 'arguments' should be an object"@
    } else {
        Seq::empty()
    }
}

/// The message of the first call that fails the shape check.
pub open spec fn g4_call_list_err_msg(items: Seq<Jv>) -> Seq<char>
    decreases items.len(),
{
    if items.len() == 0 {
        Seq::empty()
    } else if g4_call_of_jv(items[0]) is None {
        g4_call_err_msg(items[0])
    } else {
        g4_call_list_err_msg(items.drop_first())
    }
}

/// The message a failed call-shape check reports for a decoded answer.
pub open spec fn g4_calls_err_msg(v: Jv) -> Seq<char> {
    match v {
        Jv::Arr(items) => g4_call_list_err_msg(items),
        _ => "Expected a JSON array of tool calls"@,
    }
}

/// When a prefix of the calls fits the shape and call `j` does not, the
/// list message is call `j`'s message.
proof fn lemma_g4_call_list_err_at(items: Seq<Jv>, j: int)
    requires
        0 <= j < items.len(),
        g4_call_list_of(items.subrange(0, j)) is Some,
        g4_call_of_jv(items[j]) is None,
    ensures
        g4_call_list_err_msg(items) == g4_call_err_msg(items[j]),
    decreases j,
{
    if j == 0 {
    } else {
        assert(items.subrange(0, j)[0] == items[0]);
        assert(g4_call_of_jv(items[0]) is Some);
        assert(items.subrange(0, j).drop_first() =~= items.drop_first().subrange(0, j - 1));
        lemma_g4_call_list_err_at(items.drop_first(), j - 1);
        assert(items.drop_first()[j - 1] == items[j]);
    }
}

/// The calls a decoded JSON array describes; `None` when the tree is not
/// an array of calls.
pub open spec fn g4_calls_of_jv(v: Jv) -> Option<Seq<Granite4OutputCallV>> {
    match v {
        Jv::Arr(items) => g4_call_list_of(items),
        _ => None,
    }
}

/// The calls of a list of JSON trees, all or none.
pub open spec fn g4_call_list_of(items: Seq<Jv>) -> Option<Seq<Granite4OutputCallV>>
    decreases items.len(),
{
    if items.len() == 0 {
        Some(Seq::empty())
    } else {
        match g4_call_of_jv(items[0]) {
            Some(c) => match g4_call_list_of(items.drop_first()) {
                Some(rest) => Some(seq![c] + rest),
                None => None,
            },
            None => None,
        }
    }
}

/// Extending `g4_call_list_of` by one element.
proof fn lemma_g4_call_list_snoc(items: Seq<Jv>, x: Jv)
    ensures
        g4_call_list_of(items.push(x)) == match g4_call_list_of(items) {
            Some(cs) => match g4_call_of_jv(x) {
                Some(c) => Some(cs.push(c)),
                None => None,
            },
            None => None,
        },
    decreases items.len(),
{
    if items.len() == 0 {
        assert(items.push(x)[0] == x);
        assert(items.push(x).drop_first() =~= items);
        match g4_call_of_jv(x) {
            Some(c) => {
                assert(g4_call_list_of(items.push(x)) matches Some(o) && o =~= Seq::empty().push(
                    c,
                ));
            },
            None => {},
        }
    } else {
        lemma_g4_call_list_snoc(items.drop_first(), x);
        assert(items.push(x).drop_first() =~= items.drop_first().push(x));
        assert(items.push(x)[0] == items[0]);
        match (g4_call_of_jv(items[0]), g4_call_list_of(items.drop_first()), g4_call_of_jv(x)) {
            (Some(c0), Some(rest), Some(c)) => {
                assert(seq![c0] + rest.push(c) =~= (seq![c0] + rest).push(c));
            },
            _ => {},
        }
    }
}

/// A malformed element makes the whole list malformed.
proof fn lemma_g4_call_list_fail(items: Seq<Jv>, j: int)
    requires
        0 <= j < items.len(),
        g4_call_of_jv(items[j]) is None,
    ensures
        g4_call_list_of(items) is None,
    decreases items.len(),
{
    if j > 0 {
        lemma_g4_call_list_fail(items.drop_first(), j - 1);
        assert(items.drop_first()[j - 1] == items[j]);
    }
}

/// The calls restored to original function names, or `None` as soon as a
/// sanitized name was never registered.
pub open spec fn restored_calls(
    cs: Seq<Granite4OutputCallV>,
    s2o: Seq<(Seq<char>, Seq<char>)>,
) -> Option<Seq<crate::tool_bfcl_formats::BfclOutputCallV>>
    decreases cs.len(),
{
    if cs.len() == 0 {
        Some(Seq::empty())
    } else {
        match assoc_lookup(s2o, cs[0].name) {
            None => None,
            Some(original) => match restored_calls(cs.drop_first(), s2o) {
                Some(rest) => Some(
                    seq![
                        crate::tool_bfcl_formats::BfclOutputCallV {
                            function_name: original,
                            parameters: cs[0].arguments,
                        },
                    ] + rest,
                ),
                None => None,
            },
        }
    }
}

/// Extending `restored_calls` by one call.
proof fn lemma_restored_calls_snoc(
    cs: Seq<Granite4OutputCallV>,
    c: Granite4OutputCallV,
    s2o: Seq<(Seq<char>, Seq<char>)>,
)
    ensures
        restored_calls(cs.push(c), s2o) == match restored_calls(cs, s2o) {
            Some(rs) => match assoc_lookup(s2o, c.name) {
                Some(original) => Some(
                    rs.push(
                        crate::tool_bfcl_formats::BfclOutputCallV {
                            function_name: original,
                            parameters: c.arguments,
                        },
                    ),
                ),
                None => None,
            },
            None => None,
        },
    decreases cs.len(),
{
    if cs.len() == 0 {
        assert(cs.push(c)[0] == c);
        assert(cs.push(c).drop_first() =~= cs);
        match assoc_lookup(s2o, c.name) {
            Some(original) => {
                let b = crate::tool_bfcl_formats::BfclOutputCallV {
                    function_name: original,
                    parameters: c.arguments,
                };
                assert(restored_calls(cs.push(c), s2o) matches Some(o) && o =~= Seq::empty().push(
                    b,
                ));
            },
            None => {},
        }
    } else {
        lemma_restored_calls_snoc(cs.drop_first(), c, s2o);
        assert(cs.push(c).drop_first() =~= cs.drop_first().push(c));
        assert(cs.push(c)[0] == cs[0]);
        match (assoc_lookup(s2o, cs[0].name), restored_calls(cs.drop_first(), s2o), assoc_lookup(
            s2o,
            c.name,
        )) {
            (Some(o0), Some(rest), Some(oc)) => {
                let b0 = crate::tool_bfcl_formats::BfclOutputCallV {
                    function_name: o0,
                    parameters: cs[0].arguments,
                };
                let bc = crate::tool_bfcl_formats::BfclOutputCallV {
                    function_name: oc,
                    parameters: c.arguments,
                };
                assert(seq![b0] + rest.push(bc) =~= (seq![b0] + rest).push(bc));
            },
            _ => {},
        }
    }
}

/// An unregistered name makes the whole restoration fail.
proof fn lemma_restored_calls_fail(
    cs: Seq<Granite4OutputCallV>,
    j: int,
    s2o: Seq<(Seq<char>, Seq<char>)>,
)
    requires
        0 <= j < cs.len(),
        assoc_lookup(s2o, cs[j].name) is None,
    ensures
        restored_calls(cs, s2o) is None,
    decreases cs.len(),
{
    if j > 0 {
        lemma_restored_calls_fail(cs.drop_first(), j - 1, s2o);
        assert(cs.drop_first()[j - 1] == cs[j]);
    }
}

impl Granite4Interface {
    /// Checks a decoded JSON tree against the Granite-4 call shape: an
    /// array of objects each holding a string `name` and an object
    /// `arguments`.
    pub fn decode_calls(&self, v: &JsonValue) -> (r: Result<
        Vec<Granite4OutputFunctionCall>,
        String,
    >)
        ensures
            match r {
                Ok(cs) => g4_calls_of_jv(v@) == Some(
                    Seq::new(cs@.len(), |i: int| cs@[i]@),
                ),
                Err(m) => g4_calls_of_jv(v@) is None && m@ == g4_calls_err_msg(v@),
            },
    {
        let items = match v {
            JsonValue::Arr(items) => items,
            _ => {
                return Err(String::from_str("Expected a JSON array of tool calls"));
            },
        };
        let ghost m = jv_of_seq(items@);
        proof {
            lemma_jv_of_seq_index(items@);
            assert(m.subrange(0, 0) =~= Seq::<Jv>::empty());
        }
        let mut out: Vec<Granite4OutputFunctionCall> = Vec::new();
        let mut i: usize = 0;
        while i < items.len()
            invariant
                i <= items@.len(),
                m == jv_of_seq(items@),
                m.len() == items@.len(),
                forall|k: int| 0 <= k < m.len() ==> m[k] == jv_of(items@[k]),
                v@ == Jv::Arr(m),
                g4_call_list_of(m.subrange(0, i as int)) == Some(
                    Seq::new(out@.len(), |t: int| out@[t]@),
                ),
            decreases items@.len() - i,
        {
            let item = &items[i];
            let name: String = match obj_get(item, "name") {
                Some(c) => match c {
                    JsonValue::Str(s) => s.clone(),
                    _ => {
                        proof {
                            lemma_g4_call_list_fail(m, i as int);
                            lemma_g4_call_list_err_at(m, i as int);
                        }
                        return Err(String::from_str("Tool call 'name' should be a string"));
                    },
                },
                None => {
                    proof {
                        lemma_g4_call_list_fail(m, i as int);
                        lemma_g4_call_list_err_at(m, i as int);
                    }
                    return Err(String::from_str("Tool call 'name' should be a string"));
                },
            };
            let arguments: Vec<(String, JsonValue)> = match obj_get(item, "arguments") {
                Some(c) => match c {
                    JsonValue::Obj(args) => jv_clone_fields(args),
                    _ => {
                        proof {
                            lemma_g4_call_list_fail(m, i as int);
                            lemma_g4_call_list_err_at(m, i as int);
                        }
                        return Err(String::from_str("Tool call 'arguments' should be an object"));
                    },
                },
                None => {
                    proof {
                        lemma_g4_call_list_fail(m, i as int);
                        lemma_g4_call_list_err_at(m, i as int);
                    }
                    return Err(String::from_str("Tool call 'arguments' should be an object"));
                },
            };
            let ghost prev = Seq::new(out@.len(), |t: int| out@[t]@);
            out.push(Granite4OutputFunctionCall { name, arguments });
            proof {
                lemma_g4_call_list_snoc(m.subrange(0, i as int), m[i as int]);
                assert(m.subrange(0, i as int).push(m[i as int]) =~= m.subrange(0, i + 1 as int));
                assert(Seq::new(out@.len(), |t: int| out@[t]@) =~= prev.push(out@.last()@));
            }
            i += 1;
        }
        proof {
            assert(m.subrange(0, m.len() as int) =~= m);
        }
        Ok(out)
    }

    /// Maps each call's sanitized function name back to its original name
    /// through the recorded pairs, failing on a name the run never
    /// registered.
    pub fn restore_call_names(
        &self,
        calls: &Vec<Granite4OutputFunctionCall>,
        name_mapper: &FunctionNameMapper,
    ) -> (r: Result<Vec<BfclOutputFunctionCall>, LookupError>)
        ensures
            match r {
                Ok(bs) => restored_calls(
                    Seq::new(calls@.len(), |i: int| calls@[i]@),
                    name_mapper.s2o(),
                ) == Some(Seq::new(bs@.len(), |i: int| bs@[i]@)),
                Err(_) => restored_calls(
                    Seq::new(calls@.len(), |i: int| calls@[i]@),
                    name_mapper.s2o(),
                ) is None,
            },
    {
        let ghost m = Seq::new(calls@.len(), |i: int| calls@[i]@);
        proof {
            assert(m.subrange(0, 0) =~= Seq::<Granite4OutputCallV>::empty());
        }
        let mut out: Vec<BfclOutputFunctionCall> = Vec::new();
        let mut i: usize = 0;
        while i < calls.len()
            invariant
                i <= calls@.len(),
                m == Seq::new(calls@.len(), |t: int| calls@[t]@),
                m.len() == calls@.len(),
                restored_calls(m.subrange(0, i as int), name_mapper.s2o()) == Some(
                    Seq::new(out@.len(), |t: int| out@[t]@),
                ),
            decreases calls@.len() - i,
        {
            let original = match name_mapper.restore(&calls[i].name) {
                Ok(o) => o,
                Err(e) => {
                    proof {
                        lemma_restored_calls_fail(m, i as int, name_mapper.s2o());
                    }
                    return Err(e);
                },
            };
            let parameters = jv_clone_fields(&calls[i].arguments);
            let ghost prev = Seq::new(out@.len(), |t: int| out@[t]@);
            out.push(BfclOutputFunctionCall { function_name: original, parameters });
            proof {
                lemma_restored_calls_snoc(m.subrange(0, i as int), m[i as int], name_mapper.s2o());
                assert(m.subrange(0, i as int).push(m[i as int]) =~= m.subrange(0, i + 1 as int));
                assert(Seq::new(out@.len(), |t: int| out@[t]@) =~= prev.push(out@.last()@));
            }
            i += 1;
        }
        proof {
            assert(m.subrange(0, m.len() as int) =~= m);
        }
        Ok(out)
    }
}

} // verus!

verus! {

/// The message prefix of an unknown-function-name parsing error.
pub open spec fn unknown_name_prefix() -> Seq<char> {
    "unknown function name: "@
}

impl Granite4Interface {
    /// Chooses the error kind for a model answer whose framed text could
    /// not be decoded: empty framed text means the answer held no
    /// structured content at all; anything else is a decode failure on
    /// text that was present.
    pub fn decode_failure_error(
        &self,
        raw_output: &str,
        framed: &String,
        error_message: String,
    ) -> (r: EvaluationError)
        ensures
            r@ == if framed@.len() == 0 {
                EvalErrorV::NoFunctionCallsFound { raw_output: raw_output@ }
            } else {
                EvalErrorV::JsonDecodeError {
                    error_message: error_message@,
                    raw_output: raw_output@,
                }
            },
    {
        if framed.as_str().unicode_len() == 0 {
            EvaluationError::NoFunctionCallsFound { raw_output: String::from_str(raw_output) }
        } else {
            EvaluationError::JsonDecodeError {
                error_message,
                raw_output: String::from_str(raw_output),
            }
        }
    }

    /// The error for a decoded call naming a function the run never
    /// registered: a parsing error whose message names the unknown name.
    pub fn unknown_name_error(&self, raw_output: &str, e: &LookupError) -> (r: EvaluationError)
        ensures
            r@ == (EvalErrorV::ParsingError {
                message: unknown_name_prefix() + e.name@,
                raw_output: raw_output@,
            }),
    {
        let mut message = String::from_str("unknown function name: ");
        crate::strutil::push_str(&mut message, e.name.as_str());
        EvaluationError::ParsingError { message, raw_output: String::from_str(raw_output) }
    }
}

} // verus!
