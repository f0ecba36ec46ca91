//! The GPT-5 model-family adapter: tool definitions in the flat
//! `{type:"function", name, parameters}` shape, with each top-level
//! parameter reduced to its renamed type and description.

use crate::assoc::assoc_lookup;
use crate::function_name_mapper::{FunctionNameMapper, LookupError};
use crate::granite4_interface::{spec_map_type_hint, Granite4Interface};
use crate::tool_bfcl_formats::{fndefs_view, BfclFunctionDef, BfclFunctionDefV, BfclParameterV};
use vstd::prelude::*;

verus! {

/// Model of a [`Gpt5PropertyValue`].
#[verifier::ext_equal]
pub struct Gpt5PropertyValueV {
    pub ty: Seq<char>,
    pub description: Seq<char>,
}

/// One property of a GPT-5 tool schema: its renamed type and description.
#[derive(Debug)]
pub struct Gpt5PropertyValue {
    pub ty: String,
    pub description: String,
}

impl View for Gpt5PropertyValue {
    type V = Gpt5PropertyValueV;

    open spec fn view(&self) -> Gpt5PropertyValueV {
        Gpt5PropertyValueV { ty: self.ty@, description: self.description@ }
    }
}

/// Model of a [`Gpt5Parameters`].
#[verifier::ext_equal]
pub struct Gpt5ParametersV {
    pub ty: Seq<char>,
    pub properties: Seq<(Seq<char>, Gpt5PropertyValueV)>,
    pub required: Seq<Seq<char>>,
}

/// The parameter object of a GPT-5 tool: always object-typed, with the
/// flattened properties and the required names.
#[derive(Debug)]
pub struct Gpt5Parameters {
    pub ty: String,
    pub properties: Vec<(String, Gpt5PropertyValue)>,
    pub required: Vec<String>,
}

impl View for Gpt5Parameters {
    type V = Gpt5ParametersV;

    open spec fn view(&self) -> Gpt5ParametersV {
        Gpt5ParametersV {
            ty: self.ty@,
            properties: Seq::new(
                self.properties@.len(),
                |i: int| (self.properties@[i].0@, self.properties@[i].1@),
            ),
            required: self.required.deep_view(),
        }
    }
}

/// Model of a [`Gpt5Tool`].
#[verifier::ext_equal]
pub struct Gpt5ToolV {
    pub ty: Seq<char>,
    pub name: Seq<char>,
    pub description: Seq<char>,
    pub parameters: Gpt5ParametersV,
}

/// One GPT-5 tool definition: the flat wire shape.
#[derive(Debug)]
pub struct Gpt5Tool {
    pub ty: String,
    pub name: String,
    pub description: String,
    pub parameters: Gpt5Parameters,
}

impl View for Gpt5Tool {
    type V = Gpt5ToolV;

    open spec fn view(&self) -> Gpt5ToolV {
        Gpt5ToolV {
            ty: self.ty@,
            name: self.name@,
            description: self.description@,
            parameters: self.parameters@,
        }
    }
}

/// The GPT-5 adapter.
#[derive(Clone, Copy, Debug)]
pub struct Gpt5Interface;

/// One flattened property: the nested schema's type renamed, its
/// description or empty.
pub open spec fn gpt5_property_of(p: BfclParameterV) -> Gpt5PropertyValueV {
    Gpt5PropertyValueV {
        ty: spec_map_type_hint(p.ty),
        description: match p.description {
            Some(d) => d,
            None => Seq::empty(),
        },
    }
}

/// The flattened properties of a function's top-level schema.
pub open spec fn gpt5_properties_of(props: Seq<(Seq<char>, BfclParameterV)>) -> Seq<
    (Seq<char>, Gpt5PropertyValueV),
> {
    Seq::new(props.len(), |i: int| (props[i].0, gpt5_property_of(props[i].1)))
}

/// The GPT-5 tool of one function definition under its sanitized name.
pub open spec fn gpt5_tool_of(d: BfclFunctionDefV, sanitized: Seq<char>) -> Gpt5ToolV {
    Gpt5ToolV {
        ty: "function"@,
        name: sanitized,
        description: d.description,
        parameters: Gpt5ParametersV {
            ty: "object"@,
            properties: gpt5_properties_of(
                match d.parameters.properties {
                    Some(ps) => ps,
                    None => Seq::empty(),
                },
            ),
            required: d.required,
        },
    }
}

/// The GPT-5 tools of a function list, or `None` as soon as the mapper
/// lacks a name.
pub open spec fn gpt5_tools_of(
    defs: Seq<BfclFunctionDefV>,
    o2s: Seq<(Seq<char>, Seq<char>)>,
) -> Option<Seq<Gpt5ToolV>>
    decreases defs.len(),
{
    if defs.len() == 0 {
        Some(Seq::empty())
    } else {
        match assoc_lookup(o2s, defs[0].name) {
            None => None,
            Some(sanitized) => match gpt5_tools_of(defs.drop_first(), o2s) {
                Some(rest) => Some(seq![gpt5_tool_of(defs[0], sanitized)] + rest),
                None => None,
            },
        }
    }
}

/// Extending `gpt5_tools_of` by one function.
proof fn lemma_gpt5_tools_snoc(
    defs: Seq<BfclFunctionDefV>,
    d: BfclFunctionDefV,
    o2s: Seq<(Seq<char>, Seq<char>)>,
)
    ensures
        gpt5_tools_of(defs.push(d), o2s) == match gpt5_tools_of(defs, o2s) {
            Some(ts) => match assoc_lookup(o2s, d.name) {
                Some(sanitized) => Some(ts.push(gpt5_tool_of(d, sanitized))),
                None => None,
            },
            None => None,
        },
    decreases defs.len(),
{
    if defs.len() == 0 {
        assert(defs.push(d)[0] == d);
        assert(defs.push(d).drop_first() =~= defs);
        match assoc_lookup(o2s, d.name) {
            Some(sanitized) => {
                assert(gpt5_tools_of(defs.push(d), o2s) matches Some(o) && o =~= Seq::empty().push(
                    gpt5_tool_of(d, sanitized),
                ));
            },
            None => {},
        }
    } else {
        lemma_gpt5_tools_snoc(defs.drop_first(), d, o2s);
        assert(defs.push(d).drop_first() =~= defs.drop_first().push(d));
        assert(defs.push(d)[0] == defs[0]);
        match (
            assoc_lookup(o2s, defs[0].name),
            gpt5_tools_of(defs.drop_first(), o2s),
            assoc_lookup(o2s, d.name),
        ) {
            (Some(s0), Some(rest), Some(sd)) => {
                assert(seq![gpt5_tool_of(defs[0], s0)] + rest.push(gpt5_tool_of(d, sd)) =~= (seq![
                    gpt5_tool_of(defs[0], s0),
                ] + rest).push(gpt5_tool_of(d, sd)));
            },
            _ => {},
        }
    }
}

/// An unmapped function name makes the whole list fail.
proof fn lemma_gpt5_tools_fail(
    defs: Seq<BfclFunctionDefV>,
    j: int,
    o2s: Seq<(Seq<char>, Seq<char>)>,
)
    requires
        0 <= j < defs.len(),
        assoc_lookup(o2s, defs[j].name) is None,
    ensures
        gpt5_tools_of(defs, o2s) is None,
    decreases defs.len(),
{
    if j > 0 {
        lemma_gpt5_tools_fail(defs.drop_first(), j - 1, o2s);
        assert(defs.drop_first()[j - 1] == defs[j]);
    }
}

impl Gpt5Interface {
    /// Builds the flat GPT-5 tool definitions for a case's functions,
    /// under the mapper's sanitized names.  Fails when the mapper has no
    /// entry for some function.
    pub fn generate_tool_definitions(
        &self,
        bfcl_functions: &Vec<BfclFunctionDef>,
        name_mapper: &FunctionNameMapper,
    ) -> (r: Result<Vec<Gpt5Tool>, LookupError>)
        ensures
            match r {
                Ok(ts) => gpt5_tools_of(fndefs_view(bfcl_functions@), name_mapper.o2s()) == Some(
                    Seq::new(ts@.len(), |i: int| ts@[i]@),
                ),
                Err(_) => gpt5_tools_of(fndefs_view(bfcl_functions@), name_mapper.o2s()) is None,
            },
    {
        let ghost dm = fndefs_view(bfcl_functions@);
        proof {
            assert(dm.subrange(0, 0) =~= Seq::<BfclFunctionDefV>::empty());
        }
        let mut tools: Vec<Gpt5Tool> = Vec::new();
        let mut i: usize = 0;
        while i < bfcl_functions.len()
            invariant
                i <= bfcl_functions@.len(),
                dm == fndefs_view(bfcl_functions@),
                dm.len() == bfcl_functions@.len(),
                forall|k: int| 0 <= k < dm.len() ==> dm[k] == bfcl_functions@[k]@,
                gpt5_tools_of(dm.subrange(0, i as int), name_mapper.o2s()) == Some(
                    Seq::new(tools@.len(), |t: int| tools@[t]@),
                ),
            decreases bfcl_functions@.len() - i,
        {
            let func = &bfcl_functions[i];
            let sanitized = match name_mapper.lookup_sanitized(&func.name) {
                Some(s) => s,
                None => {
                    proof {
                        lemma_gpt5_tools_fail(dm, i as int, name_mapper.o2s());
                    }
                    return Err(LookupError { name: func.name.clone() });
                },
            };
            let mut properties: Vec<(String, Gpt5PropertyValue)> = Vec::new();
            match &func.parameters.properties {
                Some(props) => {
                    let mut k: usize = 0;
                    while k < props.len()
                        invariant
                            k <= props@.len(),
                            properties@.len() == k,
                            forall|t: int| 0 <= t < k ==> properties@[t].0@ == props@[t].0@
                                && properties@[t].1@ == gpt5_property_of(
                                crate::tool_bfcl_formats::param_view(props@[t].1),
                            ),
                        decreases props@.len() - k,
                    {
                        let p = &props[k].1;
                        let ty = Granite4Interface::map_type_hint(p.ty.as_str());
                        let description = match &p.description {
                            Some(d) => d.clone(),
                            None => String::new(),
                        };
                        properties.push((props[k].0.clone(), Gpt5PropertyValue { ty, description }));
                        k += 1;
                    }
                },
                None => {},
            }
            let tool = Gpt5Tool {
                ty: String::from_str("function"),
                name: sanitized,
                description: func.description.clone(),
                parameters: Gpt5Parameters {
                    ty: String::from_str("object"),
                    properties,
                    required: crate::tool_bfcl_formats::clone_string_vec(&func.required),
                },
            };
            let ghost prev = Seq::new(tools@.len(), |t: int| tools@[t]@);
            proof {
                match &func.parameters.properties {
                    Some(props) => {
                        crate::tool_bfcl_formats::lemma_param_fields_view_index(props@);
                        assert(tool@.parameters.properties =~~= gpt5_properties_of(
                            crate::tool_bfcl_formats::param_fields_view(props@),
                        ));
                    },
                    None => {
                        assert(tool@.parameters.properties =~~= gpt5_properties_of(Seq::empty()));
                    },
                }
                assert(tool@ =~~= gpt5_tool_of(dm[i as int], tool@.name));
            }
            tools.push(tool);
            proof {
                lemma_gpt5_tools_snoc(dm.subrange(0, i as int), dm[i as int], name_mapper.o2s());
                assert(dm.subrange(0, i as int).push(dm[i as int]) =~= dm.subrange(
                    0,
                    i + 1 as int,
                ));
                assert(Seq::new(tools@.len(), |t: int| tools@[t]@) =~= prev.push(tools@.last()@));
            }
            i += 1;
        }
        proof {
            assert(dm.subrange(0, dm.len() as int) =~= dm);
        }
        Ok(tools)
    }
}

} // verus!
