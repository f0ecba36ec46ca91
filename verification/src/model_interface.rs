//! Model identifiers and adapter selection.
//!
//! The supported model families are a closed set, so the adapter for a
//! model is chosen by exhaustive matching over a tagged variant type:
//! every family is wired into every operation at compile time, and an
//! unknown identifier cannot slip through as a silent default.

use vstd::prelude::*;

verus! {

/// A hosted-API model.
#[derive(Clone, Copy, Debug, PartialEq, Eq, Structural)]
pub enum ApiModel {
    Gpt5,
    Gpt5Mini,
    Gpt5Nano,
    DeepSeek,
}

/// A locally served model.
#[derive(Clone, Copy, Debug, PartialEq, Eq, Structural)]
pub enum LocalModel {
    Llama3_1_8B,
    Llama3_1_70B,
    Qwen3_8B,
    Qwen3_14B,
    Qwen3_30bA3b,
    Qwen3_32B,
    Qwen3Next80bA3b,
    Granite4_0HTiny,
    Granite4_0HSmall,
}

/// A model identifier.
#[derive(Clone, Copy, Debug, PartialEq, Eq, Structural)]
pub enum Model {
    Api(ApiModel),
    Local(LocalModel),
}

/// One adapter per model family.
#[derive(Clone, Copy, Debug, PartialEq, Eq, Structural)]
pub enum ModelInterfaceKind {
    Gpt5,
    DeepSeek,
    Llama31,
    Qwen3,
    Granite4,
}

/// The family a model belongs to.
pub open spec fn spec_model_interface(model: Model) -> ModelInterfaceKind {
    match model {
        Model::Api(api) => match api {
            ApiModel::Gpt5 => ModelInterfaceKind::Gpt5,
            ApiModel::Gpt5Mini => ModelInterfaceKind::Gpt5,
            ApiModel::Gpt5Nano => ModelInterfaceKind::Gpt5,
            ApiModel::DeepSeek => ModelInterfaceKind::DeepSeek,
        },
        Model::Local(local) => match local {
            LocalModel::Llama3_1_8B => ModelInterfaceKind::Llama31,
            LocalModel::Llama3_1_70B => ModelInterfaceKind::Llama31,
            LocalModel::Qwen3_8B => ModelInterfaceKind::Qwen3,
            LocalModel::Qwen3_14B => ModelInterfaceKind::Qwen3,
            LocalModel::Qwen3_30bA3b => ModelInterfaceKind::Qwen3,
            LocalModel::Qwen3_32B => ModelInterfaceKind::Qwen3,
            LocalModel::Qwen3Next80bA3b => ModelInterfaceKind::Qwen3,
            LocalModel::Granite4_0HTiny => ModelInterfaceKind::Granite4,
            LocalModel::Granite4_0HSmall => ModelInterfaceKind::Granite4,
        },
    }
}

/// Selects the adapter for a model: a total function over the closed set
/// of identifiers.
pub fn get_model_interface(model: Model) -> (r: ModelInterfaceKind)
    ensures
        r == spec_model_interface(model),
{
    match model {
        Model::Api(api) => match api {
            ApiModel::Gpt5 => ModelInterfaceKind::Gpt5,
            ApiModel::Gpt5Mini => ModelInterfaceKind::Gpt5,
            ApiModel::Gpt5Nano => ModelInterfaceKind::Gpt5,
            ApiModel::DeepSeek => ModelInterfaceKind::DeepSeek,
        },
        Model::Local(local) => match local {
            LocalModel::Llama3_1_8B => ModelInterfaceKind::Llama31,
            LocalModel::Llama3_1_70B => ModelInterfaceKind::Llama31,
            LocalModel::Qwen3_8B => ModelInterfaceKind::Qwen3,
            LocalModel::Qwen3_14B => ModelInterfaceKind::Qwen3,
            LocalModel::Qwen3_30bA3b => ModelInterfaceKind::Qwen3,
            LocalModel::Qwen3_32B => ModelInterfaceKind::Qwen3,
            LocalModel::Qwen3Next80bA3b => ModelInterfaceKind::Qwen3,
            LocalModel::Granite4_0HTiny => ModelInterfaceKind::Granite4,
            LocalModel::Granite4_0HSmall => ModelInterfaceKind::Granite4,
        },
    }
}

} // verus!
