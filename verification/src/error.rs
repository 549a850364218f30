use crate::model::ValidationIssue;
use vstd::prelude::*;

verus! {

/// Why a call of the component failed.
#[derive(Debug)]
pub enum ComponentError {
    /// The input has not the shape of an invocation.
    InvalidInput(String),
    /// JSON could not be read or written.
    Serde(String),
    /// The asset resolver could not answer.
    Asset(String),
    /// The named asset does not exist.
    AssetNotFound(String),
    /// The named asset holds no JSON.
    AssetParse(String),
    /// An expression failed in a way that is no mere absence of a value.
    BindingEval(String),
    /// The card has validation issues, and the invocation makes them fatal.
    CardValidation(Vec<ValidationIssue>),
    /// The interaction lacks what is needed to handle it.
    InteractionInvalid(String),
    /// The state store could not keep the new state.
    State(String),
}

/// The code under which the host learns of an error.
pub open spec fn code_spec(e: ComponentError) -> Seq<char> {
    match e {
        ComponentError::InvalidInput(_) => "AC_SCHEMA_INVALID"@,
        ComponentError::Serde(_) => "AC_SCHEMA_INVALID"@,
        ComponentError::Asset(_) => "AC_INTERNAL_ERROR"@,
        ComponentError::AssetNotFound(_) => "AC_ASSET_NOT_FOUND"@,
        ComponentError::AssetParse(_) => "AC_ASSET_PARSE_ERROR"@,
        ComponentError::BindingEval(_) => "AC_BINDING_EVAL_ERROR"@,
        ComponentError::CardValidation(_) => "AC_CARD_VALIDATION_FAILED"@,
        ComponentError::InteractionInvalid(_) => "AC_INTERACTION_INVALID"@,
        ComponentError::State(_) => "AC_INTERNAL_ERROR"@,
    }
}

/// The message of an error: what kind it is, then its own text.
pub open spec fn message_spec(e: ComponentError) -> Seq<char> {
    match e {
        ComponentError::InvalidInput(m) => "invalid input: "@ + m@,
        ComponentError::Serde(m) => "serialization error: "@ + m@,
        ComponentError::Asset(m) => "asset error: "@ + m@,
        ComponentError::AssetNotFound(m) => "asset not found: "@ + m@,
        ComponentError::AssetParse(m) => "asset parse error: "@ + m@,
        ComponentError::BindingEval(m) => "binding error: "@ + m@,
        ComponentError::CardValidation(_) => "card validation failed"@,
        ComponentError::InteractionInvalid(m) => "invalid interaction: "@ + m@,
        ComponentError::State(m) => "state error: "@ + m@,
    }
}

/// `prefix` followed by `rest`.
pub fn joined(prefix: &str, rest: &str) -> (r: String)
    ensures
        r@ == prefix@ + rest@,
{
    let mut out = prefix.to_owned();
    out.append(rest);
    out
}

impl ComponentError {
    /// The code under which the host learns of the error.
    pub fn code(&self) -> (r: &'static str)
        ensures
            r@ == code_spec(*self),
    {
        match self {
            ComponentError::InvalidInput(_) => "AC_SCHEMA_INVALID",
            ComponentError::Serde(_) => "AC_SCHEMA_INVALID",
            ComponentError::Asset(_) => "AC_INTERNAL_ERROR",
            ComponentError::AssetNotFound(_) => "AC_ASSET_NOT_FOUND",
            ComponentError::AssetParse(_) => "AC_ASSET_PARSE_ERROR",
            ComponentError::BindingEval(_) => "AC_BINDING_EVAL_ERROR",
            ComponentError::CardValidation(_) => "AC_CARD_VALIDATION_FAILED",
            ComponentError::InteractionInvalid(_) => "AC_INTERACTION_INVALID",
            ComponentError::State(_) => "AC_INTERNAL_ERROR",
        }
    }

    /// The message of the error: what kind it is, then its own text.
    pub fn message(&self) -> (r: String)
        ensures
            r@ == message_spec(*self),
    {
        match self {
            ComponentError::InvalidInput(m) => joined("invalid input: ", m.as_str()),
            ComponentError::Serde(m) => joined("serialization error: ", m.as_str()),
            ComponentError::Asset(m) => joined("asset error: ", m.as_str()),
            ComponentError::AssetNotFound(m) => joined("asset not found: ", m.as_str()),
            ComponentError::AssetParse(m) => joined("asset parse error: ", m.as_str()),
            ComponentError::BindingEval(m) => joined("binding error: ", m.as_str()),
            ComponentError::CardValidation(_) => "card validation failed".to_owned(),
            ComponentError::InteractionInvalid(m) => joined("invalid interaction: ", m.as_str()),
            ComponentError::State(m) => joined("state error: ", m.as_str()),
        }
    }
}

} // verus!
