//! The shapes the five surface operations take their parameters in.

use vstd::prelude::*;
use crate::vars::VarMap;

verus! {

/// Query parameters of a get: optional language, optional exact version.
#[derive(Debug, Clone, PartialEq, Eq)]
pub struct GetTemplateQuery {
    pub language: Option<String>,
    pub version: Option<i32>,
}

/// Query parameters of a render: optional language, optional exact version.
#[derive(Debug, Clone, PartialEq, Eq)]
pub struct RenderQuery {
    pub language: Option<String>,
    pub version: Option<i32>,
}

/// The body of a render request: the variable mapping.
#[derive(Debug, Clone, PartialEq, Eq)]
pub struct RenderRequest {
    pub variables: VarMap,
}

} // verus!
