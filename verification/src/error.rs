//! The error taxonomy of the core.
//!
//! Validation failures are typed and synchronous; backend failures carry the
//! collaborator's message as plain text.  Cache trouble never surfaces here:
//! the cache layers absorb it and fall back to the store.

use vstd::prelude::*;

verus! {

#[derive(Debug, Clone, PartialEq, Eq)]
pub enum AppError {
    /// The durable store failed; a hard error for the request.
    DatabaseError(String),
    /// The cache backend failed outside the degradable paths.
    RedisError(String),
    /// No matching active template row.
    TemplateNotFound,
    /// Compile or execute failure, or an output-shape violation.
    RenderError(String),
    /// The variable mapping was malformed.
    InvalidVariables(String),
    /// The type tag is not one of the recognized template types.
    InvalidTemplateType,
    /// The content failed type-specific validation.
    InvalidContent(String),
    /// The rendered output exceeded the configured size ceiling.
    RenderedSizeExceeded,
    Unauthorized,
    InternalError(String),
}

impl AppError {
    /// The stable machine-readable code of this error.
    pub fn error_code(&self) -> (s: &str)
        ensures
            s@ == self.spec_error_code(),
    {
        proof {
            reveal_strlit("db_error");
            reveal_strlit("cache_error");
            reveal_strlit("template_not_found");
            reveal_strlit("render_error");
            reveal_strlit("invalid_variables");
            reveal_strlit("invalid_template_type");
            reveal_strlit("invalid_content");
            reveal_strlit("rendered_size_exceeded");
            reveal_strlit("unauthorized");
            reveal_strlit("internal_error");
        }
        match self {
            AppError::DatabaseError(_) => "db_error",
            AppError::RedisError(_) => "cache_error",
            AppError::TemplateNotFound => "template_not_found",
            AppError::RenderError(_) => "render_error",
            AppError::InvalidVariables(_) => "invalid_variables",
            AppError::InvalidTemplateType => "invalid_template_type",
            AppError::InvalidContent(_) => "invalid_content",
            AppError::RenderedSizeExceeded => "rendered_size_exceeded",
            AppError::Unauthorized => "unauthorized",
            AppError::InternalError(_) => "internal_error",
        }
    }

    pub open spec fn spec_error_code(self) -> Seq<char> {
        match self {
            AppError::DatabaseError(_) => "db_error"@,
            AppError::RedisError(_) => "cache_error"@,
            AppError::TemplateNotFound => "template_not_found"@,
            AppError::RenderError(_) => "render_error"@,
            AppError::InvalidVariables(_) => "invalid_variables"@,
            AppError::InvalidTemplateType => "invalid_template_type"@,
            AppError::InvalidContent(_) => "invalid_content"@,
            AppError::RenderedSizeExceeded => "rendered_size_exceeded"@,
            AppError::Unauthorized => "unauthorized"@,
            AppError::InternalError(_) => "internal_error"@,
        }
    }

    /// The HTTP status the routing layer should answer with.
    pub fn status_code(&self) -> (c: u16)
        ensures
            c == self.spec_status_code(),
    {
        match self {
            AppError::DatabaseError(_) => 500,
            AppError::RedisError(_) => 500,
            AppError::TemplateNotFound => 404,
            AppError::RenderError(_) => 400,
            AppError::InvalidVariables(_) => 400,
            AppError::InvalidTemplateType => 400,
            AppError::InvalidContent(_) => 400,
            AppError::RenderedSizeExceeded => 400,
            AppError::Unauthorized => 401,
            AppError::InternalError(_) => 500,
        }
    }

    pub open spec fn spec_status_code(self) -> u16 {
        match self {
            AppError::DatabaseError(_) => 500u16,
            AppError::RedisError(_) => 500u16,
            AppError::TemplateNotFound => 404u16,
            AppError::RenderError(_) => 400u16,
            AppError::InvalidVariables(_) => 400u16,
            AppError::InvalidTemplateType => 400u16,
            AppError::InvalidContent(_) => 400u16,
            AppError::RenderedSizeExceeded => 400u16,
            AppError::Unauthorized => 401u16,
            AppError::InternalError(_) => 500u16,
        }
    }
}

} // verus!
