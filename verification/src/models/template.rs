//! The template record and its type tag.
//!
//! A template is identified by `(template_code, language, version)`.  The
//! record itself holds only plain values: timestamps are seconds since the
//! epoch, actor and row identifiers are integers, and `meta` is carried as
//! raw structured text that the core never interprets.

use vstd::prelude::*;

verus! {

/// The closed set of template kinds; rendering dispatches on it exhaustively.
#[derive(Debug, Clone, PartialEq, Eq, Structural)]
pub enum TemplateType {
    EmailHtml,
    PushJson,
}

impl TemplateType {
    /// The wire name of the type tag.
    pub fn as_str(&self) -> (s: &str)
        ensures
            s@ == self.spec_str(),
    {
        proof {
            reveal_strlit("email_html");
            reveal_strlit("push_json");
        }
        match self {
            TemplateType::EmailHtml => "email_html",
            TemplateType::PushJson => "push_json",
        }
    }

    /// Parses a wire name; returns `None` on any unrecognized tag.
    pub fn from_str(s: &str) -> (t: Option<TemplateType>)
        ensures
            t == TemplateType::spec_from_str(s@),
    {
        proof {
            reveal_strlit("email_html");
            reveal_strlit("push_json");
        }
        if crate::text::str_eq(s, "email_html") {
            Some(TemplateType::EmailHtml)
        } else if crate::text::str_eq(s, "push_json") {
            Some(TemplateType::PushJson)
        } else {
            None
        }
    }

    pub open spec fn spec_str(self) -> Seq<char> {
        match self {
            TemplateType::EmailHtml => "email_html"@,
            TemplateType::PushJson => "push_json"@,
        }
    }

    pub open spec fn spec_from_str(s: Seq<char>) -> Option<TemplateType> {
        if s == "email_html"@ {
            Some(TemplateType::EmailHtml)
        } else if s == "push_json"@ {
            Some(TemplateType::PushJson)
        } else {
            None
        }
    }
}

/// A stored template record.  Row and actor identifiers are integers,
/// timestamps are seconds since the epoch, and `meta` is opaque structured
/// text the core never interprets.
#[derive(Debug, Clone, PartialEq, Eq)]
pub struct Template {
    pub id: u64,
    pub template_code: String,
    pub version: i32,
    pub template_type: String,
    pub language: String,
    pub content: String,
    pub created_by: Option<u64>,
    pub created_at: u64,
    pub updated_at: Option<u64>,
    pub is_active: bool,
    pub meta: Option<String>,
}

/// The mathematical value of a template record.
pub ghost struct TemplateView {
    pub id: u64,
    pub template_code: Seq<char>,
    pub version: int,
    pub template_type: Seq<char>,
    pub language: Seq<char>,
    pub content: Seq<char>,
    pub created_by: Option<u64>,
    pub created_at: u64,
    pub updated_at: Option<u64>,
    pub is_active: bool,
    pub meta: Option<Seq<char>>,
}

impl View for Template {
    type V = TemplateView;

    open spec fn view(&self) -> TemplateView {
        TemplateView {
            id: self.id,
            template_code: self.template_code@,
            version: self.version as int,
            template_type: self.template_type@,
            language: self.language@,
            content: self.content@,
            created_by: self.created_by,
            created_at: self.created_at,
            updated_at: self.updated_at,
            is_active: self.is_active,
            meta: match self.meta {
                Some(ref m) => Some(m@),
                None => None,
            },
        }
    }
}

impl Template {
    /// A field-for-field copy whose equality the contracts can rely on.
    pub fn clone_record(&self) -> (t: Template)
        ensures
            t == *self,
    {
        Template {
            id: self.id,
            template_code: self.template_code.clone(),
            version: self.version,
            template_type: self.template_type.clone(),
            language: self.language.clone(),
            content: self.content.clone(),
            created_by: self.created_by,
            created_at: self.created_at,
            updated_at: self.updated_at,
            is_active: self.is_active,
            meta: match &self.meta {
                Some(m) => Some(m.clone()),
                None => None,
            },
        }
    }
}

/// What a create request carries.
#[derive(Debug, Clone, PartialEq, Eq)]
pub struct CreateTemplateRequest {
    pub template_code: String,
    pub template_type: String,
    pub language: String,
    pub content: String,
    pub meta: Option<String>,
}

/// The record as the surface returns it.
#[derive(Debug, Clone, PartialEq, Eq)]
pub struct TemplateResponse {
    pub id: u64,
    pub template_code: String,
    pub version: i32,
    pub template_type: String,
    pub language: String,
    pub content: String,
    pub created_by: Option<u64>,
    pub created_at: u64,
    pub updated_at: Option<u64>,
    pub is_active: bool,
    pub meta: Option<String>,
}

impl From<Template> for TemplateResponse {
    /// Repackages a record for the surface, field for field.
    fn from(t: Template) -> (r: TemplateResponse) {
        TemplateResponse {
            id: t.id,
            template_code: t.template_code,
            version: t.version,
            template_type: t.template_type,
            language: t.language,
            content: t.content,
            created_by: t.created_by,
            created_at: t.created_at,
            updated_at: t.updated_at,
            is_active: t.is_active,
            meta: t.meta,
        }
    }
}

impl vstd::std_specs::convert::FromSpecImpl<Template> for TemplateResponse {
    open spec fn obeys_from_spec() -> bool {
        true
    }

    open spec fn from_spec(t: Template) -> TemplateResponse {
        TemplateResponse {
            id: t.id,
            template_code: t.template_code,
            version: t.version,
            template_type: t.template_type,
            language: t.language,
            content: t.content,
            created_by: t.created_by,
            created_at: t.created_at,
            updated_at: t.updated_at,
            is_active: t.is_active,
            meta: t.meta,
        }
    }
}

} // verus!
