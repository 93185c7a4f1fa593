//! Drafts, base URIs and the compilation context that carries them.
use vstd::prelude::*;
use crate::json::{member_of, str_eq, Json, JsonModel};

verus! {

/// The URI of a document that declares no identifier of its own.
pub const DEFAULT_ROOT_URL: &'static str = "json-schema:///";

/// What `url::Url::parse` makes of a string: its serialization, or `None` when it is no absolute URL.
pub uninterp spec fn url_parse(s: Seq<char>) -> Option<Seq<char>>;

/// What resolving `reference` against the absolute URL `base` gives: its serialization, or `None`.
pub uninterp spec fn url_join(base: Seq<char>, reference: Seq<char>) -> Option<Seq<char>>;

/// An absolute URL split into the URL without its fragment and the fragment (empty when absent).
pub uninterp spec fn url_split(s: Seq<char>) -> Option<(Seq<char>, Seq<char>)>;

/// Relies on `url::Url::parse` and `Url::as_str`: the serialization of an absolute URL.
#[verifier::external_body]
fn parse_url(s: &str) -> (r: Option<String>)
    ensures
        match r {
            Some(u) => url_parse(s@) == Some(u@),
            None => url_parse(s@) is None,
        },
{
    url::Url::parse(s).ok().map(|u| u.as_str().to_string())
}

/// Relies on `url::Url::parse` of `base` and `Url::join` of `reference` onto it.
#[verifier::external_body]
pub(crate) fn join_url(base: &str, reference: &str) -> (r: Option<String>)
    ensures
        match r {
            Some(u) => url_join(base@, reference@) == Some(u@),
            None => url_join(base@, reference@) is None,
        },
{
    let base = url::Url::parse(base).ok()?;
    base.join(reference).ok().map(|u| u.as_str().to_string())
}

/// Relies on `url::Url::parse`, `Url::fragment` and `Url::set_fragment(None)`.
#[verifier::external_body]
pub(crate) fn split_url(s: &str) -> (r: Option<(String, String)>)
    ensures
        match r {
            Some(p) => url_split(s@) == Some((p.0@, p.1@)),
            None => url_split(s@) is None,
        },
{
    let mut u = url::Url::parse(s).ok()?;
    let fragment = u.fragment().unwrap_or("").to_string();
    u.set_fragment(None);
    Some((u.as_str().to_string(), fragment))
}

/// The schema dialect in force.
#[derive(Clone, Copy, Debug, PartialEq, Eq)]
pub enum Draft {
    Draft4,
    Draft6,
    Draft7,
}

/// The keyword that declares a schema's identifier in `draft`.
pub open spec fn id_keyword(draft: Draft) -> Seq<char> {
    match draft {
        Draft::Draft4 => "id"@,
        _ => "$id"@,
    }
}

/// The identifier that `schema` declares under `draft`, if any.
pub open spec fn id_of_spec(draft: Draft, schema: JsonModel) -> Option<Seq<char>> {
    match member_of(schema, id_keyword(draft)) {
        Some(JsonModel::String(s)) => Some(s),
        _ => None,
    }
}

/// The identifier that `schema` declares under `draft`, if any.
pub fn id_of(draft: Draft, schema: &Json) -> (r: Option<&String>)
    ensures
        match r {
            Some(s) => id_of_spec(draft, schema@) == Some(s@),
            None => id_of_spec(draft, schema@) is None,
        },
{
    let found = match draft {
        Draft::Draft4 => schema.get("id"),
        _ => schema.get("$id"),
    };
    proof {
        reveal_strlit("id");
        reveal_strlit("$id");
    }
    match found {
        Some(Json::String(s)) => Some(s),
        _ => None,
    }
}

/// The draft named by a `$schema` URI.
pub open spec fn draft_from_url_spec(url: Seq<char>) -> Option<Draft> {
    if url == "http://json-schema.org/draft-07/schema#"@ {
        Some(Draft::Draft7)
    } else if url == "http://json-schema.org/draft-06/schema#"@ {
        Some(Draft::Draft6)
    } else if url == "http://json-schema.org/draft-04/schema#"@ {
        Some(Draft::Draft4)
    } else {
        None
    }
}

/// The draft that a document's `$schema` member names, if any.
pub open spec fn draft_from_schema_spec(schema: JsonModel) -> Option<Draft> {
    match member_of(schema, "$schema"@) {
        Some(JsonModel::String(s)) => draft_from_url_spec(s),
        _ => None,
    }
}

/// The draft named by a `$schema` URI.
pub fn draft_from_url(url: &str) -> (r: Option<Draft>)
    ensures
        r == draft_from_url_spec(url@),
{
    if str_eq(url, "http://json-schema.org/draft-07/schema#") {
        Some(Draft::Draft7)
    } else if str_eq(url, "http://json-schema.org/draft-06/schema#") {
        Some(Draft::Draft6)
    } else if str_eq(url, "http://json-schema.org/draft-04/schema#") {
        Some(Draft::Draft4)
    } else {
        None
    }
}

/// The draft that a document's `$schema` member names, if any.
pub fn draft_from_schema(schema: &Json) -> (r: Option<Draft>)
    ensures
        r == draft_from_schema_spec(schema@),
{
    proof {
        reveal_strlit("$schema");
    }
    match schema.get("$schema") {
        Some(Json::String(s)) => draft_from_url(s.as_str()),
        _ => None,
    }
}

/// Why a schema could not be compiled.
#[derive(Clone, Copy, Debug, PartialEq, Eq)]
pub enum CompilationError {
    /// A keyword's value, or a schema itself, has the wrong shape.
    SchemaError,
    /// An identifier or a reference is no valid URI or URI-reference.
    ScopeError,
}

/// Information about the draft in use and the current base URI.
#[derive(Clone, Debug)]
pub struct CompilationContext {
    pub scope: String,
    pub draft: Draft,
}

/// The base URI in force inside `schema` when `scope` is in force around it.
pub open spec fn pushed_scope(scope: Seq<char>, draft: Draft, schema: JsonModel) -> Result<Seq<char>, CompilationError> {
    match id_of_spec(draft, schema) {
        Some(id) => match url_join(scope, id) {
            Some(u) => Ok(u),
            None => Err(CompilationError::ScopeError),
        },
        None => Ok(scope),
    }
}

impl CompilationContext {
    pub fn new(scope: String, draft: Draft) -> (r: CompilationContext)
        ensures
            r.scope@ == scope@,
            r.draft == draft,
    {
        CompilationContext { scope, draft }
    }

    /// The context inside `schema`: its identifier, if it declares one, resolved against this scope.
    pub fn push(&self, schema: &Json) -> (r: Result<CompilationContext, CompilationError>)
        ensures
            match pushed_scope(self.scope@, self.draft, schema@) {
                Ok(u) => r matches Ok(c) && c.scope@ == u && c.draft == self.draft,
                Err(e) => r == Err::<CompilationContext, CompilationError>(e),
            },
    {
        match id_of(self.draft, schema) {
            Some(id) => match join_url(self.scope.as_str(), id.as_str()) {
                Some(u) => Ok(CompilationContext { scope: u, draft: self.draft }),
                None => Err(CompilationError::ScopeError),
            },
            None => Ok(CompilationContext { scope: self.scope.clone(), draft: self.draft }),
        }
    }

    /// The absolute URL of `reference` in this scope.
    pub fn build_url(&self, reference: &str) -> (r: Result<String, CompilationError>)
        ensures
            match url_join(self.scope@, reference@) {
                Some(u) => r matches Ok(s) && s@ == u,
                None => r == Err::<String, CompilationError>(CompilationError::ScopeError),
            },
    {
        match join_url(self.scope.as_str(), reference) {
            Some(u) => Ok(u),
            None => Err(CompilationError::ScopeError),
        }
    }
}

/// The base URI of a whole document: its identifier when it declares one, else the default root.
pub open spec fn root_scope(draft: Draft, schema: JsonModel) -> Result<Seq<char>, CompilationError> {
    match id_of_spec(draft, schema) {
        Some(id) => match url_parse(id) {
            Some(u) => Ok(u),
            None => Err(CompilationError::ScopeError),
        },
        None => Ok(DEFAULT_ROOT_URL@),
    }
}

/// The base URI of a whole document: its identifier when it declares one, else the default root.
pub fn root_scope_of(draft: Draft, schema: &Json) -> (r: Result<String, CompilationError>)
    ensures
        match root_scope(draft, schema@) {
            Ok(u) => r matches Ok(s) && s@ == u,
            Err(e) => r == Err::<String, CompilationError>(e),
        },
{
    match id_of(draft, schema) {
        Some(id) => match parse_url(id.as_str()) {
            Some(u) => Ok(u),
            None => Err(CompilationError::ScopeError),
        },
        None => Ok(DEFAULT_ROOT_URL.to_string()),
    }
}

} // verus!
