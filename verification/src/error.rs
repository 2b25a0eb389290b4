//! The error taxonomy of template rendering.
//!
//! Errors are fully owned so they can outlive the context that
//! produced them and be shown later, chunk by chunk. Wrappers add
//! context naming the field, chain or command argument that failed;
//! the cause chain is preserved intact. Each error renders to text
//! with its causes joined by `: `.

use vstd::prelude::*;
use crate::ident::Identifier;
use crate::text::{chars_to_string, u64_to_chars};

verus! {

/// An error while parsing a template, with a positional report.
#[derive(Debug, PartialEq, Eq)]
pub struct TemplateParseError {
    report: String,
}

impl View for TemplateParseError {
    type V = Seq<char>;

    closed spec fn view(&self) -> Seq<char> {
        self.report@
    }
}

impl TemplateParseError {
    /// Wrap a position report.
    pub fn new(report: String) -> (r: TemplateParseError)
        ensures
            r@ == report@,
    {
        TemplateParseError { report }
    }

    /// The report text.
    pub fn message(&self) -> (r: String)
        ensures
            r@ == self@,
    {
        self.report.clone()
    }
}

/// Why a triggered sub-request could not be carried out.
#[derive(Debug, PartialEq, Eq)]
pub enum TriggeredRequestError {
    /// This render was invoked in a way that does not allow automatic
    /// request execution.
    NotAllowed,
    /// The triggered request could not be built.
    Build(String),
    /// The triggered request was sent and failed.
    Send(String),
}

/// Exactly one query result was required.
#[derive(Debug, PartialEq, Eq)]
pub enum QueryError {
    /// The selector matched nothing.
    NoResults,
    /// The selector matched more than one value.
    TooManyResults,
}

/// An error while resolving a chained value. Each is paired with the
/// chain's ID by [`TemplateError::Chain`].
#[derive(Debug, PartialEq, Eq)]
pub enum ChainError {
    /// Reference to a chain that is not in the collection.
    ChainUnknown(Identifier),
    /// Reference to a recipe that is not in the collection.
    RecipeUnknown(Identifier),
    /// The persistence store failed.
    Database(String),
    /// The chain produced bytes that are not UTF-8 where text was
    /// required.
    InvalidUtf8 { detail: String },
    /// The recipe has no stored response.
    NoResponse,
    /// A selector needs a content type, and none was given or found.
    UnknownContentType,
    /// Something went wrong while triggering an upstream recipe.
    Trigger { recipe_id: Identifier, error: TriggeredRequestError },
    /// The response body could not be parsed for the selector.
    ParseResponse { detail: String },
    /// The selector returned zero or several results.
    Query(QueryError),
    /// The command list was empty.
    CommandMissing,
    /// Spawning or driving the external command failed.
    Command { command: Vec<String>, detail: String },
    /// Opening or reading the file failed.
    File { path: String, detail: String },
    /// The prompt channel closed without an answer.
    PromptNoResponse,
    /// A nested template inside the chain's own arguments failed.
    Nested { field: String, error: Box<TemplateError> },
    /// The named header is not in the response.
    MissingHeader { header: String },
}

/// Any error that can occur while rendering a template. Structured so
/// the UI can show just one chunk in red while the rest renders.
#[derive(Debug, PartialEq, Eq)]
pub enum TemplateError {
    /// A nested template string could not be parsed.
    Parse(TemplateParseError),
    /// Profile data was needed and no profile is selected.
    NoProfileSelected,
    /// The selected profile is not in the collection.
    ProfileUnknown { profile_id: Identifier },
    /// A field key matched neither an override nor the profile.
    FieldUnknown { field: String },
    /// Rendering the nested template of a profile field or override
    /// failed.
    FieldNested { field: String, error: Box<TemplateError> },
    /// The render tree expanded more keys than the recursion limit
    /// allows.
    RecursionLimit,
    /// Resolving a chain failed.
    Chain { chain_id: Identifier, error: ChainError },
    /// The environment variable was unreadable.
    EnvironmentVariable { variable: String, detail: String },
    /// The flattened output was not valid UTF-8.
    InvalidUtf8 { detail: String },
}

/// Append `: ` to `s`.
fn push_sep(s: String) -> (r: String) {
    s.concat(": ")
}

impl TriggeredRequestError {
    /// The error text, causes joined by `: `.
    pub fn message(&self) -> String {
        match self {
            TriggeredRequestError::NotAllowed => String::from_str(
                "Triggered request execution not allowed in this context",
            ),
            TriggeredRequestError::Build(detail) => String::from_str(
                "Building request: ",
            ).concat(detail.as_str()),
            TriggeredRequestError::Send(detail) => String::from_str("Sending request: ").concat(
                detail.as_str(),
            ),
        }
    }
}

impl QueryError {
    /// The error text.
    pub fn message(&self) -> String {
        match self {
            QueryError::NoResults => String::from_str(
                "Expected exactly one result from query, got none",
            ),
            QueryError::TooManyResults => String::from_str(
                "Expected exactly one result from query, got more",
            ),
        }
    }
}

impl ChainError {
    /// The error text, causes joined by `: `.
    pub fn message(&self) -> String
        decreases self,
    {
        match self {
            ChainError::ChainUnknown(id) => String::from_str("Unknown chain: ").concat(
                chars_to_string(id.chars()).as_str(),
            ),
            ChainError::RecipeUnknown(id) => String::from_str("Unknown request recipe: ").concat(
                chars_to_string(id.chars()).as_str(),
            ),
            ChainError::Database(detail) => String::from_str("Database error: ").concat(
                detail.as_str(),
            ),
            ChainError::InvalidUtf8 { detail } => push_sep(
                String::from_str("Error decoding content as UTF-8"),
            ).concat(detail.as_str()),
            ChainError::NoResponse => String::from_str("No response available"),
            ChainError::UnknownContentType => String::from_str(
                "Selector cannot be applied; content type not provided and could not be determined from metadata. See docs for supported content types: ",
            ).concat(crate::util::doc_link("api/request_collection/content_type").as_str()),
            ChainError::Trigger { recipe_id, error } => push_sep(
                String::from_str("Triggering upstream recipe `").concat(
                    chars_to_string(recipe_id.chars()).as_str(),
                ).concat("`"),
            ).concat(error.message().as_str()),
            ChainError::ParseResponse { detail } => push_sep(
                String::from_str("Parsing response"),
            ).concat(detail.as_str()),
            ChainError::Query(q) => q.message(),
            ChainError::CommandMissing => String::from_str("No command given"),
            ChainError::Command { command, detail } => push_sep(
                String::from_str("Executing command ").concat(
                    join_quoted(command).as_str(),
                ),
            ).concat(detail.as_str()),
            ChainError::File { path, detail } => push_sep(
                String::from_str("Reading file `").concat(path.as_str()).concat("`"),
            ).concat(detail.as_str()),
            ChainError::PromptNoResponse => String::from_str("No response from prompt"),
            ChainError::Nested { field, error } => push_sep(
                String::from_str("Rendering nested template for field `").concat(
                    field.as_str(),
                ).concat("`"),
            ).concat(error.message().as_str()),
            ChainError::MissingHeader { header } => String::from_str("Header `").concat(
                header.as_str(),
            ).concat("` not in response"),
        }
    }
}

/// Quote each word and join with spaces, like a command line.
fn join_quoted(words: &Vec<String>) -> String {
    let mut out = String::from_str("[");
    let mut i: usize = 0;
    while i < words.len()
        decreases words.len() - i,
    {
        if i > 0 {
            out = out.concat(", ");
        }
        out = out.concat("\"").concat(words[i].as_str()).concat("\"");
        i += 1;
    }
    out.concat("]")
}

impl TemplateError {
    /// The error text, causes joined by `: `.
    pub fn message(&self) -> String
        decreases self,
    {
        match self {
            TemplateError::Parse(p) => p.message(),
            TemplateError::NoProfileSelected => String::from_str("No profile selected"),
            TemplateError::ProfileUnknown { profile_id } => String::from_str(
                "Unknown profile `",
            ).concat(chars_to_string(profile_id.chars()).as_str()).concat("`"),
            TemplateError::FieldUnknown { field } => String::from_str("Unknown field `").concat(
                field.as_str(),
            ).concat("`"),
            TemplateError::FieldNested { field, error } => push_sep(
                String::from_str("Rendering nested template for field `").concat(
                    field.as_str(),
                ).concat("`"),
            ).concat(error.message().as_str()),
            TemplateError::RecursionLimit => String::from_str(
                "Template recursion limit reached; cannot render more than ",
            ).concat(
                chars_to_string(&u64_to_chars(crate::render::RECURSION_LIMIT as u64)).as_str(),
            ).concat(" nested templates"),
            TemplateError::Chain { chain_id, error } => push_sep(
                String::from_str("Resolving chain `").concat(
                    chars_to_string(chain_id.chars()).as_str(),
                ).concat("`"),
            ).concat(error.message().as_str()),
            TemplateError::EnvironmentVariable { variable, detail } => push_sep(
                String::from_str("Accessing environment variable `").concat(
                    variable.as_str(),
                ).concat("`"),
            ).concat(detail.as_str()),
            TemplateError::InvalidUtf8 { detail } => push_sep(
                String::from_str("Error decoding content as UTF-8"),
            ).concat(detail.as_str()),
        }
    }

    /// Does any error in this cause chain say that triggered request
    /// execution was not allowed?
    pub fn has_trigger_disabled_error(&self) -> (r: bool)
        ensures
            r == self.trigger_disabled_spec(),
        decreases self,
    {
        match self {
            TemplateError::Chain { chain_id: _, error } => match error {
                ChainError::Trigger { recipe_id: _, error: t } => match t {
                    TriggeredRequestError::NotAllowed => true,
                    _ => false,
                },
                ChainError::Nested { field: _, error: inner } => inner.has_trigger_disabled_error(),
                _ => false,
            },
            TemplateError::FieldNested { field: _, error } => error.has_trigger_disabled_error(),
            _ => false,
        }
    }

    /// Whether the cause chain contains a refused trigger.
    pub open spec fn trigger_disabled_spec(&self) -> bool
        decreases self,
    {
        match self {
            TemplateError::Chain { chain_id, error } => match error {
                ChainError::Trigger { recipe_id, error: t } => t is NotAllowed,
                ChainError::Nested { field, error: inner } => inner.trigger_disabled_spec(),
                _ => false,
            },
            TemplateError::FieldNested { field, error } => error.trigger_disabled_spec(),
            _ => false,
        }
    }
}

/// Whether the cause chain contains the recursion-limit error.
pub open spec fn contains_recursion_limit(e: TemplateError) -> bool
    decreases e, 1int,
{
    match e {
        TemplateError::RecursionLimit => true,
        TemplateError::FieldNested { field, error } => contains_recursion_limit(*error),
        TemplateError::Chain { chain_id, error } => chain_contains_recursion_limit(error),
        _ => false,
    }
}

/// Whether the chain error's cause chain contains the recursion-limit
/// error.
pub open spec fn chain_contains_recursion_limit(e: ChainError) -> bool
    decreases e, 0int,
{
    match e {
        ChainError::Nested { field, error } => contains_recursion_limit(*error),
        _ => false,
    }
}

} // verus!
