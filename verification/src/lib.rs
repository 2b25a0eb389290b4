//! Template engine for a declarative HTTP client.
//!
//! A collection describes profiles (key/value environments), recipes
//! (request templates) and chains (dynamic value sources). Request fields
//! are authored as templated strings; this crate parses those strings into
//! an immutable chunk sequence and renders them against a context that can
//! consult profile data, run chains (sub-requests, commands, files,
//! environment variables, prompts), track sensitive data, and report
//! errors chunk by chunk.

pub mod collection;
pub mod error;
pub mod ident;
pub mod json;
pub mod parse;
pub mod render;
pub mod roundtrip;
pub mod select;
pub mod selector;
pub mod source;
pub mod store;
pub mod template;
pub mod text;
pub mod util;

pub use error::{ChainError, TemplateError, TemplateParseError, TriggeredRequestError};
pub use ident::Identifier;
pub use template::Template;
