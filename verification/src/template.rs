//! The immutable parsed template.
//!
//! A template is an ordered sequence of input chunks, parsed once at
//! construction. The original source string is not retained; the
//! canonical source form is recovered by [`Template::to_source`].

use vstd::prelude::*;
use crate::error::TemplateParseError;
use crate::parse::{
    chunks_view, parse_chunks, parse_template_chars, ChunkModel, InputChunk,
};
use crate::source::{chunks_to_chars, serialize_chunks};
use crate::text::{chars_to_string, str_chars};

verus! {

/// A parsed template: raw text and keys. Two templates parsed from
/// the same source hold the same chunks.
#[derive(Debug, PartialEq, Eq)]
pub struct Template {
    chunks: Vec<InputChunk>,
}

impl View for Template {
    type V = Seq<ChunkModel>;

    closed spec fn view(&self) -> Seq<ChunkModel> {
        chunks_view(self.chunks@)
    }
}

impl Clone for Template {
    fn clone(&self) -> (r: Self)
        ensures
            r@ == self@,
    {
        let mut chunks: Vec<InputChunk> = Vec::new();
        let mut i: usize = 0;
        while i < self.chunks.len()
            invariant
                0 <= i <= self.chunks@.len(),
                chunks@.len() == i,
                forall|j: int| 0 <= j < i ==> chunks@[j]@ == self.chunks@[j]@,
            decreases self.chunks@.len() - i,
        {
            chunks.push(self.chunks[i].clone());
            i += 1;
        }
        proof {
            assert(chunks_view(chunks@) =~= chunks_view(self.chunks@));
        }
        Template { chunks }
    }
}

impl Default for Template {
    /// The empty template.
    fn default() -> (r: Self)
        ensures
            r@ == Seq::<ChunkModel>::empty(),
    {
        proof {
            assert(chunks_view(Seq::<InputChunk>::empty()) =~= Seq::<ChunkModel>::empty());
        }
        Template { chunks: Vec::new() }
    }
}

impl Template {
    /// Parse a source string. Success and the resulting chunks are
    /// exactly those of the grammar's parse function.
    pub fn parse(source: &str) -> (r: Result<Template, TemplateParseError>)
        ensures
            r is Ok <==> parse_chunks(source@) is Some,
            r is Ok ==> Option::Some(r->Ok_0@) == parse_chunks(source@),
    {
        let chars = str_chars(source);
        match parse_template_chars(&chars) {
            Result::Ok(chunks) => Result::Ok(Template { chunks }),
            Result::Err(report) => Result::Err(TemplateParseError::new(report)),
        }
    }

    /// Treat a whole string as one raw chunk, without parsing. Used
    /// when ingesting strings that are not templates of this grammar.
    pub fn raw(template: String) -> (r: Template)
        ensures
            template@.len() == 0 ==> r@ == Seq::<ChunkModel>::empty(),
            template@.len() > 0 ==> r@ == seq![ChunkModel::RawText(template@)],
    {
        if template.as_str().is_empty() {
            proof {
                assert(chunks_view(Seq::<InputChunk>::empty()) =~= Seq::<ChunkModel>::empty());
            }
            Template { chunks: Vec::new() }
        } else {
            let mut chunks: Vec<InputChunk> = Vec::new();
            chunks.push(InputChunk::Raw(template));
            proof {
                assert(chunks_view(chunks@) =~= seq![chunks@[0]@]);
            }
            Template { chunks }
        }
    }

    /// The canonical source form: chunk by chunk, with `{{` escaped
    /// in raw text so the result parses back to the same chunks.
    pub fn to_source(&self) -> (r: String)
        ensures
            r@ == serialize_chunks(self@),
    {
        let chars = chunks_to_chars(&self.chunks);
        chars_to_string(&chars)
    }

    /// The template's chunks.
    pub fn chunks(&self) -> (r: &Vec<InputChunk>)
        ensures
            chunks_view(r@) == self@,
    {
        &self.chunks
    }

    /// Build a template directly from chunks.
    pub fn from_chunks(chunks: Vec<InputChunk>) -> (r: Template)
        ensures
            r@ == chunks_view(chunks@),
    {
        Template { chunks }
    }
}

} // verus!
