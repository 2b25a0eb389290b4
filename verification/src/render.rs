//! The render driver, key resolver and chain engine.
//!
//! A template expands chunk by chunk against a context: raw chunks
//! pass through, keys are resolved to values. Field keys consult
//! overrides and the selected profile; chain keys run the chain
//! engine, which may re-enter the driver for its own templated
//! arguments; environment keys read the process environment. A
//! shared counter caps the total number of key expansions in one
//! render tree.
//!
//! Side effects reach the outside world only through the capability
//! traits [`Effects`], [`Prompter`] and [`HttpSender`]: the caller
//! supplies the implementations, and every contract here holds for
//! whatever they return.
//!
//! The render contracts are stated over a ghost witness of the
//! render tree: [`chunks_resolved_from`] threads the counter
//! snapshot across the chunks of one template, and
//! [`chunk_resolved_tr`] ties each key's output to the data that
//! produced it — a field key to the flattened rendering of its
//! override or profile template, a chain key to its source bytes
//! run through the chain's own pipeline, with the recursion-limit
//! error possible only where the counter really stands at the
//! limit. What the capabilities return is existentially quantified;
//! everything downstream of their answers is pinned.

use vstd::prelude::*;
use crate::collection::{
    chain_index, override_lookup, overrides_get, Chain, ChainOutputTrim, ChainRequestSection,
    ChainRequestTrigger, ChainSource, Collection,
};
use crate::error::{
    chain_contains_recursion_limit, contains_recursion_limit, ChainError, QueryError,
    TemplateError, TriggeredRequestError,
};
use crate::ident::Identifier;
use crate::json::{
    canonical_text, content_type_of, decode_json, json_canonical_text, json_decoded, ContentType,
    JsonValue,
};
use crate::parse::{ChunkModel, InputChunk, TemplateKey};
use crate::selector::{selector_apply_model, Selector};
use crate::store::{header_lookup, Exchange, Store};
use crate::template::Template;
use crate::text::{
    bytes_to_string, chars_to_string, is_ascii_ws, str_bytes, str_chars, u64_to_chars,
};
use vstd::utf8::{decode_utf8, encode_utf8, valid_utf8};

verus! {

/// The cap on total key expansions inside one render tree. The
/// counter is shared by the whole tree, so one template rendering
/// five children counts the same as a chain of five nestings.
pub const RECURSION_LIMIT: u8 = 10;

/// A question for the user.
#[derive(Debug, PartialEq, Eq)]
pub struct Prompt {
    /// What to ask.
    pub message: String,
    /// The value to pre-fill or fall back to.
    pub default: Option<String>,
    /// Whether the answer must not be echoed in cleartext.
    pub sensitive: bool,
}

/// A capability to ask the user one question. The answer is `None`
/// when the channel closed without a reply.
pub trait Prompter {
    /// Ask, and wait for at most one answer.
    fn prompt(&mut self, prompt: Prompt) -> Option<String>;
}

/// The side effects a chain can perform, supplied by the caller.
pub trait Effects {
    /// Spawn `command[0]` with the remaining words as arguments,
    /// write `stdin` to the child if given, and capture stdout. A
    /// non-zero exit is not an error; the bytes produced are
    /// returned as they are.
    fn run_command(&mut self, command: &Vec<String>, stdin: &Option<Vec<u8>>) -> Result<
        Vec<u8>,
        String,
    >;

    /// Read a file's bytes.
    fn read_file(&mut self, path: &String) -> Result<Vec<u8>, String>;

    /// Read a process environment variable: `Ok(None)` when unset,
    /// `Err` when unreadable.
    fn env_var(&mut self, name: &String) -> Result<Option<String>, String>;

    /// The current time in seconds, for the Expire trigger.
    fn now(&mut self) -> u64;
}

/// A capability to send one recipe's request and return the full
/// exchange.
pub trait HttpSender {
    /// Build and send the recipe's request against the rendered URL.
    fn send(&mut self, recipe_id: &Identifier, url: &String) -> Result<
        Exchange,
        TriggeredRequestError,
    >;
}

/// Everything a render reads or drives: the collection, the selected
/// profile, user overrides, the exchange store, the capability
/// objects, and the shared expansion counter (start it at 0).
pub struct TemplateContext<E, P, H> {
    /// The request collection.
    pub collection: Collection,
    /// The profile whose data field keys read.
    pub selected_profile: Option<Identifier>,
    /// key=value overrides; a key wins over every other source.
    pub overrides: Vec<(String, String)>,
    /// Stored exchanges; sub-requests commit here.
    pub store: Store,
    /// Command, file, environment and clock effects.
    pub effects: E,
    /// The prompt channel.
    pub prompter: P,
    /// The engine for triggered sub-requests, if triggering is
    /// allowed in this render.
    pub http: Option<H>,
    /// Total key expansions so far in this render tree.
    pub recursion_count: u8,
}

/// A piece of a rendered template. A chunk list collectively
/// constitutes the rendered output, in source order.
#[derive(Debug, PartialEq, Eq)]
pub enum TemplateChunk {
    /// Raw text outside any key, passed through untouched.
    Raw(String),
    /// The outcome of rendering one key.
    Rendered { value: Vec<u8>, sensitive: bool },
    /// The error that one key's rendering produced.
    Error(TemplateError),
}

/// The parts of the context a render never changes, and the bounds
/// the expansion counter obeys.
pub open spec fn ctx_frame<E, P, H>(
    a: TemplateContext<E, P, H>,
    b: TemplateContext<E, P, H>,
) -> bool {
    &&& b.collection == a.collection
    &&& b.selected_profile == a.selected_profile
    &&& b.overrides == a.overrides
    &&& a.recursion_count <= b.recursion_count <= RECURSION_LIMIT
}

/// The characters `chains.` followed by the chain's ID: the override
/// key that short-circuits that chain.
pub open spec fn chain_override_key(id: Seq<char>) -> Seq<char> {
    crate::parse::chain_prefix() + id
}

/// The characters `env.` followed by the variable: the override key
/// that short-circuits that environment read.
pub open spec fn env_override_key(id: Seq<char>) -> Seq<char> {
    crate::parse::env_prefix() + id
}

/// How one output chunk may relate to its input chunk: raw text
/// passes through; a key yields a value or an error; only a chain
/// whose definition is sensitive may yield a sensitive value, and an
/// overridden key yields the override's text verbatim.
pub open spec fn chunk_shape(
    cin: ChunkModel,
    cout: TemplateChunk,
    chains: Seq<Chain>,
    ov: Seq<(String, String)>,
) -> bool {
    match cin {
        ChunkModel::RawText(t) => cout matches TemplateChunk::Raw(s) && s@ == t,
        ChunkModel::FieldKey(name) => {
            &&& (cout is Rendered || cout is Error)
            &&& (cout matches TemplateChunk::Rendered { value, sensitive } ==> !sensitive)
        },
        ChunkModel::EnvKey(name) => {
            &&& (cout is Rendered || cout is Error)
            &&& (cout matches TemplateChunk::Rendered { value, sensitive } ==> !sensitive)
            &&& (override_lookup(ov, env_override_key(name), 0) matches Option::Some(v)
                ==> ((cout matches TemplateChunk::Rendered { value, sensitive } && value@
                == encode_utf8(v) && !sensitive) || cout == TemplateChunk::Error(
                TemplateError::RecursionLimit,
            )))
        },
        ChunkModel::ChainKey(id) => {
            &&& (cout is Rendered || cout is Error)
            &&& (cout matches TemplateChunk::Rendered { value, sensitive } && sensitive ==> {
                &&& override_lookup(ov, chain_override_key(id), 0) is None
                &&& chain_index(chains, id, 0) matches Option::Some(ci)
                &&& chains[ci].sensitive
            })
            &&& (override_lookup(ov, chain_override_key(id), 0) matches Option::Some(v)
                ==> ((cout matches TemplateChunk::Rendered { value, sensitive } && value@
                == encode_utf8(v) && !sensitive) || cout == TemplateChunk::Error(
                TemplateError::RecursionLimit,
            )))
            &&& ((override_lookup(ov, chain_override_key(id), 0) is None && chain_index(
                chains,
                id,
                0,
            ) is None) ==> ((cout matches TemplateChunk::Error(TemplateError::Chain {
                chain_id,
                error: ChainError::ChainUnknown(unknown_id),
            }) && chain_id@ == id && unknown_id@ == id) || cout == TemplateChunk::Error(
                TemplateError::RecursionLimit,
            )))
        },
    }
}


/// The ghost witness of one key's resolution: field keys that found
/// a template carry the nested render's chunk list, counter
/// snapshots and the traces of its own keys; every other key is
/// flat. The trace exists only in proofs; contracts quantify over it.
pub enum KeyTrace {
    /// A key that performed no nested render.
    Flat,
    /// A field key's nested render.
    Nested { outs: Seq<TemplateChunk>, counts: Seq<int>, subs: Seq<KeyTrace> },
}

/// Counter snapshots that only grow and stay within the limit.
pub open spec fn counts_wf(counts: Seq<int>) -> bool {
    &&& counts.len() >= 1
    &&& (forall|i: int| 0 <= i < counts.len() ==> 0 <= #[trigger] counts[i] <= RECURSION_LIMIT)
    &&& (forall|i: int| 0 <= i < counts.len() - 1 ==> #[trigger] counts[i] <= counts[i + 1])
}

/// How a field key's chunk relates to the flattening of its nested
/// render: the flattened bytes as a non-sensitive value, or the
/// first error wrapped with the field's name.
pub open spec fn flattened_field_chunk(
    outs: Seq<TemplateChunk>,
    name: Seq<char>,
    cout: TemplateChunk,
) -> bool {
    match flatten_chunks(outs) {
        Result::Ok(b) => cout matches TemplateChunk::Rendered { value, sensitive } && value@ == b
            && !sensitive,
        Result::Err(e) => cout matches TemplateChunk::Error(
            TemplateError::FieldNested { field, error },
        ) && field@ == name && *error == e,
    }
}

/// What a chain that exists in the collection may emit: a value that
/// is some source bytes run through the chain's own pipeline, marked
/// sensitive exactly when the chain is, or an error wrapped with the
/// chain's ID. The bytes and the inferred content type are the
/// capabilities' to choose; the content type is the chain's own
/// whenever it names one, and always for non-request sources.
pub open spec fn chain_run_outcome(chain: Chain, id: Seq<char>, cout: TemplateChunk) -> bool {
    ||| (exists|bytes: Seq<u8>, ct: Option<ContentType>|
        {
            &&& (chain.content_type is Some ==> ct == chain.content_type)
            &&& (!(chain.source is Request) ==> ct == chain.content_type)
            &&& #[trigger] pipeline_ok(bytes, opt_sel_view(chain.selector), ct, chain.trim)
            &&& (cout matches TemplateChunk::Rendered { value, sensitive } && value@
                == pipeline_value(bytes, opt_sel_view(chain.selector), ct, chain.trim)
                && sensitive == chain.sensitive)
        })
    ||| (cout matches TemplateChunk::Error(TemplateError::Chain { chain_id, error })
        && chain_id@ == id)
}

/// The bytes a section selects, as a function of the stored
/// response: the body, or the named header's value if present.
pub open spec fn section_bytes(
    resp: crate::store::Response,
    section: ChainRequestSection,
) -> Option<Seq<u8>> {
    match section {
        ChainRequestSection::Body => Option::Some(resp.body@),
        ChainRequestSection::Header(h) => header_lookup(resp.headers@, h@, 0),
    }
}

/// What a request chain that reuses this stored response emits: the
/// section's bytes through the chain's own pipeline with the
/// inferred content type, the missing-header error when the section
/// names a header the response lacks, or a chain-wrapped pipeline
/// error.
pub open spec fn reused_request_outcome(
    chain: Chain,
    id: Seq<char>,
    resp: crate::store::Response,
    cout: TemplateChunk,
) -> bool {
    match chain.source {
        ChainSource::Request { recipe, trigger, section } => match section_bytes(resp, section) {
            Option::None => cout matches TemplateChunk::Error(TemplateError::Chain {
                chain_id,
                error: ChainError::MissingHeader { header },
            }) && chain_id@ == id && (section matches ChainRequestSection::Header(h) && header@
                == h@),
            Option::Some(bytes) => {
                let ct = inferred_content_type(resp.headers@, chain.content_type);
                if pipeline_ok(bytes, opt_sel_view(chain.selector), ct, chain.trim) {
                    cout matches TemplateChunk::Rendered { value, sensitive } && value@
                        == pipeline_value(bytes, opt_sel_view(chain.selector), ct, chain.trim)
                        && sensitive == chain.sensitive
                } else {
                    cout matches TemplateChunk::Error(TemplateError::Chain { chain_id, error })
                        && chain_id@ == id
                }
            },
        },
        _ => true,
    }
}

/// One rendered key, witnessed by its trace, with the expansion
/// counter before (`c_in`, already counting this key's own
/// expansion) and after (`c_out`) its resolution: field keys recurse
/// into the rendering of their override or profile template; chain
/// keys run the chain and post-process through the pipeline;
/// environment keys cost nothing beyond their own expansion.
pub open spec fn chunk_resolved_tr(
    cin: ChunkModel,
    cout: TemplateChunk,
    tr: KeyTrace,
    col: Collection,
    sp: Option<Identifier>,
    ov: Seq<(String, String)>,
    c_in: int,
    c_out: int,
) -> bool
    decreases tr, 2int, 0int,
{
    if !(1 <= c_in <= RECURSION_LIMIT) {
        false
    } else {
        match cin {
            ChunkModel::RawText(t) => false,
            ChunkModel::FieldKey(name) => field_key_resolved_tr(
                name,
                cout,
                tr,
                col,
                sp,
                ov,
                c_in,
                c_out,
            ),
            ChunkModel::EnvKey(name) => {
                &&& c_out == c_in
                &&& match override_lookup(ov, env_override_key(name), 0) {
                    Option::Some(v) => cout matches TemplateChunk::Rendered { value, sensitive }
                        && value@ == encode_utf8(v) && !sensitive,
                    Option::None => {
                        ||| (cout matches TemplateChunk::Rendered { value, sensitive }
                            && !sensitive)
                        ||| (cout matches TemplateChunk::Error(
                            TemplateError::EnvironmentVariable { variable, detail },
                        ) && variable@ == name)
                    },
                }
            },
            ChunkModel::ChainKey(id) => {
                match override_lookup(ov, chain_override_key(id), 0) {
                    Option::Some(v) => c_out == c_in && (cout matches TemplateChunk::Rendered {
                        value,
                        sensitive,
                    } && value@ == encode_utf8(v) && !sensitive),
                    Option::None => match chain_index(col.chains@, id, 0) {
                        Option::None => c_out == c_in && (cout matches TemplateChunk::Error(
                            TemplateError::Chain {
                                chain_id,
                                error: ChainError::ChainUnknown(unknown_id),
                            },
                        ) && chain_id@ == id && unknown_id@ == id),
                        Option::Some(ci) => c_in <= c_out <= RECURSION_LIMIT
                            && chain_run_outcome(col.chains@[ci], id, cout),
                    },
                }
            },
        }
    }
}

/// A field key resolved against overrides first, then the selected
/// profile, each error on exactly the input that earns it; a found
/// template is itself rendered in the same context, witnessed by the
/// trace.
pub open spec fn field_key_resolved_tr(
    name: Seq<char>,
    cout: TemplateChunk,
    tr: KeyTrace,
    col: Collection,
    sp: Option<Identifier>,
    ov: Seq<(String, String)>,
    c_in: int,
    c_out: int,
) -> bool
    decreases tr, 1int, 0int,
{
    if !(1 <= c_in <= RECURSION_LIMIT) {
        false
    } else {
        match override_lookup(ov, name, 0) {
            Option::Some(v) => match crate::parse::parse_chunks(v) {
                Option::None => c_out == c_in && (cout matches TemplateChunk::Error(
                    TemplateError::FieldNested { field, error },
                ) && field@ == name && (*error) matches TemplateError::Parse(report)),
                Option::Some(cs) => nested_resolved_tr(cs, name, cout, tr, col, sp, ov, c_in, c_out),
            },
            Option::None => match sp {
                Option::None => c_out == c_in && cout == TemplateChunk::Error(
                    TemplateError::NoProfileSelected,
                ),
                Option::Some(pid) => match crate::collection::profile_index(
                    col.profiles@,
                    pid@,
                    0,
                ) {
                    Option::None => c_out == c_in && (cout matches TemplateChunk::Error(
                        TemplateError::ProfileUnknown { profile_id },
                    ) && profile_id@ == pid@),
                    Option::Some(pi) => match crate::collection::field_lookup(
                        col.profiles@[pi].data@,
                        name,
                        0,
                    ) {
                        Option::None => c_out == c_in && (cout matches TemplateChunk::Error(
                            TemplateError::FieldUnknown { field },
                        ) && field@ == name),
                        Option::Some(fi) => nested_resolved_tr(
                            col.profiles@[pi].data@[fi].1@,
                            name,
                            cout,
                            tr,
                            col,
                            sp,
                            ov,
                            c_in,
                            c_out,
                        ),
                    },
                },
            },
        }
    }
}

/// A nested template rendered and flattened on a field key's behalf,
/// the render witnessed by the trace's own chunk list and snapshots.
pub open spec fn nested_resolved_tr(
    cs: Seq<ChunkModel>,
    name: Seq<char>,
    cout: TemplateChunk,
    tr: KeyTrace,
    col: Collection,
    sp: Option<Identifier>,
    ov: Seq<(String, String)>,
    c_in: int,
    c_out: int,
) -> bool
    decreases tr, 0int, 0int,
{
    tr matches KeyTrace::Nested { outs, counts, subs } && {
        &&& counts.len() == cs.len() + 1
        &&& counts[0] == c_in
        &&& counts.last() == c_out
        &&& chunks_resolved_from(cs, outs, counts, subs, 0, col, sp, ov)
        &&& flattened_field_chunk(outs, name, cout)
    }
}

/// A whole chunk list rendered in order from position `i` on, with
/// the counter snapshot before each chunk and after the last
/// (`counts[i]` is the counter before chunk `i`), each key witnessed
/// by its trace: raw chunks cost nothing; a key at the limit yields
/// exactly the recursion-limit error and costs nothing; a key below
/// the limit costs at least its own expansion and resolves per
/// [`chunk_resolved_tr`]. In particular no key below the limit may
/// yield the bare recursion-limit error.
pub open spec fn chunks_resolved_from(
    cs: Seq<ChunkModel>,
    outs: Seq<TemplateChunk>,
    counts: Seq<int>,
    subs: Seq<KeyTrace>,
    i: int,
    col: Collection,
    sp: Option<Identifier>,
    ov: Seq<(String, String)>,
) -> bool
    decreases subs, 3int, cs.len() - i,
{
    if !(counts.len() == cs.len() + 1 && outs.len() == cs.len() && subs.len() == cs.len()
        && counts_wf(counts) && 0 <= i <= cs.len()) {
        false
    } else if i == cs.len() {
        true
    } else {
        match cs[i] {
            ChunkModel::RawText(t) => {
                &&& (outs[i] matches TemplateChunk::Raw(s) && s@ == t)
                &&& counts[i + 1] == counts[i]
                &&& chunks_resolved_from(cs, outs, counts, subs, i + 1, col, sp, ov)
            },
            _ => {
                if counts[i] == RECURSION_LIMIT {
                    &&& outs[i] == TemplateChunk::Error(TemplateError::RecursionLimit)
                    &&& counts[i + 1] == counts[i]
                    &&& chunks_resolved_from(cs, outs, counts, subs, i + 1, col, sp, ov)
                } else {
                    &&& counts[i] + 1 <= counts[i + 1]
                    &&& chunk_resolved_tr(
                        cs[i],
                        outs[i],
                        subs[i],
                        col,
                        sp,
                        ov,
                        counts[i] + 1,
                        counts[i + 1],
                    )
                    &&& chunks_resolved_from(cs, outs, counts, subs, i + 1, col, sp, ov)
                }
            },
        }
    }
}

/// One rendered key, for some trace.
pub open spec fn chunk_resolved(
    cin: ChunkModel,
    cout: TemplateChunk,
    col: Collection,
    sp: Option<Identifier>,
    ov: Seq<(String, String)>,
    c_in: int,
    c_out: int,
) -> bool {
    exists|tr: KeyTrace| #[trigger] chunk_resolved_tr(cin, cout, tr, col, sp, ov, c_in, c_out)
}

/// A resolved field key, for some trace.
pub open spec fn field_key_resolved(
    name: Seq<char>,
    cout: TemplateChunk,
    col: Collection,
    sp: Option<Identifier>,
    ov: Seq<(String, String)>,
    c_in: int,
    c_out: int,
) -> bool {
    exists|tr: KeyTrace|
        #[trigger] field_key_resolved_tr(name, cout, tr, col, sp, ov, c_in, c_out)
}

/// Appending one more resolved chunk extends a resolved chunk list.
proof fn lemma_chunks_resolved_snoc(
    cs: Seq<ChunkModel>,
    outs: Seq<TemplateChunk>,
    counts: Seq<int>,
    subs: Seq<KeyTrace>,
    col: Collection,
    sp: Option<Identifier>,
    ov: Seq<(String, String)>,
    c: ChunkModel,
    o: TemplateChunk,
    tr: KeyTrace,
    c2: int,
)
    requires
        chunks_resolved_from(cs, outs, counts, subs, 0, col, sp, ov),
        match c {
            ChunkModel::RawText(t) => (o matches TemplateChunk::Raw(s) && s@ == t) && c2
                == counts.last(),
            _ => if counts.last() == RECURSION_LIMIT {
                o == TemplateChunk::Error(TemplateError::RecursionLimit) && c2 == counts.last()
            } else {
                counts.last() + 1 <= c2 <= RECURSION_LIMIT && chunk_resolved_tr(
                    c,
                    o,
                    tr,
                    col,
                    sp,
                    ov,
                    counts.last() + 1,
                    c2,
                )
            },
        },
    ensures
        chunks_resolved_from(
            cs.push(c),
            outs.push(o),
            counts.push(c2),
            subs.push(tr),
            0,
            col,
            sp,
            ov,
        ),
{
    let cs2 = cs.push(c);
    let outs2 = outs.push(o);
    let counts2 = counts.push(c2);
    let subs2 = subs.push(tr);
    assert(counts_wf(counts));
    assert(counts_wf(counts2)) by {
        assert(forall|i: int| 0 <= i < counts.len() ==> counts2[i] == counts[i]);
        assert(counts2[counts2.len() - 1] == c2);
        assert(counts.last() <= c2);
    }
    lemma_chunks_resolved_extend(cs, outs, counts, subs, col, sp, ov, c, o, tr, c2, 0);
}

/// The induction behind [`lemma_chunks_resolved_snoc`], from any
/// starting position.
proof fn lemma_chunks_resolved_extend(
    cs: Seq<ChunkModel>,
    outs: Seq<TemplateChunk>,
    counts: Seq<int>,
    subs: Seq<KeyTrace>,
    col: Collection,
    sp: Option<Identifier>,
    ov: Seq<(String, String)>,
    c: ChunkModel,
    o: TemplateChunk,
    tr: KeyTrace,
    c2: int,
    i: int,
)
    requires
        chunks_resolved_from(cs, outs, counts, subs, i, col, sp, ov),
        counts_wf(counts.push(c2)),
        match c {
            ChunkModel::RawText(t) => (o matches TemplateChunk::Raw(s) && s@ == t) && c2
                == counts.last(),
            _ => if counts.last() == RECURSION_LIMIT {
                o == TemplateChunk::Error(TemplateError::RecursionLimit) && c2 == counts.last()
            } else {
                counts.last() + 1 <= c2 <= RECURSION_LIMIT && chunk_resolved_tr(
                    c,
                    o,
                    tr,
                    col,
                    sp,
                    ov,
                    counts.last() + 1,
                    c2,
                )
            },
        },
    ensures
        chunks_resolved_from(
            cs.push(c),
            outs.push(o),
            counts.push(c2),
            subs.push(tr),
            i,
            col,
            sp,
            ov,
        ),
    decreases cs.len() - i,
{
    let cs2 = cs.push(c);
    let outs2 = outs.push(o);
    let counts2 = counts.push(c2);
    let subs2 = subs.push(tr);
    assert(forall|j: int| 0 <= j < cs.len() ==> cs2[j] == cs[j] && outs2[j] == outs[j]
        && subs2[j] == subs[j]);
    assert(forall|j: int| 0 <= j < counts.len() ==> counts2[j] == counts[j]);
    if i == cs.len() {
        assert(cs2[i] == c && outs2[i] == o && subs2[i] == tr);
        assert(counts2[i] == counts.last() && counts2[i + 1] == c2);
        assert(chunks_resolved_from(cs2, outs2, counts2, subs2, i + 1, col, sp, ov));
    } else {
        lemma_chunks_resolved_extend(cs, outs, counts, subs, col, sp, ov, c, o, tr, c2, i + 1);
    }
}

/// In a resolved chunk list of all-raw input, every output chunk is
/// the raw text itself.
proof fn lemma_resolved_all_raw_outs(
    cs: Seq<ChunkModel>,
    outs: Seq<TemplateChunk>,
    counts: Seq<int>,
    subs: Seq<KeyTrace>,
    i: int,
    col: Collection,
    sp: Option<Identifier>,
    ov: Seq<(String, String)>,
)
    requires
        chunks_resolved_from(cs, outs, counts, subs, i, col, sp, ov),
        all_raw(cs),
        0 <= i <= cs.len(),
    ensures
        forall|j: int|
            i <= j < cs.len() ==> chunk_shape(cs[j], #[trigger] outs[j], col.chains@, ov),
    decreases cs.len() - i,
{
    if i < cs.len() {
        assert(cs[i] is RawText);
        lemma_resolved_all_raw_outs(cs, outs, counts, subs, i + 1, col, sp, ov);
    }
}

/// Success is owed where nothing outside decides: a field key found
/// in the selected profile, not overridden, whose template is all
/// literal text, always renders to exactly that text, never
/// sensitive.
pub proof fn lemma_profile_field_success(
    name: Seq<char>,
    cout: TemplateChunk,
    col: Collection,
    sp: Option<Identifier>,
    ov: Seq<(String, String)>,
    c_in: int,
    c_out: int,
)
    requires
        field_key_resolved(name, cout, col, sp, ov, c_in, c_out),
        override_lookup(ov, name, 0) is None,
        sp is Some,
        crate::collection::profile_index(col.profiles@, sp->0@, 0) is Some,
        crate::collection::field_lookup(
            col.profiles@[crate::collection::profile_index(col.profiles@, sp->0@, 0)->0].data@,
            name,
            0,
        ) is Some,
        all_raw(
            col.profiles@[crate::collection::profile_index(col.profiles@, sp->0@, 0)->0].data@[crate::collection::field_lookup(
                col.profiles@[crate::collection::profile_index(col.profiles@, sp->0@, 0)->0].data@,
                name,
                0,
            )->0].1@,
        ),
    ensures
        ({
            let pi = crate::collection::profile_index(col.profiles@, sp->0@, 0)->0;
            let fi = crate::collection::field_lookup(col.profiles@[pi].data@, name, 0)->0;
            cout matches TemplateChunk::Rendered { value, sensitive } && value@ == encode_utf8(
                raw_concat(col.profiles@[pi].data@[fi].1@),
            ) && !sensitive
        }),
{
    let pi = crate::collection::profile_index(col.profiles@, sp->0@, 0)->0;
    let fi = crate::collection::field_lookup(col.profiles@[pi].data@, name, 0)->0;
    let cs = col.profiles@[pi].data@[fi].1@;
    let tr = choose|tr: KeyTrace|
        #[trigger] field_key_resolved_tr(name, cout, tr, col, sp, ov, c_in, c_out);
    assert(nested_resolved_tr(cs, name, cout, tr, col, sp, ov, c_in, c_out));
    match tr {
        KeyTrace::Nested { outs, counts, subs } => {
            lemma_resolved_all_raw_outs(cs, outs, counts, subs, 0, col, sp, ov);
            lemma_flatten_all_raw(cs, outs, col.chains@, ov);
            assert(flattened_field_chunk(outs, name, cout));
        },
        KeyTrace::Flat => {
            assert(false);
        },
    }
}

/// Whether a rendered chunk list contains an error whose cause chain
/// reaches the recursion limit.
pub open spec fn any_recursion_limit(outs: Seq<TemplateChunk>) -> bool {
    exists|i: int|
        0 <= i < outs.len() && ((#[trigger] outs[i]) matches TemplateChunk::Error(e)
            && contains_recursion_limit(e))
}

/// Flatten a chunk list: the concatenated bytes, or the first
/// chunk's error.
pub open spec fn flatten_chunks(outs: Seq<TemplateChunk>) -> Result<Seq<u8>, TemplateError>
    decreases outs.len(),
{
    if outs.len() == 0 {
        Result::Ok(Seq::empty())
    } else {
        match outs[0] {
            TemplateChunk::Raw(s) => match flatten_chunks(outs.drop_first()) {
                Result::Ok(b) => Result::Ok(encode_utf8(s@) + b),
                Result::Err(e) => Result::Err(e),
            },
            TemplateChunk::Rendered { value, sensitive } => match flatten_chunks(
                outs.drop_first(),
            ) {
                Result::Ok(b) => Result::Ok(value@ + b),
                Result::Err(e) => Result::Err(e),
            },
            TemplateChunk::Error(e) => Result::Err(e),
        }
    }
}

/// Whether every chunk of a template is raw text.
pub open spec fn all_raw(cs: Seq<ChunkModel>) -> bool {
    forall|i: int| 0 <= i < cs.len() ==> (#[trigger] cs[i]) is RawText
}

/// The concatenated text of an all-raw template.
pub open spec fn raw_concat(cs: Seq<ChunkModel>) -> Seq<char>
    decreases cs.len(),
{
    if cs.len() == 0 {
        Seq::empty()
    } else {
        (match cs[0] {
            ChunkModel::RawText(t) => t,
            _ => Seq::empty(),
        }) + raw_concat(cs.drop_first())
    }
}

/// Leading ASCII whitespace removed.
pub open spec fn trim_start_spec(s: Seq<char>) -> Seq<char>
    decreases s.len(),
{
    if s.len() > 0 && is_ascii_ws(s[0]) {
        trim_start_spec(s.drop_first())
    } else {
        s
    }
}

/// Trailing ASCII whitespace removed.
pub open spec fn trim_end_spec(s: Seq<char>) -> Seq<char>
    decreases s.len(),
{
    if s.len() > 0 && is_ascii_ws(s.last()) {
        trim_end_spec(s.drop_last())
    } else {
        s
    }
}

/// The text after applying a trim policy.
pub open spec fn trim_spec(policy: ChainOutputTrim, s: Seq<char>) -> Seq<char> {
    match policy {
        ChainOutputTrim::Off => s,
        ChainOutputTrim::Start => trim_start_spec(s),
        ChainOutputTrim::End => trim_end_spec(s),
        ChainOutputTrim::Both => trim_end_spec(trim_start_spec(s)),
    }
}

/// Dropping a whitespace prefix step by step.
proof fn lemma_trim_start(s: Seq<char>, k: int)
    requires
        0 <= k <= s.len(),
        forall|j: int| 0 <= j < k ==> is_ascii_ws(#[trigger] s[j]),
        k < s.len() ==> !is_ascii_ws(s[k]),
    ensures
        trim_start_spec(s) == s.skip(k),
    decreases k,
{
    if k == 0 {
        if s.len() > 0 && is_ascii_ws(s[0]) {
        } else {
            assert(s.skip(0) =~= s);
        }
    } else {
        let u = s.drop_first();
        assert(forall|j: int| 0 <= j < k - 1 ==> u[j] == s[j + 1]);
        assert(k - 1 < u.len() ==> u[k - 1] == s[k]);
        lemma_trim_start(u, k - 1);
        assert(u.skip(k - 1) =~= s.skip(k));
    }
}

/// Dropping a whitespace suffix step by step.
proof fn lemma_trim_end(s: Seq<char>, k: int)
    requires
        0 <= k <= s.len(),
        forall|j: int| k <= j < s.len() ==> is_ascii_ws(#[trigger] s[j]),
        k > 0 ==> !is_ascii_ws(s[k - 1]),
    ensures
        trim_end_spec(s) == s.take(k),
    decreases s.len() - k,
{
    if k == s.len() {
        if s.len() > 0 && is_ascii_ws(s.last()) {
        } else {
            assert(s.take(k) =~= s);
        }
    } else {
        let u = s.drop_last();
        assert(forall|j: int| k <= j < u.len() ==> u[j] == s[j]);
        lemma_trim_end(u, k);
        assert(u.take(k) =~= s.take(k));
    }
}

/// Apply a trim policy to text.
pub fn apply_trim(policy: ChainOutputTrim, text: &Vec<char>) -> (r: Vec<char>)
    ensures
        r@ == trim_spec(policy, text@),
{
    let n = text.len();
    let keep_start = match policy {
        ChainOutputTrim::Start | ChainOutputTrim::Both => true,
        _ => false,
    };
    let keep_end = match policy {
        ChainOutputTrim::End | ChainOutputTrim::Both => true,
        _ => false,
    };
    let mut a: usize = 0;
    if keep_start {
        while a < n && crate::text::ascii_ws(text[a])
            invariant
                0 <= a <= n == text@.len(),
                forall|j: int| 0 <= j < a ==> is_ascii_ws(#[trigger] text@[j]),
            decreases n - a,
        {
            a += 1;
        }
        proof {
            lemma_trim_start(text@, a as int);
        }
    }
    let mut b: usize = n;
    if keep_end {
        while b > a && crate::text::ascii_ws(text[b - 1])
            invariant
                a <= b <= n == text@.len(),
                forall|j: int| b <= j < n ==> is_ascii_ws(#[trigger] text@[j]),
            decreases b,
        {
            b -= 1;
        }
    }
    let out = crate::parse::chars_subrange(text, a, b);
    proof {
        let s = text@;
        match policy {
            ChainOutputTrim::Off => {
                assert(s.subrange(0, n as int) =~= s);
            },
            ChainOutputTrim::Start => {
                assert(s.subrange(a as int, n as int) =~= s.skip(a as int));
            },
            ChainOutputTrim::End => {
                lemma_trim_end(s, b as int);
                assert(s.subrange(0, b as int) =~= s.take(b as int));
            },
            ChainOutputTrim::Both => {
                let mid = s.skip(a as int);
                assert(forall|j: int| b - a <= j < mid.len() ==> #[trigger] mid[j]
                    == s[j + a]);
                assert(b - a > 0 ==> mid[b - a - 1] == s[b - 1]);
                lemma_trim_end(mid, b - a);
                assert(mid.take(b - a) =~= s.subrange(a as int, b as int));
            },
        }
    }
    out
}

/// Which answer a prompt yields: the user's reply, else the default,
/// else no response at all.
pub fn prompt_outcome(response: Option<String>, default: Option<String>) -> (r: Result<
    String,
    ChainError,
>)
    ensures
        response matches Option::Some(s) ==> r == Result::<String, ChainError>::Ok(s),
        response is None ==> (default matches Option::Some(d) ==> r == Result::<
            String,
            ChainError,
        >::Ok(d)),
        response is None && default is None ==> r == Result::<String, ChainError>::Err(
            ChainError::PromptNoResponse,
        ),
{
    match response {
        Option::Some(s) => Result::Ok(s),
        Option::None => match default {
            Option::Some(d) => Result::Ok(d),
            Option::None => Result::Err(ChainError::PromptNoResponse),
        },
    }
}

/// Whether a Request chain must send a fresh request rather than use
/// the latest stored exchange.
pub open spec fn should_send_spec(
    trigger: ChainRequestTrigger,
    latest: Option<Exchange>,
    now: u64,
) -> bool {
    match trigger {
        ChainRequestTrigger::Never => false,
        ChainRequestTrigger::NoHistory => latest is None,
        ChainRequestTrigger::Always => true,
        ChainRequestTrigger::Expire(d) => match latest {
            Option::None => true,
            Option::Some(e) => !(e.end_time <= now && now - e.end_time <= d),
        },
    }
}

/// The trigger table: when to reuse the stored exchange and when to
/// send fresh.
pub fn should_send(trigger: ChainRequestTrigger, latest: Option<&Exchange>, now: u64) -> (r: bool)
    ensures
        r == should_send_spec(
            trigger,
            match latest {
                Option::Some(e) => Option::Some(*e),
                Option::None => Option::None,
            },
            now,
        ),
{
    match trigger {
        ChainRequestTrigger::Never => false,
        ChainRequestTrigger::NoHistory => latest.is_none(),
        ChainRequestTrigger::Always => true,
        ChainRequestTrigger::Expire(d) => match latest {
            Option::None => true,
            Option::Some(e) => !(e.end_time <= now && now - e.end_time <= d),
        },
    }
}


/// The selector steps of an optional compiled selector.
pub open spec fn opt_sel_view(sel: Option<Selector>) -> Option<Seq<crate::selector::SegModel>> {
    match sel {
        Option::Some(s) => Option::Some(s@),
        Option::None => Option::None,
    }
}

/// When the chain post-processing succeeds on given bytes.
pub open spec fn pipeline_ok(
    bytes: Seq<u8>,
    sel: Option<Seq<crate::selector::SegModel>>,
    ct: Option<ContentType>,
    trim: ChainOutputTrim,
) -> bool {
    match sel {
        Option::None => trim is Off || valid_utf8(bytes),
        Option::Some(segs) => {
            &&& ct is Some
            &&& json_decoded(bytes) is Some
            &&& selector_apply_model(segs, json_decoded(bytes)->0).len() == 1
        },
    }
}

/// The bytes the chain post-processing emits when it succeeds.
pub open spec fn pipeline_value(
    bytes: Seq<u8>,
    sel: Option<Seq<crate::selector::SegModel>>,
    ct: Option<ContentType>,
    trim: ChainOutputTrim,
) -> Seq<u8> {
    match sel {
        Option::None => if trim is Off {
            bytes
        } else {
            encode_utf8(trim_spec(trim, decode_utf8(bytes)))
        },
        Option::Some(segs) => encode_utf8(
            trim_spec(
                trim,
                json_canonical_text(selector_apply_model(segs, json_decoded(bytes)->0)[0]),
            ),
        ),
    }
}

/// The common chain post-processing: decode and select if a selector
/// is present, then trim the textual form.
pub fn apply_chain_pipeline(
    bytes: Vec<u8>,
    selector: &Option<Selector>,
    content_type: Option<ContentType>,
    trim: ChainOutputTrim,
) -> (r: Result<Vec<u8>, ChainError>)
    ensures
        selector is None && trim is Off ==> (r matches Result::Ok(b) && b@ == bytes@),
        selector is None && !(trim is Off) && valid_utf8(bytes@) ==> (r matches Result::Ok(b)
            && b@ == encode_utf8(trim_spec(trim, decode_utf8(bytes@)))),
        selector is None && !(trim is Off) && !valid_utf8(bytes@) ==> (r matches Result::Err(
            ChainError::InvalidUtf8 { detail },
        )),
        selector is Some && content_type is None ==> r == Result::<Vec<u8>, ChainError>::Err(
            ChainError::UnknownContentType,
        ),
        selector is Some && content_type is Some && json_decoded(bytes@) is None ==> (r matches
            Result::Err(ChainError::ParseResponse { detail })),
        (r matches Result::Err(e) ==> !chain_contains_recursion_limit(e)),
        r is Ok <==> pipeline_ok(bytes@, opt_sel_view(*selector), content_type, trim),
        r matches Result::Ok(b) ==> b@ == pipeline_value(
            bytes@,
            opt_sel_view(*selector),
            content_type,
            trim,
        ),
        selector matches Option::Some(sel) ==> (content_type is Some ==> (json_decoded(bytes@)
            matches Option::Some(v) ==> {
            let found = selector_apply_model(sel@, v);
            &&& (found.len() == 0 ==> r == Result::<Vec<u8>, ChainError>::Err(
                ChainError::Query(QueryError::NoResults),
            ))
            &&& (found.len() > 1 ==> r == Result::<Vec<u8>, ChainError>::Err(
                ChainError::Query(QueryError::TooManyResults),
            ))
            &&& (found.len() == 1 ==> (r matches Result::Ok(b) && b@ == encode_utf8(
                trim_spec(trim, json_canonical_text(found[0])),
            )))
        })),
{
    match selector {
        Option::None => {
            match trim {
                ChainOutputTrim::Off => Result::Ok(bytes),
                _ => {
                    match bytes_to_string(bytes) {
                        Result::Ok(s) => {
                            let chars = str_chars(s.as_str());
                            let trimmed = apply_trim(trim, &chars);
                            let out = chars_to_string(&trimmed);
                            Result::Ok(str_bytes(out.as_str()))
                        },
                        Result::Err(detail) => Result::Err(ChainError::InvalidUtf8 { detail }),
                    }
                },
            }
        },
        Option::Some(sel) => {
            match content_type {
                Option::None => Result::Err(ChainError::UnknownContentType),
                Option::Some(ContentType::Json) => {
                    match decode_json(&bytes) {
                        Result::Err(detail) => Result::Err(ChainError::ParseResponse { detail }),
                        Result::Ok(v) => {
                            let found = sel.apply(&v);
                            if found.len() == 0 {
                                Result::Err(ChainError::Query(QueryError::NoResults))
                            } else if found.len() > 1 {
                                Result::Err(ChainError::Query(QueryError::TooManyResults))
                            } else {
                                proof {
                                    assert(found@.map_values(|x: &JsonValue| *x)[0] == *found@[0]);
                                }
                                let text = canonical_text(found[0]);
                                let chars = str_chars(text.as_str());
                                let trimmed = apply_trim(trim, &chars);
                                let out = chars_to_string(&trimmed);
                                Result::Ok(str_bytes(out.as_str()))
                            }
                        },
                    }
                },
            }
        },
    }
}

/// Copy a byte vector.
pub fn clone_bytes(v: &Vec<u8>) -> (r: Vec<u8>)
    ensures
        r@ == v@,
{
    let mut r: Vec<u8> = Vec::new();
    let mut i: usize = 0;
    while i < v.len()
        invariant
            0 <= i <= v@.len(),
            r@ =~= v@.subrange(0, i as int),
        decreases v@.len() - i,
    {
        r.push(v[i]);
        proof {
            assert(r@ =~= v@.subrange(0, i + 1 as int));
        }
        i += 1;
    }
    proof {
        assert(r@ =~= v@);
    }
    r
}

/// Copy an optional template, chunk for chunk.
fn clone_template_opt(x: &Option<Template>) -> (r: Option<Template>)
    ensures
        r is Some <==> x is Some,
        x matches Option::Some(t) ==> (r matches Option::Some(t2) && t2@ == t@),
{
    match x {
        Option::Some(t) => Option::Some(t.clone()),
        Option::None => Option::None,
    }
}

/// Copy a template list, chunk for chunk.
fn clone_templates(v: &Vec<Template>) -> (r: Vec<Template>)
    ensures
        r@.len() == v@.len(),
        forall|i: int| 0 <= i < v@.len() ==> (#[trigger] r@[i])@ == v@[i]@,
{
    let mut r: Vec<Template> = Vec::new();
    let mut i: usize = 0;
    while i < v.len()
        invariant
            0 <= i <= v@.len(),
            r@.len() == i,
            forall|j: int| 0 <= j < i ==> (#[trigger] r@[j])@ == v@[j]@,
        decreases v@.len() - i,
    {
        r.push(v[i].clone());
        i += 1;
    }
    r
}

/// Copy an optional selector, step for step.
fn clone_selector_opt(x: &Option<Selector>) -> (r: Option<Selector>)
    ensures
        r is Some <==> x is Some,
        x matches Option::Some(s) ==> (r matches Option::Some(s2) && s2@ == s@),
{
    match x {
        Option::Some(s) => Option::Some(s.clone()),
        Option::None => Option::None,
    }
}

/// The bytes a section selects from a response: the body, or one
/// header's value.
pub fn extract_section(resp: &crate::store::Response, section: &ChainRequestSection) -> (r: Result<
    Vec<u8>,
    ChainError,
>)
    ensures
        section is Body ==> (r matches Result::Ok(b) && b@ == resp.body@),
        section matches ChainRequestSection::Header(h) ==> match header_lookup(
            resp.headers@,
            h@,
            0,
        ) {
            Option::Some(v) => (r matches Result::Ok(b) && b@ == v),
            Option::None => (r matches Result::Err(ChainError::MissingHeader { header })
                && header@ == h@),
        },
{
    match section {
        ChainRequestSection::Body => Result::Ok(clone_bytes(&resp.body)),
        ChainRequestSection::Header(h) => {
            let name = str_chars(h.as_str());
            match resp.find_header(&name) {
                Option::Some(v) => Result::Ok(clone_bytes(v)),
                Option::None => Result::Err(ChainError::MissingHeader { header: h.clone() }),
            }
        },
    }
}

/// The content type a selector uses: the chain's explicit hint, else
/// what the response's Content-Type header names.
pub open spec fn inferred_content_type(
    headers: Seq<(String, Vec<u8>)>,
    explicit: Option<ContentType>,
) -> Option<ContentType> {
    if explicit is Some {
        explicit
    } else {
        match header_lookup(headers, content_type_name(), 0) {
            Option::Some(v) => if valid_utf8(v) && crate::json::names_json(decode_utf8(v)) {
                Option::Some(ContentType::Json)
            } else {
                Option::None
            },
            Option::None => Option::None,
        }
    }
}

/// The characters `content-type`.
pub open spec fn content_type_name() -> Seq<char> {
    seq!['c', 'o', 'n', 't', 'e', 'n', 't', '-', 't', 'y', 'p', 'e']
}

/// Infer the content type from the response headers, unless the
/// chain names one.
pub fn response_content_type(
    resp: &crate::store::Response,
    explicit: Option<ContentType>,
) -> (r: Option<ContentType>)
    ensures
        r == inferred_content_type(resp.headers@, explicit),
{
    match explicit {
        Option::Some(ct) => Option::Some(ct),
        Option::None => {
            let name: Vec<char> = vec![
                'c', 'o', 'n', 't', 'e', 'n', 't', '-', 't', 'y', 'p', 'e',
            ];
            proof {
                assert(name@ =~= content_type_name());
            }
            match resp.find_header(&name) {
                Option::None => Option::None,
                Option::Some(v) => {
                    match bytes_to_string(clone_bytes(v)) {
                        Result::Err(_) => Option::None,
                        Result::Ok(s) => {
                            let chars = str_chars(s.as_str());
                            content_type_of(&chars)
                        },
                    }
                },
            }
        },
    }
}


/// The shared facts about a rendered chunk list: one output per
/// input chunk, each shaped by [`chunk_shape`], and a recursion-limit
/// error only when the counter reached the limit.
pub open spec fn chunks_post(
    cs: Seq<ChunkModel>,
    outs: Seq<TemplateChunk>,
    chains: Seq<Chain>,
    ov: Seq<(String, String)>,
    count: int,
) -> bool {
    &&& outs.len() == cs.len()
    &&& (forall|i: int|
        0 <= i < cs.len() ==> chunk_shape(cs[i], #[trigger] outs[i], chains, ov))
    &&& (any_recursion_limit(outs) ==> count == RECURSION_LIMIT)
}

/// What flattening to bytes returns, given the chunk list it
/// flattened and the counter snapshots of its rendering.
pub open spec fn render_bytes_post(
    cs: Seq<ChunkModel>,
    outs: Seq<TemplateChunk>,
    counts: Seq<int>,
    subs: Seq<KeyTrace>,
    r: Result<Vec<u8>, TemplateError>,
    col: Collection,
    sp: Option<Identifier>,
    ov: Seq<(String, String)>,
    c0: int,
    c_end: int,
) -> bool {
    &&& counts.len() == cs.len() + 1
    &&& counts[0] == c0
    &&& counts.last() == c_end
    &&& chunks_post(cs, outs, col.chains@, ov, c_end)
    &&& chunks_resolved_from(cs, outs, counts, subs, 0, col, sp, ov)
    &&& match flatten_chunks(outs) {
        Result::Ok(b) => (r matches Result::Ok(rb) && rb@ == b),
        Result::Err(e) => r == Result::<Vec<u8>, TemplateError>::Err(e),
    }
}

/// What flattening to a string returns, given the chunk list it
/// flattened and the counter snapshots of its rendering.
pub open spec fn render_string_post(
    cs: Seq<ChunkModel>,
    outs: Seq<TemplateChunk>,
    counts: Seq<int>,
    subs: Seq<KeyTrace>,
    r: Result<String, TemplateError>,
    col: Collection,
    sp: Option<Identifier>,
    ov: Seq<(String, String)>,
    c0: int,
    c_end: int,
) -> bool {
    &&& counts.len() == cs.len() + 1
    &&& counts[0] == c0
    &&& counts.last() == c_end
    &&& chunks_post(cs, outs, col.chains@, ov, c_end)
    &&& chunks_resolved_from(cs, outs, counts, subs, 0, col, sp, ov)
    &&& match flatten_chunks(outs) {
        Result::Ok(b) => if valid_utf8(b) {
            r matches Result::Ok(s) && s@ == decode_utf8(b)
        } else {
            r matches Result::Err(TemplateError::InvalidUtf8 { detail })
        },
        Result::Err(e) => r == Result::<String, TemplateError>::Err(e),
    }
}

/// Append the bytes of `b` to `out`.
fn append_bytes(out: &mut Vec<u8>, b: &Vec<u8>)
    ensures
        final(out)@ == old(out)@ + b@,
{
    let mut i: usize = 0;
    while i < b.len()
        invariant
            0 <= i <= b@.len(),
            out@ == old(out)@ + b@.subrange(0, i as int),
        decreases b@.len() - i,
    {
        out.push(b[i]);
        proof {
            assert(old(out)@ + b@.subrange(0, i as int) + seq![b@[i as int]] =~= old(out)@
                + b@.subrange(0, i + 1 as int));
        }
        i += 1;
    }
    proof {
        assert(b@.subrange(0, b@.len() as int) =~= b@);
    }
}

/// Flatten a chunk list to bytes or its first error.
fn flatten(chunks: Vec<TemplateChunk>, model: Ghost<Seq<TemplateChunk>>) -> (r: Result<
    Vec<u8>,
    TemplateError,
>)
    requires
        chunks@ == model@,
    ensures
        match flatten_chunks(model@) {
            Result::Ok(b) => (r matches Result::Ok(rb) && rb@ == b),
            Result::Err(e) => r == Result::<Vec<u8>, TemplateError>::Err(e),
        },
{
    let ghost orig = model@;
    let mut rest = chunks;
    let mut out: Vec<u8> = Vec::new();
    proof {
        assert(out@ + Seq::<u8>::empty() =~= out@);
    }
    while rest.len() > 0
        invariant
            orig == model@,
            match flatten_chunks(orig) {
                Result::Ok(b) => (flatten_chunks(rest@) matches Result::Ok(b2) && b == out@ + b2),
                Result::Err(e) => flatten_chunks(rest@) == Result::<Seq<u8>, TemplateError>::Err(
                    e,
                ),
            },
        decreases rest@.len(),
    {
        let ghost pre_rest = rest@;
        let c = rest.remove(0);
        proof {
            assert(rest@ =~= pre_rest.drop_first());
            assert(c == pre_rest[0]);
        }
        match c {
            TemplateChunk::Raw(s) => {
                let b = str_bytes(s.as_str());
                append_bytes(&mut out, &b);
            },
            TemplateChunk::Rendered { value, sensitive } => {
                append_bytes(&mut out, &value);
            },
            TemplateChunk::Error(e) => {
                proof {
                    assert(flatten_chunks(pre_rest) == Result::<Seq<u8>, TemplateError>::Err(e));
                    assert(flatten_chunks(orig) == Result::<Seq<u8>, TemplateError>::Err(e));
                }
                return Result::Err(e);
            },
        }
    }
    proof {
        assert(rest@.len() == 0);
        assert(flatten_chunks(rest@) == Result::<Seq<u8>, TemplateError>::Ok(Seq::empty()));
        match flatten_chunks(orig) {
            Result::Ok(b) => {
                assert(b =~= out@ + Seq::<u8>::empty());
                assert(b =~= out@);
            },
            Result::Err(e) => {},
        }
    }
    Result::Ok(out)
}

/// The error a flattening returns is one of the chunks' errors.
proof fn lemma_flatten_err_in(outs: Seq<TemplateChunk>)
    ensures
        forall|e: TemplateError|
            flatten_chunks(outs) == Result::<Seq<u8>, TemplateError>::Err(e) ==> exists|i: int|
                0 <= i < outs.len() && outs[i] == TemplateChunk::Error(e),
    decreases outs.len(),
{
    if outs.len() > 0 {
        lemma_flatten_err_in(outs.drop_first());
        assert forall|e: TemplateError|
            flatten_chunks(outs) == Result::<Seq<u8>, TemplateError>::Err(e) implies exists|i: int|
            0 <= i < outs.len() && outs[i] == TemplateChunk::Error(e) by {
            match outs[0] {
                TemplateChunk::Error(e0) => {
                    assert(outs[0] == TemplateChunk::Error(e0));
                },
                _ => {
                    assert(flatten_chunks(outs.drop_first()) == Result::<
                        Seq<u8>,
                        TemplateError,
                    >::Err(e));
                    let i = choose|i: int|
                        0 <= i < outs.drop_first().len() && outs.drop_first()[i]
                            == TemplateChunk::Error(e);
                    assert(outs[i + 1] == TemplateChunk::Error(e));
                },
            }
        }
    }
}

/// Encoding distributes over concatenation.
proof fn lemma_encode_concat(a: Seq<char>, b: Seq<char>)
    ensures
        encode_utf8(a + b) == encode_utf8(a) + encode_utf8(b),
    decreases a.len(),
{
    if a.len() == 0 {
        assert(a + b =~= b);
        assert(encode_utf8(a) =~= Seq::<u8>::empty());
        assert(encode_utf8(a) + encode_utf8(b) =~= encode_utf8(b));
    } else {
        assert((a + b)[0] == a[0]);
        assert((a + b).drop_first() =~= a.drop_first() + b);
        lemma_encode_concat(a.drop_first(), b);
        assert(encode_utf8(a + b) == vstd::utf8::encode_scalar(a[0] as u32) + (encode_utf8(
            a.drop_first(),
        ) + encode_utf8(b)));
        assert(vstd::utf8::encode_scalar(a[0] as u32) + (encode_utf8(a.drop_first())
            + encode_utf8(b)) =~= (vstd::utf8::encode_scalar(a[0] as u32) + encode_utf8(
            a.drop_first(),
        )) + encode_utf8(b));
    }
}

/// Flattening an all-raw chunk list concatenates the encoded text.
proof fn lemma_flatten_all_raw(
    cs: Seq<ChunkModel>,
    outs: Seq<TemplateChunk>,
    chains: Seq<Chain>,
    ov: Seq<(String, String)>,
)
    requires
        outs.len() == cs.len(),
        all_raw(cs),
        forall|i: int| 0 <= i < cs.len() ==> chunk_shape(cs[i], #[trigger] outs[i], chains, ov),
    ensures
        flatten_chunks(outs) == Result::<Seq<u8>, TemplateError>::Ok(
            encode_utf8(raw_concat(cs)),
        ),
    decreases cs.len(),
{
    if cs.len() == 0 {
        assert(encode_utf8(raw_concat(cs)) =~= Seq::<u8>::empty());
    } else {
        assert(cs[0] is RawText);
        assert(chunk_shape(cs[0], outs[0], chains, ov));
        let cs2 = cs.drop_first();
        let outs2 = outs.drop_first();
        assert(forall|i: int| 0 <= i < cs2.len() ==> cs2[i] == cs[i + 1]);
        assert(forall|i: int|
            0 <= i < cs2.len() ==> chunk_shape(cs2[i], #[trigger] outs2[i], chains, ov)) by {
            assert(forall|i: int| 0 <= i < outs2.len() ==> outs2[i] == outs[i + 1]);
        }
        lemma_flatten_all_raw(cs2, outs2, chains, ov);
        match (cs[0], outs[0]) {
            (ChunkModel::RawText(tx), TemplateChunk::Raw(s)) => {
                lemma_encode_concat(tx, raw_concat(cs2));
            },
            _ => {
                assert(false);
            },
        }
    }
}

/// Where a field key's value was found.
enum FieldSource {
    /// An override supplied the text; it is itself a template.
    FromOverride(String),
    /// The selected profile supplied a template.
    FromProfile(Template),
    /// No profile is selected.
    NoProfile,
    /// The selected profile is not in the collection.
    UnknownProfile(Identifier),
    /// Neither an override nor the profile has the field.
    UnknownField,
}

/// Resolve a field key: overrides first, then the selected profile's
/// data; either value is itself a template and is rendered in the
/// same context.
#[verifier::rlimit(100)]
fn render_field<E: Effects, P: Prompter, H: HttpSender>(
    name: &Identifier,
    ctx: &mut TemplateContext<E, P, H>,
) -> (r: TemplateChunk)
    requires
        1 <= old(ctx).recursion_count <= RECURSION_LIMIT,
    ensures
        ctx_frame(*old(ctx), *final(ctx)),
        r is Rendered || r is Error,
        (r matches TemplateChunk::Rendered { value, sensitive } ==> !sensitive),
        ((r matches TemplateChunk::Error(e) && contains_recursion_limit(e)) ==> final(ctx).recursion_count == RECURSION_LIMIT),
        override_lookup(old(ctx).overrides@, name@, 0) is Some ==> (r is Rendered || (r matches
            TemplateChunk::Error(TemplateError::FieldNested { field, error }) && field@
            == name@)),
        field_key_resolved(
            name@,
            r,
            old(ctx).collection,
            old(ctx).selected_profile,
            old(ctx).overrides@,
            old(ctx).recursion_count as int,
            final(ctx).recursion_count as int,
        ),
        (override_lookup(old(ctx).overrides@, name@, 0) is None && old(ctx).selected_profile
            is None) ==> r == TemplateChunk::Error(TemplateError::NoProfileSelected),
        override_lookup(old(ctx).overrides@, name@, 0) is None ==> (old(
            ctx,
        ).selected_profile matches Option::Some(pid) ==> (crate::collection::profile_index(
            old(ctx).collection.profiles@,
            pid@,
            0,
        ) is None ==> (r matches TemplateChunk::Error(TemplateError::ProfileUnknown {
            profile_id,
        }) && profile_id@ == pid@))),
    decreases RECURSION_LIMIT - ctx.recursion_count, 4int,
{
    let ghost col = old(ctx).collection;
    let ghost sp = old(ctx).selected_profile;
    let ghost ov = old(ctx).overrides@;
    let ghost c_in = old(ctx).recursion_count as int;
    let name_chars = crate::parse::chars_subrange(name.chars(), 0, name.chars().len());
    proof {
        assert(name_chars@ =~= name@);
    }
    let looked: FieldSource = {
        match overrides_get(&ctx.overrides, &name_chars) {
            Option::Some(s) => FieldSource::FromOverride(s.clone()),
            Option::None => {
                match &ctx.selected_profile {
                    Option::None => FieldSource::NoProfile,
                    Option::Some(pid) => {
                        match ctx.collection.find_profile(pid.chars()) {
                            Option::None => FieldSource::UnknownProfile(pid.clone()),
                            Option::Some(profile) => {
                                match profile.find_field(&name_chars) {
                                    Option::None => FieldSource::UnknownField,
                                    Option::Some(t) => FieldSource::FromProfile(t.clone()),
                                }
                            },
                        }
                    },
                }
            },
        }
    };
    let field_name = chars_to_string(name.chars());
    let out_chunk = match looked {
        FieldSource::NoProfile => {
            let ch = TemplateChunk::Error(TemplateError::NoProfileSelected);
            proof {
                assert(!contains_recursion_limit(TemplateError::NoProfileSelected));
                assert(field_key_resolved_tr(name@, ch, KeyTrace::Flat, col, sp, ov, c_in, c_in));
                assert(field_key_resolved(name@, ch, col, sp, ov, c_in, c_in));
            }
            ch
        },
        FieldSource::UnknownProfile(pid) => {
            let ch = TemplateChunk::Error(TemplateError::ProfileUnknown { profile_id: pid });
            proof {
                assert((ch matches TemplateChunk::Error(e2) && contains_recursion_limit(e2))
                    ==> ctx.recursion_count == RECURSION_LIMIT);
                assert(field_key_resolved_tr(name@, ch, KeyTrace::Flat, col, sp, ov, c_in, c_in));
                assert(field_key_resolved(name@, ch, col, sp, ov, c_in, c_in));
            }
            ch
        },
        FieldSource::UnknownField => {
            let ch = TemplateChunk::Error(TemplateError::FieldUnknown { field: field_name });
            proof {
                assert((ch matches TemplateChunk::Error(e2) && contains_recursion_limit(e2))
                    ==> ctx.recursion_count == RECURSION_LIMIT);
                assert(field_key_resolved_tr(name@, ch, KeyTrace::Flat, col, sp, ov, c_in, c_in));
                assert(field_key_resolved(name@, ch, col, sp, ov, c_in, c_in));
            }
            ch
        },
        FieldSource::FromOverride(text) => {
            match Template::parse(text.as_str()) {
                Result::Err(pe) => {
                    let inner = TemplateError::Parse(pe);
                    proof {
                        assert(!contains_recursion_limit(inner));
                    }
                    let bx = Box::new(inner);
                    let ch = TemplateChunk::Error(
                        TemplateError::FieldNested { field: field_name, error: bx },
                    );
                    proof {
                        assert((ch matches TemplateChunk::Error(e2)
                            && contains_recursion_limit(e2)) ==> ctx.recursion_count
                            == RECURSION_LIMIT);
                        assert(field_key_resolved_tr(
                            name@,
                            ch,
                            KeyTrace::Flat,
                            col,
                            sp,
                            ov,
                            c_in,
                            c_in,
                        ));
                        assert(field_key_resolved(name@, ch, col, sp, ov, c_in, c_in));
                    }
                    ch
                },
                Result::Ok(t) => {
                    let ghost cs = t@;
                    let rb = t.render(ctx);
                    let ghost c_now = ctx.recursion_count as int;
                    let ghost (outs, counts, subs) = choose|
                        outs: Seq<TemplateChunk>,
                        counts: Seq<int>,
                        subs: Seq<KeyTrace>,
                    |
                        #[trigger] render_bytes_post(
                            cs,
                            outs,
                            counts,
                            subs,
                            rb,
                            col,
                            sp,
                            ov,
                            c_in,
                            c_now,
                        );
                    let ghost tr = KeyTrace::Nested { outs, counts, subs };
                    let ch = match rb {
                        Result::Ok(value) => TemplateChunk::Rendered { value, sensitive: false },
                        Result::Err(e) => {
                            let ghost rl = contains_recursion_limit(e);
                            let bx = Box::new(e);
                            proof {
                                assert(contains_recursion_limit(*bx) == rl);
                            }
                            TemplateChunk::Error(
                                TemplateError::FieldNested { field: field_name, error: bx },
                            )
                        },
                    };
                    proof {
                        assert(flattened_field_chunk(outs, name@, ch));
                        assert(nested_resolved_tr(cs, name@, ch, tr, col, sp, ov, c_in, c_now));
                        assert(field_key_resolved_tr(name@, ch, tr, col, sp, ov, c_in, c_now));
                        assert(field_key_resolved(name@, ch, col, sp, ov, c_in, c_now));
                    }
                    ch
                },
            }
        },
        FieldSource::FromProfile(t) => {
            let ghost cs = t@;
            let rb = t.render(ctx);
            let ghost c_now = ctx.recursion_count as int;
            let ghost (outs, counts, subs) = choose|
                outs: Seq<TemplateChunk>,
                counts: Seq<int>,
                subs: Seq<KeyTrace>,
            |
                #[trigger] render_bytes_post(cs, outs, counts, subs, rb, col, sp, ov, c_in, c_now);
            let ghost tr = KeyTrace::Nested { outs, counts, subs };
            let ch = match rb {
                Result::Ok(value) => TemplateChunk::Rendered { value, sensitive: false },
                Result::Err(e) => {
                    let ghost rl = contains_recursion_limit(e);
                    let bx = Box::new(e);
                    proof {
                        assert(contains_recursion_limit(*bx) == rl);
                    }
                    TemplateChunk::Error(
                        TemplateError::FieldNested { field: field_name, error: bx },
                    )
                },
            };
            proof {
                assert(flattened_field_chunk(outs, name@, ch));
                assert(nested_resolved_tr(cs, name@, ch, tr, col, sp, ov, c_in, c_now));
                assert(field_key_resolved_tr(name@, ch, tr, col, sp, ov, c_in, c_now));
                assert(field_key_resolved(name@, ch, col, sp, ov, c_in, c_now));
            }
            ch
        },
    };
    proof {
        assert((out_chunk matches TemplateChunk::Error(e2) && contains_recursion_limit(e2))
            ==> ctx.recursion_count == RECURSION_LIMIT);
    }
    out_chunk
}

/// Resolve an environment key: the `env.<name>` override first, then
/// the process environment; a missing variable is the empty string.
fn render_env<E: Effects, P: Prompter, H: HttpSender>(
    name: &Identifier,
    ctx: &mut TemplateContext<E, P, H>,
) -> (r: TemplateChunk)
    requires
        1 <= old(ctx).recursion_count <= RECURSION_LIMIT,
    ensures
        ctx_frame(*old(ctx), *final(ctx)),
        r is Rendered || r is Error,
        (r matches TemplateChunk::Rendered { value, sensitive } ==> !sensitive),
        ((r matches TemplateChunk::Error(e) && contains_recursion_limit(e)) ==> final(ctx).recursion_count == RECURSION_LIMIT),
        (override_lookup(old(ctx).overrides@, env_override_key(name@), 0) matches Option::Some(
            v,
        ) ==> ((r matches TemplateChunk::Rendered { value, sensitive } && value@ == encode_utf8(
            v,
        ) && !sensitive) && *final(ctx) == *old(ctx))),
        final(ctx).recursion_count == old(ctx).recursion_count,
        override_lookup(old(ctx).overrides@, env_override_key(name@), 0) is None ==> ((r matches
            TemplateChunk::Rendered { value, sensitive } && !sensitive) || (r matches
            TemplateChunk::Error(TemplateError::EnvironmentVariable { variable, detail })
            && variable@ == name@)),
    decreases RECURSION_LIMIT - ctx.recursion_count, 4int,
{
    let mut key: Vec<char> = vec!['e', 'n', 'v', '.'];
    crate::text::push_chars(&mut key, name.chars());
    proof {
        assert(key@ =~= env_override_key(name@));
    }
    let over = match overrides_get(&ctx.overrides, &key) {
        Option::Some(s) => Option::Some(s.clone()),
        Option::None => Option::None,
    };
    match over {
        Option::Some(text) => {
            let value = str_bytes(text.as_str());
            TemplateChunk::Rendered { value, sensitive: false }
        },
        Option::None => {
            let var_name = chars_to_string(name.chars());
            match ctx.effects.env_var(&var_name) {
                Result::Ok(Option::Some(s)) => TemplateChunk::Rendered {
                    value: str_bytes(s.as_str()),
                    sensitive: false,
                },
                Result::Ok(Option::None) => TemplateChunk::Rendered {
                    value: Vec::new(),
                    sensitive: false,
                },
                Result::Err(detail) => TemplateChunk::Error(
                    TemplateError::EnvironmentVariable { variable: var_name, detail },
                ),
            }
        },
    }
}

/// Resolve one key: the dispatch of the key resolver.
pub fn render_key<E: Effects, P: Prompter, H: HttpSender>(
    key: &TemplateKey,
    ctx: &mut TemplateContext<E, P, H>,
) -> (r: TemplateChunk)
    requires
        1 <= old(ctx).recursion_count <= RECURSION_LIMIT,
    ensures
        ctx_frame(*old(ctx), *final(ctx)),
        chunk_shape(key@, r, old(ctx).collection.chains@, old(ctx).overrides@),
        ((r matches TemplateChunk::Error(e) && contains_recursion_limit(e)) ==> final(ctx).recursion_count == RECURSION_LIMIT),
        (key matches TemplateKey::Field(name) ==> (override_lookup(
            old(ctx).overrides@,
            name@,
            0,
        ) is Some ==> (r is Rendered || (r matches TemplateChunk::Error(
            TemplateError::FieldNested { field, error },
        ) && field@ == name@)))),
        (key matches TemplateKey::Chain(id) ==> (override_lookup(
            old(ctx).overrides@,
            chain_override_key(id@),
            0,
        ) is Some ==> *final(ctx) == *old(ctx))),
        (key matches TemplateKey::Environment(id) ==> (override_lookup(
            old(ctx).overrides@,
            env_override_key(id@),
            0,
        ) is Some ==> *final(ctx) == *old(ctx))),
        chunk_resolved(
            key@,
            r,
            old(ctx).collection,
            old(ctx).selected_profile,
            old(ctx).overrides@,
            old(ctx).recursion_count as int,
            final(ctx).recursion_count as int,
        ),
        (key matches TemplateKey::Chain(id) ==> (override_lookup(
            old(ctx).overrides@,
            chain_override_key(id@),
            0,
        ) is None ==> (chain_index(old(ctx).collection.chains@, id@, 0) matches Option::Some(ci)
            ==> (old(ctx).collection.chains@[ci].source matches ChainSource::Request {
            recipe,
            trigger: ChainRequestTrigger::Never,
            section,
        } ==> match crate::collection::recipe_index(
            old(ctx).collection.recipes@,
            recipe@,
            0,
        ) {
            Option::None => (r matches TemplateChunk::Error(TemplateError::Chain {
                chain_id,
                error: ChainError::RecipeUnknown(rid),
            }) && chain_id@ == id@ && rid@ == recipe@),
            Option::Some(ri) => match crate::store::latest_of(old(ctx).store@, recipe@) {
                Option::None => (r matches TemplateChunk::Error(TemplateError::Chain {
                    chain_id,
                    error: ChainError::NoResponse,
                }) && chain_id@ == id@),
                Option::Some(e) => reused_request_outcome(
                    old(ctx).collection.chains@[ci],
                    id@,
                    e.response,
                    r,
                ),
            },
        })))),
    decreases RECURSION_LIMIT - ctx.recursion_count, 5int,
{
    let ghost col = old(ctx).collection;
    let ghost sp = old(ctx).selected_profile;
    let ghost ov = old(ctx).overrides@;
    let ghost c_in = old(ctx).recursion_count as int;
    match key {
        TemplateKey::Field(name) => {
            let r = render_field(name, ctx);
            proof {
                let tr = choose|tr: KeyTrace|
                    #[trigger] field_key_resolved_tr(
                        name@,
                        r,
                        tr,
                        col,
                        sp,
                        ov,
                        c_in,
                        ctx.recursion_count as int,
                    );
                assert(chunk_resolved_tr(
                    key@,
                    r,
                    tr,
                    col,
                    sp,
                    ov,
                    c_in,
                    ctx.recursion_count as int,
                ));
                assert(chunk_resolved(key@, r, col, sp, ov, c_in, ctx.recursion_count as int));
            }
            r
        },
        TemplateKey::Environment(name) => {
            let r = render_env(name, ctx);
            proof {
                assert(chunk_resolved_tr(
                    key@,
                    r,
                    KeyTrace::Flat,
                    col,
                    sp,
                    ov,
                    c_in,
                    ctx.recursion_count as int,
                ));
                assert(chunk_resolved(key@, r, col, sp, ov, c_in, ctx.recursion_count as int));
            }
            r
        },
        TemplateKey::Chain(id) => {
            let r = resolve_chain(id, ctx);
            proof {
                assert(chunk_resolved_tr(
                    key@,
                    r,
                    KeyTrace::Flat,
                    col,
                    sp,
                    ov,
                    c_in,
                    ctx.recursion_count as int,
                ));
                assert(chunk_resolved(key@, r, col, sp, ov, c_in, ctx.recursion_count as int));
            }
            r
        },
    }
}

/// What the chain engine decided to do for a chain key.
enum ChainPlan {
    /// The chain is not in the collection.
    Unknown,
    /// Run the chain's source and post-processing.
    Run {
        sensitive: bool,
        selector: Option<Selector>,
        content_type: Option<ContentType>,
        trim: ChainOutputTrim,
        source: SourcePlan,
    },
}

/// A copy of the chain source, detached from the collection borrow.
enum SourcePlan {
    Request { recipe: Identifier, trigger: ChainRequestTrigger, section: ChainRequestSection },
    Command { command: Vec<Template>, stdin: Option<Template> },
    File { path: Template },
    Environment { variable: Template },
    Prompt { message: Option<Template>, default: Option<Template> },
}

/// What a Request chain does once the trigger is consulted.
enum RequestPlan {
    /// Send a fresh request.
    SendFresh,
    /// Nothing is stored and the trigger never sends.
    NothingStored,
    /// Reuse the latest stored exchange: the section's bytes (or the
    /// error extracting them) and the inferred content type.
    Reuse(Result<Vec<u8>, ChainError>, Option<ContentType>),
}

/// Run a chain's source, producing its raw bytes and the content
/// type the selector may use.
fn run_source<E: Effects, P: Prompter, H: HttpSender>(
    source: SourcePlan,
    sensitive: bool,
    explicit_ct: Option<ContentType>,
    g_src: Ghost<SourcePlan>,
    ctx: &mut TemplateContext<E, P, H>,
) -> (r: Result<(Vec<u8>, Option<ContentType>), ChainError>)
    requires
        1 <= old(ctx).recursion_count <= RECURSION_LIMIT,
        g_src@ == source,
    ensures
        ctx_frame(*old(ctx), *final(ctx)),
        ((r matches Result::Err(e) && chain_contains_recursion_limit(e)) ==> final(ctx).recursion_count == RECURSION_LIMIT),
        (r matches Result::Ok(p) ==> {
            &&& (explicit_ct is Some ==> p.1 == explicit_ct)
            &&& (!(g_src@ is Request) ==> p.1 == explicit_ct)
        }),
        (g_src@ matches SourcePlan::Request {
            recipe,
            trigger: ChainRequestTrigger::Never,
            section,
        } ==> match crate::collection::recipe_index(
            old(ctx).collection.recipes@,
            recipe@,
            0,
        ) {
            Option::None => (r matches Result::Err(ChainError::RecipeUnknown(rid)) && rid@
                == recipe@),
            Option::Some(ri) => match crate::store::latest_of(old(ctx).store@, recipe@) {
                Option::None => r matches Result::Err(ChainError::NoResponse),
                Option::Some(e) => match section_bytes(e.response, section) {
                    Option::None => (r matches Result::Err(ChainError::MissingHeader { header })
                        && (section matches ChainRequestSection::Header(h) && header@ == h@)),
                    Option::Some(b) => (r matches Result::Ok(p) && p.0@ == b && p.1
                        == inferred_content_type(e.response.headers@, explicit_ct)),
                },
            },
        }),
    decreases RECURSION_LIMIT - ctx.recursion_count, 3int,
{
    match source {
        SourcePlan::Request { recipe, trigger, section } => {
            let recipe_chars = crate::parse::chars_subrange(
                recipe.chars(),
                0,
                recipe.chars().len(),
            );
            proof {
                assert(recipe_chars@ =~= recipe@);
            }
            let url_opt: Option<Template> = {
                match ctx.collection.find_recipe(&recipe_chars) {
                    Option::None => Option::None,
                    Option::Some(rec) => Option::Some(rec.url.clone()),
                }
            };
            match url_opt {
                Option::None => Result::Err(ChainError::RecipeUnknown(recipe)),
                Option::Some(url_t) => {
                    let now = ctx.effects.now();
                    let plan: RequestPlan = {
                        let latest = ctx.store.get_latest(&recipe_chars);
                        if should_send(trigger, latest, now) {
                            RequestPlan::SendFresh
                        } else {
                            match latest {
                                Option::None => RequestPlan::NothingStored,
                                Option::Some(e) => RequestPlan::Reuse(
                                    extract_section(&e.response, &section),
                                    response_content_type(&e.response, explicit_ct),
                                ),
                            }
                        }
                    };
                    match plan {
                        RequestPlan::NothingStored => Result::Err(ChainError::NoResponse),
                        RequestPlan::Reuse(res, ct) => {
                            match res {
                                Result::Err(ce) => Result::Err(ce),
                                Result::Ok(b) => Result::Ok((b, ct)),
                            }
                        },
                        RequestPlan::SendFresh => {
                            if ctx.http.is_none() {
                                Result::Err(
                                    ChainError::Trigger {
                                        recipe_id: recipe,
                                        error: TriggeredRequestError::NotAllowed,
                                    },
                                )
                            } else {
                                match url_t.render_string(ctx) {
                                    Result::Err(te) => Result::Err(
                                        ChainError::Trigger {
                                            recipe_id: recipe,
                                            error: TriggeredRequestError::Build(te.message()),
                                        },
                                    ),
                                    Result::Ok(url) => {
                                        let sent = match &mut ctx.http {
                                            Option::Some(h) => h.send(&recipe, &url),
                                            Option::None => Result::Err(
                                                TriggeredRequestError::NotAllowed,
                                            ),
                                        };
                                        match sent {
                                            Result::Err(te) => Result::Err(
                                                ChainError::Trigger {
                                                    recipe_id: recipe,
                                                    error: te,
                                                },
                                            ),
                                            Result::Ok(exchange) => {
                                                let sect = extract_section(
                                                    &exchange.response,
                                                    &section,
                                                );
                                                let ct = response_content_type(
                                                    &exchange.response,
                                                    explicit_ct,
                                                );
                                                ctx.store.insert_exchange(exchange);
                                                match sect {
                                                    Result::Err(ce) => Result::Err(ce),
                                                    Result::Ok(b) => Result::Ok((b, ct)),
                                                }
                                            },
                                        }
                                    },
                                }
                            }
                        },
                    }
                },
            }
        },
        SourcePlan::Command { command, stdin } => {
            if command.len() == 0 {
                return Result::Err(ChainError::CommandMissing);
            }
            let mut args: Vec<String> = Vec::new();
            let mut i: usize = 0;
            while i < command.len()
                invariant
                    0 <= i <= command@.len(),
                    1 <= old(ctx).recursion_count,
                    ctx_frame(*old(ctx), *ctx),
                    ctx.collection == old(ctx).collection,
                    ctx.selected_profile == old(ctx).selected_profile,
                    ctx.overrides == old(ctx).overrides,
                    !(g_src@ is Request),
                decreases command@.len() - i,
            {
                match command[i].render_string(ctx) {
                    Result::Err(e) => {
                        let field = String::from_str("command[").concat(
                            chars_to_string(&u64_to_chars(i as u64)).as_str(),
                        ).concat("]");
                        return Result::Err(
                            ChainError::Nested { field, error: Box::new(e) },
                        );
                    },
                    Result::Ok(s) => {
                        args.push(s);
                    },
                }
                i += 1;
            }
            let stdin_bytes: Option<Vec<u8>> = match &stdin {
                Option::None => Option::None,
                Option::Some(t) => {
                    match t.render_string(ctx) {
                        Result::Err(e) => {
                            return Result::Err(
                                ChainError::Nested {
                                    field: String::from_str("stdin"),
                                    error: Box::new(e),
                                },
                            );
                        },
                        Result::Ok(s) => Option::Some(str_bytes(s.as_str())),
                    }
                },
            };
            match ctx.effects.run_command(&args, &stdin_bytes) {
                Result::Err(detail) => Result::Err(ChainError::Command { command: args, detail }),
                Result::Ok(bytes) => Result::Ok((bytes, explicit_ct)),
            }
        },
        SourcePlan::File { path } => {
            match path.render_string(ctx) {
                Result::Err(e) => Result::Err(
                    ChainError::Nested { field: String::from_str("path"), error: Box::new(e) },
                ),
                Result::Ok(p) => {
                    match ctx.effects.read_file(&p) {
                        Result::Err(detail) => Result::Err(ChainError::File { path: p, detail }),
                        Result::Ok(bytes) => Result::Ok((bytes, explicit_ct)),
                    }
                },
            }
        },
        SourcePlan::Environment { variable } => {
            match variable.render_string(ctx) {
                Result::Err(e) => Result::Err(
                    ChainError::Nested {
                        field: String::from_str("variable"),
                        error: Box::new(e),
                    },
                ),
                Result::Ok(var_name) => {
                    match ctx.effects.env_var(&var_name) {
                        Result::Ok(Option::Some(s)) => Result::Ok(
                            (str_bytes(s.as_str()), explicit_ct),
                        ),
                        Result::Ok(Option::None) => Result::Ok((Vec::new(), explicit_ct)),
                        Result::Err(detail) => Result::Err(
                            ChainError::Nested {
                                field: String::from_str("variable"),
                                error: Box::new(
                                    TemplateError::EnvironmentVariable {
                                        variable: var_name,
                                        detail,
                                    },
                                ),
                            },
                        ),
                    }
                },
            }
        },
        SourcePlan::Prompt { message, default } => {
            let msg: String = match &message {
                Option::None => String::new(),
                Option::Some(t) => {
                    match t.render_string(ctx) {
                        Result::Err(e) => {
                            return Result::Err(
                                ChainError::Nested {
                                    field: String::from_str("message"),
                                    error: Box::new(e),
                                },
                            );
                        },
                        Result::Ok(s) => s,
                    }
                },
            };
            let dflt: Option<String> = match &default {
                Option::None => Option::None,
                Option::Some(t) => {
                    match t.render_string(ctx) {
                        Result::Err(e) => {
                            return Result::Err(
                                ChainError::Nested {
                                    field: String::from_str("default"),
                                    error: Box::new(e),
                                },
                            );
                        },
                        Result::Ok(s) => Option::Some(s),
                    }
                },
            };
            let dflt2: Option<String> = match &dflt {
                Option::None => Option::None,
                Option::Some(s) => Option::Some(s.clone()),
            };
            let resp = ctx.prompter.prompt(
                Prompt { message: msg, default: dflt2, sensitive },
            );
            match prompt_outcome(resp, dflt) {
                Result::Err(ce) => Result::Err(ce),
                Result::Ok(s) => Result::Ok((str_bytes(s.as_str()), explicit_ct)),
            }
        },
    }
}

/// Resolve a chain key: the `chains.<id>` override short-circuits;
/// otherwise the chain runs and its output is post-processed. The
/// emitted value is sensitive exactly when the chain says so.
fn resolve_chain<E: Effects, P: Prompter, H: HttpSender>(
    id: &Identifier,
    ctx: &mut TemplateContext<E, P, H>,
) -> (r: TemplateChunk)
    requires
        1 <= old(ctx).recursion_count <= RECURSION_LIMIT,
    ensures
        ctx_frame(*old(ctx), *final(ctx)),
        r is Rendered || r is Error,
        ((r matches TemplateChunk::Error(e) && contains_recursion_limit(e)) ==> final(ctx).recursion_count == RECURSION_LIMIT),
        (override_lookup(old(ctx).overrides@, chain_override_key(id@), 0) matches Option::Some(
            v,
        ) ==> ((r matches TemplateChunk::Rendered { value, sensitive } && value@ == encode_utf8(
            v,
        ) && !sensitive) && *final(ctx) == *old(ctx))),
        ((override_lookup(old(ctx).overrides@, chain_override_key(id@), 0) is None
            && chain_index(old(ctx).collection.chains@, id@, 0) is None) ==> (r matches
            TemplateChunk::Error(TemplateError::Chain {
                chain_id,
                error: ChainError::ChainUnknown(unknown_id),
            }) && chain_id@ == id@ && unknown_id@ == id@)),
        ((r matches TemplateChunk::Rendered { value, sensitive } && sensitive) ==> {
            &&& override_lookup(old(ctx).overrides@, chain_override_key(id@), 0) is None
            &&& chain_index(old(ctx).collection.chains@, id@, 0) matches Option::Some(ci)
            &&& old(ctx).collection.chains@[ci].sensitive
        }),
        ((override_lookup(old(ctx).overrides@, chain_override_key(id@), 0) is None
            && chain_index(old(ctx).collection.chains@, id@, 0) is None) ==> *final(ctx) == *old(
            ctx,
        )),
        (override_lookup(old(ctx).overrides@, chain_override_key(id@), 0) is None ==> (
        chain_index(old(ctx).collection.chains@, id@, 0) matches Option::Some(ci)
            ==> chain_run_outcome(old(ctx).collection.chains@[ci], id@, r))),
        (override_lookup(old(ctx).overrides@, chain_override_key(id@), 0) is None ==> (
        chain_index(old(ctx).collection.chains@, id@, 0) matches Option::Some(ci) ==> (old(
            ctx,
        ).collection.chains@[ci].source matches ChainSource::Request {
            recipe,
            trigger: ChainRequestTrigger::Never,
            section,
        } ==> match crate::collection::recipe_index(
            old(ctx).collection.recipes@,
            recipe@,
            0,
        ) {
            Option::None => (r matches TemplateChunk::Error(TemplateError::Chain {
                chain_id,
                error: ChainError::RecipeUnknown(rid),
            }) && chain_id@ == id@ && rid@ == recipe@),
            Option::Some(ri) => match crate::store::latest_of(old(ctx).store@, recipe@) {
                Option::None => (r matches TemplateChunk::Error(TemplateError::Chain {
                    chain_id,
                    error: ChainError::NoResponse,
                }) && chain_id@ == id@),
                Option::Some(e) => reused_request_outcome(
                    old(ctx).collection.chains@[ci],
                    id@,
                    e.response,
                    r,
                ),
            },
        }))),
    decreases RECURSION_LIMIT - ctx.recursion_count, 4int,
{
    let id_chars = crate::parse::chars_subrange(id.chars(), 0, id.chars().len());
    proof {
        assert(id_chars@ =~= id@);
    }
    let mut key: Vec<char> = vec!['c', 'h', 'a', 'i', 'n', 's', '.'];
    crate::text::push_chars(&mut key, id.chars());
    proof {
        assert(key@ =~= chain_override_key(id@));
    }
    let over = match overrides_get(&ctx.overrides, &key) {
        Option::Some(s) => Option::Some(s.clone()),
        Option::None => Option::None,
    };
    match over {
        Option::Some(text) => {
            let value = str_bytes(text.as_str());
            return TemplateChunk::Rendered { value, sensitive: false };
        },
        Option::None => {},
    }
    let ghost chains0 = ctx.collection.chains@;
    let plan: ChainPlan = {
        match ctx.collection.find_chain(&id_chars) {
            Option::None => ChainPlan::Unknown,
            Option::Some(chain) => {
                let source: SourcePlan = match &chain.source {
                    ChainSource::Request { recipe, trigger, section } => SourcePlan::Request {
                        recipe: recipe.clone(),
                        trigger: *trigger,
                        section: section.clone(),
                    },
                    ChainSource::Command { command, stdin } => SourcePlan::Command {
                        command: clone_templates(command),
                        stdin: clone_template_opt(stdin),
                    },
                    ChainSource::File { path } => SourcePlan::File { path: path.clone() },
                    ChainSource::Environment { variable } => SourcePlan::Environment {
                        variable: variable.clone(),
                    },
                    ChainSource::Prompt { message, default } => SourcePlan::Prompt {
                        message: clone_template_opt(message),
                        default: clone_template_opt(default),
                    },
                };
                ChainPlan::Run {
                    sensitive: chain.sensitive,
                    selector: clone_selector_opt(&chain.selector),
                    content_type: chain.content_type,
                    trim: chain.trim,
                    source,
                }
            },
        }
    };
    match plan {
        ChainPlan::Unknown => {
            let inner = ChainError::ChainUnknown(id.clone());
            proof {
                assert(!chain_contains_recursion_limit(inner));
            }
            let ch = TemplateChunk::Error(
                TemplateError::Chain { chain_id: id.clone(), error: inner },
            );
            proof {
                assert((ch matches TemplateChunk::Error(e2) && contains_recursion_limit(e2))
                    ==> ctx.recursion_count == RECURSION_LIMIT);
            }
            ch
        },
        ChainPlan::Run { sensitive, selector, content_type, trim, source } => {
            let ghost g_src = source;
            let produced = run_source(source, sensitive, content_type, Ghost(g_src), ctx);
            match produced {
                Result::Err(ce) => {
                    let ghost rl = chain_contains_recursion_limit(ce);
                    let ch = TemplateChunk::Error(
                        TemplateError::Chain { chain_id: id.clone(), error: ce },
                    );
                    proof {
                        assert((ch matches TemplateChunk::Error(e2)
                            && contains_recursion_limit(e2)) ==> rl);
                        assert((ch matches TemplateChunk::Error(e2)
                            && contains_recursion_limit(e2)) ==> ctx.recursion_count
                            == RECURSION_LIMIT);
                    }
                    ch
                },
                Result::Ok((bytes, ct)) => {
                    match apply_chain_pipeline(bytes, &selector, ct, trim) {
                        Result::Err(ce) => {
                            let ghost rl = chain_contains_recursion_limit(ce);
                            let ch = TemplateChunk::Error(
                                TemplateError::Chain { chain_id: id.clone(), error: ce },
                            );
                            proof {
                                assert(!rl);
                                assert((ch matches TemplateChunk::Error(e2)
                                    && contains_recursion_limit(e2)) ==> ctx.recursion_count
                                    == RECURSION_LIMIT);
                            }
                            ch
                        },
                        Result::Ok(value) => TemplateChunk::Rendered { value, sensitive },
                    }
                },
            }
        },
    }
}

impl Template {
    /// Expand the template into one output chunk per input chunk, in
    /// source order. Raw text passes through; each key costs one
    /// expansion from the shared counter and resolves per
    /// [`chunk_resolved`]; a key reached at the limit yields exactly
    /// the recursion-limit error.
    pub fn render_chunks<E: Effects, P: Prompter, H: HttpSender>(
        &self,
        ctx: &mut TemplateContext<E, P, H>,
    ) -> (r: Vec<TemplateChunk>)
        requires
            old(ctx).recursion_count <= RECURSION_LIMIT,
        ensures
            ctx_frame(*old(ctx), *final(ctx)),
            chunks_post(
                self@,
                r@,
                old(ctx).collection.chains@,
                old(ctx).overrides@,
                final(ctx).recursion_count as int,
            ),
            exists|counts: Seq<int>, subs: Seq<KeyTrace>|
                {
                    &&& counts.len() == self@.len() + 1
                    &&& counts[0] == old(ctx).recursion_count as int
                    &&& counts.last() == final(ctx).recursion_count as int
                    &&& #[trigger] chunks_resolved_from(
                        self@,
                        r@,
                        counts,
                        subs,
                        0,
                        old(ctx).collection,
                        old(ctx).selected_profile,
                        old(ctx).overrides@,
                    )
                },
        decreases RECURSION_LIMIT - ctx.recursion_count, 0int,
    {
        let chunks = self.chunks();
        let n = chunks.len();
        let mut out: Vec<TemplateChunk> = Vec::new();
        let mut i: usize = 0;
        let ghost col = old(ctx).collection;
        let ghost sp = old(ctx).selected_profile;
        let ghost ov = old(ctx).overrides@;
        let ghost mut counts: Seq<int> = seq![old(ctx).recursion_count as int];
        let ghost mut subs: Seq<KeyTrace> = Seq::empty();
        proof {
            assert(crate::parse::chunks_view(chunks@) == self@);
            assert(counts_wf(counts));
            assert(chunks_resolved_from(self@.subrange(0, 0), out@, counts, subs, 0, col, sp, ov))
                by {
                assert(self@.subrange(0, 0).len() == 0);
                assert(out@.len() == 0);
                assert(subs.len() == 0);
            }
        }
        while i < n
            invariant
                n == chunks@.len(),
                self@ == crate::parse::chunks_view(chunks@),
                self@.len() == n,
                0 <= i <= n,
                out@.len() == i,
                ctx_frame(*old(ctx), *ctx),
                ctx.collection == old(ctx).collection,
                ctx.selected_profile == old(ctx).selected_profile,
                ctx.overrides == old(ctx).overrides,
                col == old(ctx).collection,
                sp == old(ctx).selected_profile,
                ov == old(ctx).overrides@,
                counts.len() == i + 1,
                subs.len() == i as int,
                counts[0] == old(ctx).recursion_count as int,
                counts.last() == ctx.recursion_count as int,
                chunks_resolved_from(
                    self@.subrange(0, i as int),
                    out@,
                    counts,
                    subs,
                    0,
                    col,
                    sp,
                    ov,
                ),
                forall|j: int|
                    0 <= j < i ==> chunk_shape(
                        self@[j],
                        #[trigger] out@[j],
                        old(ctx).collection.chains@,
                        old(ctx).overrides@,
                    ),
                any_recursion_limit(out@) ==> ctx.recursion_count == RECURSION_LIMIT,
            decreases n - i,
        {
            let ghost pre_out = out@;
            let ghost pre_counts = counts;
            let ghost pre_subs = subs;
            let ghost pre_count = ctx.recursion_count as int;
            let ghost mut step_tr: KeyTrace = KeyTrace::Flat;
            proof {
                assert(self@[i as int] == chunks@[i as int]@);
            }
            match &chunks[i] {
                InputChunk::Raw(s) => {
                    out.push(TemplateChunk::Raw(s.clone()));
                },
                InputChunk::Key(key) => {
                    if ctx.recursion_count >= RECURSION_LIMIT {
                        out.push(TemplateChunk::Error(TemplateError::RecursionLimit));
                    } else {
                        ctx.recursion_count = ctx.recursion_count + 1;
                        let ghost c_mid = ctx.recursion_count as int;
                        let chunk = render_key(key, ctx);
                        proof {
                            step_tr = choose|trx: KeyTrace|
                                #[trigger] chunk_resolved_tr(
                                    key@,
                                    chunk,
                                    trx,
                                    col,
                                    sp,
                                    ov,
                                    c_mid,
                                    ctx.recursion_count as int,
                                );
                        }
                        out.push(chunk);
                    }
                },
            }
            proof {
                counts = counts.push(ctx.recursion_count as int);
                subs = subs.push(step_tr);
                assert(forall|j: int| 0 <= j < i ==> out@[j] == pre_out[j]);
                lemma_chunks_resolved_snoc(
                    self@.subrange(0, i as int),
                    pre_out,
                    pre_counts,
                    pre_subs,
                    col,
                    sp,
                    ov,
                    self@[i as int],
                    out@.last(),
                    step_tr,
                    ctx.recursion_count as int,
                );
                assert(self@.subrange(0, i as int).push(self@[i as int]) =~= self@.subrange(
                    0,
                    i + 1 as int,
                ));
                assert(pre_out.push(out@.last()) =~= out@);
                assert(chunks_resolved_from(
                    self@.subrange(0, i + 1 as int),
                    out@,
                    counts,
                    subs,
                    0,
                    col,
                    sp,
                    ov,
                ));
                if any_recursion_limit(out@) {
                    let w = choose|w: int|
                        0 <= w < out@.len() && ((#[trigger] out@[w]) matches TemplateChunk::Error(
                            e,
                        ) && contains_recursion_limit(e));
                    if w < i {
                        assert(any_recursion_limit(pre_out));
                    }
                }
            }
            i += 1;
        }
        proof {
            assert(self@.subrange(0, n as int) =~= self@);
        }
        out
    }

    /// Flatten to bytes: the chunks' bytes concatenated, or the first
    /// chunk's error.
    pub fn render<E: Effects, P: Prompter, H: HttpSender>(
        &self,
        ctx: &mut TemplateContext<E, P, H>,
    ) -> (r: Result<Vec<u8>, TemplateError>)
        requires
            old(ctx).recursion_count <= RECURSION_LIMIT,
        ensures
            ctx_frame(*old(ctx), *final(ctx)),
            exists|outs: Seq<TemplateChunk>, counts: Seq<int>, subs: Seq<KeyTrace>|
                #[trigger] render_bytes_post(
                    self@,
                    outs,
                    counts,
                    subs,
                    r,
                    old(ctx).collection,
                    old(ctx).selected_profile,
                    old(ctx).overrides@,
                    old(ctx).recursion_count as int,
                    final(ctx).recursion_count as int,
                ),
            all_raw(self@) ==> (r matches Result::Ok(b) && b@ == encode_utf8(raw_concat(self@))),
            ((r matches Result::Err(e) && contains_recursion_limit(e)) ==> final(ctx).recursion_count == RECURSION_LIMIT),
        decreases RECURSION_LIMIT - ctx.recursion_count, 1int,
    {
        let ghost cs = self@;
        let outs = self.render_chunks(ctx);
        let ghost og = outs@;
        let ghost (counts, subs) = choose|counts: Seq<int>, subs: Seq<KeyTrace>|
            {
                &&& counts.len() == cs.len() + 1
                &&& counts[0] == old(ctx).recursion_count as int
                &&& counts.last() == ctx.recursion_count as int
                &&& #[trigger] chunks_resolved_from(
                    cs,
                    og,
                    counts,
                    subs,
                    0,
                    old(ctx).collection,
                    old(ctx).selected_profile,
                    old(ctx).overrides@,
                )
            };
        let r = flatten(outs, Ghost(og));
        proof {
            lemma_flatten_err_in(og);
            if all_raw(cs) {
                lemma_flatten_all_raw(cs, og, old(ctx).collection.chains@, old(ctx).overrides@);
            }
            assert(render_bytes_post(
                cs,
                og,
                counts,
                subs,
                r,
                old(ctx).collection,
                old(ctx).selected_profile,
                old(ctx).overrides@,
                old(ctx).recursion_count as int,
                ctx.recursion_count as int,
            ));
            if r is Err && contains_recursion_limit(r->Err_0) {
                assert(any_recursion_limit(og));
            }
        }
        r
    }

    /// Flatten to a string: fails with the first chunk error, or with
    /// the UTF-8 error if the bytes do not decode.
    pub fn render_string<E: Effects, P: Prompter, H: HttpSender>(
        &self,
        ctx: &mut TemplateContext<E, P, H>,
    ) -> (r: Result<String, TemplateError>)
        requires
            old(ctx).recursion_count <= RECURSION_LIMIT,
        ensures
            ctx_frame(*old(ctx), *final(ctx)),
            exists|outs: Seq<TemplateChunk>, counts: Seq<int>, subs: Seq<KeyTrace>|
                #[trigger] render_string_post(
                    self@,
                    outs,
                    counts,
                    subs,
                    r,
                    old(ctx).collection,
                    old(ctx).selected_profile,
                    old(ctx).overrides@,
                    old(ctx).recursion_count as int,
                    final(ctx).recursion_count as int,
                ),
            all_raw(self@) ==> (r matches Result::Ok(s) && s@ == raw_concat(self@)),
            ((r matches Result::Err(e) && contains_recursion_limit(e)) ==> final(ctx).recursion_count == RECURSION_LIMIT),
        decreases RECURSION_LIMIT - ctx.recursion_count, 2int,
    {
        let ghost cs = self@;
        let ghost col = old(ctx).collection;
        let ghost sp = old(ctx).selected_profile;
        let ghost ov = old(ctx).overrides@;
        let ghost c0 = old(ctx).recursion_count as int;
        let rb = self.render(ctx);
        let ghost c_end = ctx.recursion_count as int;
        let ghost (outs, counts, subs) = choose|
            outs: Seq<TemplateChunk>,
            counts: Seq<int>,
            subs: Seq<KeyTrace>,
        |
            #[trigger] render_bytes_post(cs, outs, counts, subs, rb, col, sp, ov, c0, c_end);
        match rb {
            Result::Err(e) => {
                let r = Result::<String, TemplateError>::Err(e);
                proof {
                    assert(render_string_post(cs, outs, counts, subs, r, col, sp, ov, c0, c_end));
                }
                r
            },
            Result::Ok(bytes) => {
                let ghost bv = bytes@;
                let conv = bytes_to_string(bytes);
                match conv {
                    Result::Ok(s) => {
                        let r = Result::<String, TemplateError>::Ok(s);
                        proof {
                            if all_raw(cs) {
                                vstd::utf8::encode_utf8_valid_utf8(raw_concat(cs));
                                vstd::utf8::encode_utf8_decode_utf8(raw_concat(cs));
                            }
                            assert(render_string_post(
                                cs,
                                outs,
                                counts,
                                subs,
                                r,
                                col,
                                sp,
                                ov,
                                c0,
                                c_end,
                            ));
                        }
                        r
                    },
                    Result::Err(detail) => {
                        let r = Result::<String, TemplateError>::Err(
                            TemplateError::InvalidUtf8 { detail },
                        );
                        proof {
                            assert(render_string_post(
                                cs,
                                outs,
                                counts,
                                subs,
                                r,
                                col,
                                sp,
                                ov,
                                c0,
                                c_end,
                            ));
                            assert(!all_raw(cs)) by {
                                if all_raw(cs) {
                                    vstd::utf8::encode_utf8_valid_utf8(raw_concat(cs));
                                }
                            }
                        }
                        r
                    },
                }
            },
        }
    }
}

} // verus!
