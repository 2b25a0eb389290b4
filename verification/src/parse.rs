//! The template grammar.
//!
//! A source string is a sequence of literal text, escapes and keys:
//!
//! - a key is `{{` *body* `}}`, where *body* is `ident`, `chains.ident`
//!   or `env.ident`;
//! - a backslash before `{{` escapes the opening: `\{{x}}` yields the
//!   raw characters `{{x}}`; before any other character the backslash
//!   is kept verbatim;
//! - anything else is literal text.
//!
//! Consecutive literal characters coalesce into one raw chunk; a key
//! yields exactly one key chunk; empty input yields no chunks.

use vstd::prelude::*;
use crate::ident::{is_valid_ident, Identifier};
use crate::text::{chars_to_string, u64_to_chars};

verus! {

/// Mathematical model of one parsed chunk.
pub enum ChunkModel {
    /// Literal text, escapes already resolved.
    RawText(Seq<char>),
    /// `{{ident}}`: a profile field or override.
    FieldKey(Seq<char>),
    /// `{{chains.ident}}`: a chain in the collection.
    ChainKey(Seq<char>),
    /// `{{env.ident}}`: a process environment variable.
    EnvKey(Seq<char>),
}

/// A parsed template key. The variant determines how the key is
/// resolved into a value during rendering.
#[derive(Debug, PartialEq, Eq)]
pub enum TemplateKey {
    /// A plain field, from the selected profile or an override.
    Field(Identifier),
    /// A value produced by a chain of the collection.
    Chain(Identifier),
    /// A value pulled from the process environment.
    Environment(Identifier),
}

/// One chunk of a parsed template: literal text or a key.
#[derive(Debug, PartialEq, Eq)]
pub enum InputChunk {
    /// Literal text with escape sequences already resolved.
    Raw(String),
    /// A parsed key.
    Key(TemplateKey),
}

impl View for InputChunk {
    type V = ChunkModel;

    open spec fn view(&self) -> ChunkModel {
        match self {
            InputChunk::Raw(s) => ChunkModel::RawText(s@),
            InputChunk::Key(k) => k@,
        }
    }
}

impl View for TemplateKey {
    type V = ChunkModel;

    open spec fn view(&self) -> ChunkModel {
        match self {
            TemplateKey::Field(id) => ChunkModel::FieldKey(id@),
            TemplateKey::Chain(id) => ChunkModel::ChainKey(id@),
            TemplateKey::Environment(id) => ChunkModel::EnvKey(id@),
        }
    }
}

impl Clone for TemplateKey {
    fn clone(&self) -> (r: Self)
        ensures
            r@ == self@,
    {
        match self {
            TemplateKey::Field(id) => TemplateKey::Field(id.clone()),
            TemplateKey::Chain(id) => TemplateKey::Chain(id.clone()),
            TemplateKey::Environment(id) => TemplateKey::Environment(id.clone()),
        }
    }
}

impl Clone for InputChunk {
    fn clone(&self) -> (r: Self)
        ensures
            r@ == self@,
    {
        match self {
            InputChunk::Raw(s) => InputChunk::Raw(s.clone()),
            InputChunk::Key(k) => InputChunk::Key(k.clone()),
        }
    }
}

/// The view of a chunk vector.
pub open spec fn chunks_view(v: Seq<InputChunk>) -> Seq<ChunkModel> {
    v.map_values(|c: InputChunk| c@)
}

/// The characters `chains.`, the prefix of a chain key body.
pub open spec fn chain_prefix() -> Seq<char> {
    seq!['c', 'h', 'a', 'i', 'n', 's', '.']
}

/// The characters `env.`, the prefix of an environment key body.
pub open spec fn env_prefix() -> Seq<char> {
    seq!['e', 'n', 'v', '.']
}

/// The index of the first `}}` in `s`, if any.
pub open spec fn find_close(s: Seq<char>) -> Option<nat>
    decreases s.len(),
{
    if s.len() < 2 {
        Option::None
    } else if s[0] == '}' && s[1] == '}' {
        Option::Some(0 as nat)
    } else {
        match find_close(s.drop_first()) {
            Option::Some(i) => Option::Some((i + 1) as nat),
            Option::None => Option::None,
        }
    }
}

/// Parse a key body (the text between `{{` and `}}`).
pub open spec fn parse_key_model(body: Seq<char>) -> Option<ChunkModel> {
    if body.len() >= 7 && body.subrange(0, 7) == chain_prefix() {
        if is_valid_ident(body.skip(7)) {
            Option::Some(ChunkModel::ChainKey(body.skip(7)))
        } else {
            Option::None
        }
    } else if body.len() >= 4 && body.subrange(0, 4) == env_prefix() {
        if is_valid_ident(body.skip(4)) {
            Option::Some(ChunkModel::EnvKey(body.skip(4)))
        } else {
            Option::None
        }
    } else if is_valid_ident(body) {
        Option::Some(ChunkModel::FieldKey(body))
    } else {
        Option::None
    }
}

/// Merge raw text onto the front of a chunk sequence, coalescing with
/// a leading raw chunk.
pub open spec fn raw_merge(cur: Seq<char>, cs: Seq<ChunkModel>) -> Seq<ChunkModel> {
    if cur.len() == 0 {
        cs
    } else if cs.len() > 0 && cs[0] is RawText {
        seq![ChunkModel::RawText(cur + cs[0]->RawText_0)] + cs.drop_first()
    } else {
        seq![ChunkModel::RawText(cur)] + cs
    }
}

/// Prepend raw text to a parse result.
pub open spec fn prepend_raw(t: Seq<char>, rest: Option<Seq<ChunkModel>>) -> Option<
    Seq<ChunkModel>,
> {
    match rest {
        Option::Some(cs) => Option::Some(raw_merge(t, cs)),
        Option::None => Option::None,
    }
}

/// Prepend a key chunk to a parse result.
pub open spec fn prepend_key(k: ChunkModel, rest: Option<Seq<ChunkModel>>) -> Option<
    Seq<ChunkModel>,
> {
    match rest {
        Option::Some(cs) => Option::Some(seq![k] + cs),
        Option::None => Option::None,
    }
}

/// The parse function of the template grammar: `None` is a parse
/// error (unterminated `{{`, malformed key or invalid identifier).
pub open spec fn parse_chunks(s: Seq<char>) -> Option<Seq<ChunkModel>>
    decreases s.len(),
{
    if s.len() == 0 {
        Option::Some(Seq::empty())
    } else if s[0] == '\\' {
        if s.len() >= 3 && s[1] == '{' && s[2] == '{' {
            prepend_raw(seq!['{', '{'], parse_chunks(s.skip(3)))
        } else if s.len() >= 2 {
            prepend_raw(s.subrange(0, 2), parse_chunks(s.skip(2)))
        } else {
            Option::Some(seq![ChunkModel::RawText(seq!['\\'])])
        }
    } else if s.len() >= 2 && s[0] == '{' && s[1] == '{' {
        match find_close(s.skip(2)) {
            Option::Some(i) => {
                let after: int = if 2 + i + 2 <= s.len() {
                    2 + i as int + 2
                } else {
                    s.len() as int
                };
                match parse_key_model(s.skip(2).subrange(0, i as int)) {
                    Option::Some(k) => prepend_key(k, parse_chunks(s.skip(after))),
                    Option::None => Option::None,
                }
            },
            Option::None => Option::None,
        }
    } else {
        prepend_raw(seq![s[0]], parse_chunks(s.skip(1)))
    }
}

/// If no adjacent pair `}}` exists, `find_close` finds nothing.
pub(crate) proof fn lemma_find_close_none(s: Seq<char>)
    requires
        forall|j: int| 0 <= j && j + 1 < s.len() ==> !(#[trigger] s[j] == '}' && s[j + 1] == '}'),
    ensures
        find_close(s) is None,
    decreases s.len(),
{
    if s.len() >= 2 {
        assert(!(s[0] == '}' && s[1] == '}'));
        let t = s.drop_first();
        assert(forall|j: int| 0 <= j && j + 1 < t.len() ==> !(#[trigger] t[j] == '}' && t[j + 1] == '}'))
            by {
            assert(forall|j: int| 0 <= j && j + 1 < t.len() ==> #[trigger] t[j] == s[j + 1] && t[j + 1]
                == s[j + 2]);
        }
        lemma_find_close_none(t);
    }
}

/// `find_close` returns the first adjacent pair `}}`.
pub(crate) proof fn lemma_find_close_some(s: Seq<char>, k: int)
    requires
        0 <= k,
        k + 1 < s.len(),
        s[k] == '}',
        s[k + 1] == '}',
        forall|j: int| 0 <= j < k ==> !(#[trigger] s[j] == '}' && s[j + 1] == '}'),
    ensures
        find_close(s) == Option::Some(k as nat),
    decreases k,
{
    if k == 0 {
    } else {
        assert(!(s[0] == '}' && s[1] == '}'));
        let t = s.drop_first();
        assert(t[k - 1] == '}' && t[k] == '}');
        assert(forall|j: int| 0 <= j < k - 1 ==> !(#[trigger] t[j] == '}' && t[j + 1] == '}')) by {
            assert(forall|j: int| 0 <= j < k - 1 ==> #[trigger] t[j] == s[j + 1] && t[j + 1] == s[j + 2]);
        }
        lemma_find_close_some(t, k - 1);
    }
}

/// Merging one run of raw text and then another is merging their
/// concatenation.
pub(crate) proof fn lemma_raw_merge_assoc(a: Seq<char>, b: Seq<char>, cs: Seq<ChunkModel>)
    ensures
        raw_merge(a, raw_merge(b, cs)) == raw_merge(a + b, cs),
{
    if a.len() == 0 {
        assert(a + b =~= b);
    } else if b.len() == 0 {
        assert(a + b =~= a);
    } else if cs.len() > 0 && cs[0] is RawText {
        assert(raw_merge(b, cs) == seq![ChunkModel::RawText(b + cs[0]->RawText_0)]
            + cs.drop_first());
        assert(raw_merge(a, raw_merge(b, cs)) == seq![
            ChunkModel::RawText(a + (b + cs[0]->RawText_0)),
        ] + cs.drop_first());
        assert(a + (b + cs[0]->RawText_0) =~= (a + b) + cs[0]->RawText_0);
    } else {
        assert(raw_merge(b, cs) == seq![ChunkModel::RawText(b)] + cs);
        assert((seq![ChunkModel::RawText(b)] + cs)[0] == ChunkModel::RawText(b));
        assert(raw_merge(a, raw_merge(b, cs)) == seq![ChunkModel::RawText(a + b)] + (seq![
            ChunkModel::RawText(b),
        ] + cs).drop_first());
        assert((seq![ChunkModel::RawText(b)] + cs).drop_first() =~= cs);
    }
}



/// Copy `v[from..to]` into a new vector.
pub fn chars_subrange(v: &Vec<char>, from: usize, to: usize) -> (r: Vec<char>)
    requires
        from <= to <= v@.len(),
    ensures
        r@ == v@.subrange(from as int, to as int),
{
    let mut r: Vec<char> = Vec::new();
    let mut i: usize = from;
    while i < to
        invariant
            from <= i <= to <= v@.len(),
            r@ == v@.subrange(from as int, i as int),
        decreases to - i,
    {
        r.push(v[i]);
        proof {
            assert(r@ =~= v@.subrange(from as int, i + 1 as int));
        }
        i += 1;
    }
    r
}

/// Parse the text between `{{` and `}}` into a key.
fn parse_key_chars(body: &Vec<char>) -> (r: Option<TemplateKey>)
    ensures
        match r {
            Option::Some(k) => parse_key_model(body@) == Option::Some(k@),
            Option::None => parse_key_model(body@) is None,
        },
{
    let chain_p: Vec<char> = vec!['c', 'h', 'a', 'i', 'n', 's', '.'];
    let env_p: Vec<char> = vec!['e', 'n', 'v', '.'];
    proof {
        assert(chain_p@ =~= chain_prefix());
        assert(env_p@ =~= env_prefix());
    }
    if crate::text::chars_start_with(body, &chain_p) {
        let rest = chars_subrange(body, 7, body.len());
        proof {
            assert(rest@ =~= body@.skip(7));
        }
        match Identifier::parse(&rest) {
            Option::Some(id) => Option::Some(TemplateKey::Chain(id)),
            Option::None => Option::None,
        }
    } else if crate::text::chars_start_with(body, &env_p) {
        let rest = chars_subrange(body, 4, body.len());
        proof {
            assert(rest@ =~= body@.skip(4));
        }
        match Identifier::parse(&rest) {
            Option::Some(id) => Option::Some(TemplateKey::Environment(id)),
            Option::None => Option::None,
        }
    } else {
        match Identifier::parse(body) {
            Option::Some(id) => Option::Some(TemplateKey::Field(id)),
            Option::None => Option::None,
        }
    }
}

/// Glue an accumulator, pending raw text and the parse of the rest
/// into one parse result.
pub open spec fn glue(done: Seq<ChunkModel>, cur: Seq<char>, rest: Option<Seq<ChunkModel>>) -> Option<
    Seq<ChunkModel>,
> {
    match rest {
        Option::Some(cs) => Option::Some(done + raw_merge(cur, cs)),
        Option::None => Option::None,
    }
}

/// Parse a source string into its chunk sequence; the error carries a
/// position report.
#[verifier::rlimit(80)]
pub fn parse_template_chars(chars: &Vec<char>) -> (r: Result<Vec<InputChunk>, String>)
    ensures
        match r {
            Result::Ok(cs) => parse_chunks(chars@) == Option::Some(chunks_view(cs@)),
            Result::Err(_) => parse_chunks(chars@) is None,
        },
{
    let n = chars.len();
    let mut acc: Vec<InputChunk> = Vec::new();
    let mut cur: Vec<char> = Vec::new();
    let mut i: usize = 0;
    proof {
        assert(chars@.skip(0) =~= chars@);
        assert(chunks_view(acc@) =~= Seq::<ChunkModel>::empty());
        match parse_chunks(chars@) {
            Option::Some(cs) => {
                assert(Seq::<ChunkModel>::empty() + raw_merge(cur@, cs) =~= cs);
            },
            Option::None => {},
        }
    }
    while i < n
        invariant
            n == chars@.len(),
            0 <= i <= n,
            glue(chunks_view(acc@), cur@, parse_chunks(chars@.skip(i as int))) == parse_chunks(
                chars@,
            ),
        decreases n - i,
    {
        let ghost pre_acc = chunks_view(acc@);
        let ghost pre_cur = cur@;
        let ghost s = chars@.skip(i as int);
        proof {
            assert(s.len() == n - i);
            assert(forall|j: int| 0 <= j < s.len() ==> s[j] == chars@[i + j]);
        }
        let c = chars[i];
        if c == '\\' {
            if n - i > 2 && chars[i + 1] == '{' && chars[i + 2] == '{' {
                cur.push('{');
                cur.push('{');
                proof {
                    assert(s[0] == '\\' && s[1] == '{' && s[2] == '{');
                    assert(parse_chunks(s) == prepend_raw(
                        seq!['{', '{'],
                        parse_chunks(s.skip(3)),
                    ));
                    assert(s.skip(3) =~= chars@.skip(i + 3));
                    assert(cur@ =~= pre_cur + seq!['{', '{']);
                    lemma_glue_push(pre_acc, pre_cur, seq!['{', '{'], parse_chunks(s.skip(3)));
                }
                i += 3;
            } else if n - i > 1 {
                cur.push('\\');
                cur.push(chars[i + 1]);
                proof {
                    assert(s[0] == '\\');
                    assert(s.len() >= 2);
                    assert(!(s.len() >= 3 && s[1] == '{' && s[2] == '{'));
                    assert(parse_chunks(s) == prepend_raw(
                        s.subrange(0, 2),
                        parse_chunks(s.skip(2)),
                    ));
                    assert(s.skip(2) =~= chars@.skip(i + 2));
                    assert(cur@ =~= pre_cur + s.subrange(0, 2));
                    lemma_glue_push(pre_acc, pre_cur, s.subrange(0, 2), parse_chunks(s.skip(2)));
                }
                i += 2;
            } else {
                cur.push('\\');
                proof {
                    assert(s.len() == 1 && s[0] == '\\');
                    assert(parse_chunks(s) == Option::Some(
                        seq![ChunkModel::RawText(seq!['\\'])],
                    ));
                    assert(s.skip(1) =~= chars@.skip(i + 1));
                    assert(chars@.skip(i + 1).len() == 0);
                    assert(parse_chunks(chars@.skip(i + 1)) == Option::Some(
                        Seq::<ChunkModel>::empty(),
                    ));
                    assert(raw_merge(seq!['\\'], Seq::<ChunkModel>::empty()) =~= seq![
                        ChunkModel::RawText(seq!['\\']),
                    ]);
                    assert(cur@ =~= pre_cur + seq!['\\']);
                    lemma_glue_push(pre_acc, pre_cur, seq!['\\'], parse_chunks(chars@.skip(i + 1)));
                }
                i += 1;
            }
        } else if c == '{' && n - i > 1 && chars[i + 1] == '{' {
            // scan for the closing `}}`
            let mut j: usize = i + 2;
            while j < n - 1 && !(chars[j] == '}' && chars[j + 1] == '}')
                invariant
                    i + 2 <= j,
                    j <= n == chars@.len(),
                    n >= 2,
                    forall|m: int| i + 2 <= m < j ==> !(#[trigger] chars@[m] == '}' && chars@[m
                        + 1] == '}'),
                decreases n - j,
            {
                j += 1;
            }
            let found: bool = j < n - 1;
            let ghost body_s = s.skip(2);
            proof {
                assert(body_s =~= chars@.skip(i + 2));
                assert(s[0] == '{' && s[1] == '{');
            }
            match found {
                false => {
                    proof {
                        assert(forall|m: int| 0 <= m && m + 1 < body_s.len() ==> !(
                        #[trigger] body_s[m] == '}' && body_s[m + 1] == '}')) by {
                            assert(forall|m: int| 0 <= m && m + 1 < body_s.len() ==> #[trigger] body_s[m]
                                == chars@[i + 2 + m] && body_s[m + 1] == chars@[i + 2 + m + 1]);
                        }
                        lemma_find_close_none(body_s);
                        assert(parse_chunks(s) is None);
                    }
                    let mut msg = chars_to_string(&u64_to_chars(i as u64));
                    let out = String::from_str("template parse error: key opened at position ");
                    return Result::Err(out.concat(msg.as_str()).concat(" is never closed"));
                },
                true => {
                    let jc: usize = j;
                    proof {
                        let k = jc - (i + 2);
                        assert(body_s[k] == chars@[i + 2 + k]);
                        assert(body_s[k + 1] == chars@[i + 2 + k + 1]);
                        assert(forall|m: int| 0 <= m < k ==> !(#[trigger] body_s[m] == '}'
                            && body_s[m + 1] == '}')) by {
                            assert(forall|m: int| 0 <= m < k ==> #[trigger] body_s[m] == chars@[i + 2 + m]
                                && body_s[m + 1] == chars@[i + 2 + m + 1]);
                        }
                        lemma_find_close_some(body_s, k);
                    }
                    let body = chars_subrange(chars, i + 2, jc);
                    proof {
                        let k = jc - (i + 2);
                        assert(body@ =~= body_s.subrange(0, k));
                    }
                    match parse_key_chars(&body) {
                        Option::None => {
                            proof {
                                assert(parse_chunks(s) is None);
                            }
                            let msg = chars_to_string(&u64_to_chars(i as u64));
                            let out = String::from_str(
                                "template parse error: malformed key at position ",
                            );
                            return Result::Err(out.concat(msg.as_str()));
                        },
                        Option::Some(key) => {
                            if cur.len() > 0 {
                                acc.push(InputChunk::Raw(chars_to_string(&cur)));
                                cur = Vec::new();
                            }
                            acc.push(InputChunk::Key(key));
                            proof {
                                let k = jc - (i + 2);
                                assert(parse_chunks(s) == prepend_key(
                                    key@,
                                    parse_chunks(s.skip(2 + k + 2)),
                                ));
                                assert(s.skip(2 + k + 2) =~= chars@.skip(jc + 2));
                                lemma_glue_key(
                                    pre_acc,
                                    pre_cur,
                                    key@,
                                    parse_chunks(chars@.skip(jc + 2)),
                                );
                                assert(chunks_view(acc@) =~= pre_acc + raw_merge_closed(pre_cur)
                                    + seq![key@]);
                            }
                            i = jc + 2;
                        },
                    }
                },
            }
        } else {
            cur.push(c);
            proof {
                assert(s[0] == c);
                assert(s[0] != '\\');
                assert(!(s.len() >= 2 && s[0] == '{' && s[1] == '{'));
                assert(parse_chunks(s) == prepend_raw(seq![s[0]], parse_chunks(s.skip(1))));
                assert(s.skip(1) =~= chars@.skip(i + 1));
                assert(cur@ =~= pre_cur + seq![c]);
                lemma_glue_push(pre_acc, pre_cur, seq![c], parse_chunks(chars@.skip(i + 1)));
            }
            i += 1;
        }
    }
    proof {
        assert(chars@.skip(i as int).len() == 0);
        assert(parse_chunks(chars@.skip(i as int)) == Option::Some(Seq::<ChunkModel>::empty()));
    }
    if cur.len() > 0 {
        let ghost pre_acc = chunks_view(acc@);
        acc.push(InputChunk::Raw(chars_to_string(&cur)));
        proof {
            assert(raw_merge(cur@, Seq::<ChunkModel>::empty()) =~= seq![ChunkModel::RawText(cur@)]);
            assert(chunks_view(acc@) =~= pre_acc + seq![ChunkModel::RawText(cur@)]);
        }
    } else {
        proof {
            assert(raw_merge(cur@, Seq::<ChunkModel>::empty()) =~= Seq::<ChunkModel>::empty());
            assert(chunks_view(acc@) + Seq::<ChunkModel>::empty() =~= chunks_view(acc@));
        }
    }
    Result::Ok(acc)
}

/// The raw text still pending, as a chunk sequence of its own.
pub open spec fn raw_merge_closed(cur: Seq<char>) -> Seq<ChunkModel> {
    if cur.len() == 0 {
        Seq::empty()
    } else {
        seq![ChunkModel::RawText(cur)]
    }
}

/// Extending the pending raw text commutes with gluing.
proof fn lemma_glue_push(
    done: Seq<ChunkModel>,
    cur: Seq<char>,
    t: Seq<char>,
    rest: Option<Seq<ChunkModel>>,
)
    requires
        t.len() > 0,
    ensures
        glue(done, cur + t, rest) == glue(done, cur, prepend_raw(t, rest)),
{
    match rest {
        Option::Some(cs) => {
            lemma_raw_merge_assoc(cur, t, cs);
        },
        Option::None => {},
    }
}

/// Closing the pending raw text and appending a key commutes with
/// gluing.
proof fn lemma_glue_key(
    done: Seq<ChunkModel>,
    cur: Seq<char>,
    k: ChunkModel,
    rest: Option<Seq<ChunkModel>>,
)
    requires
        !(k is RawText),
    ensures
        glue(done + raw_merge_closed(cur) + seq![k], Seq::empty(), rest) == glue(
            done,
            cur,
            prepend_key(k, rest),
        ),
{
    match rest {
        Option::Some(cs) => {
            let withk = seq![k] + cs;
            assert(withk[0] == k);
            if cur.len() == 0 {
                assert(raw_merge(cur, withk) == withk);
                assert(raw_merge(Seq::empty(), cs) == cs);
                assert((done + raw_merge_closed(cur) + seq![k]) + cs =~= done + raw_merge(
                    cur,
                    withk,
                ));
            } else {
                assert(raw_merge(cur, withk) == seq![ChunkModel::RawText(cur)] + withk);
                assert((done + raw_merge_closed(cur) + seq![k]) + cs =~= done + (seq![
                    ChunkModel::RawText(cur),
                ] + withk));
            }
        },
        Option::None => {},
    }
}

} // verus!
