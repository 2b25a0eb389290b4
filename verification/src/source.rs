//! Canonical source form of a parsed template.
//!
//! Serialization concatenates each chunk's source text: a key emits
//! `{{body}}`; raw text is escaped so the result parses back to the
//! same chunks. Escaped brace pairs are right-aligned within each
//! brace run, and a brace run that follows a backslash keeps its
//! first brace paired with that backslash, so the parser's escape
//! rule reconstructs the original text.

use vstd::prelude::*;
use crate::parse::{
    chain_prefix, chunks_view, env_prefix, ChunkModel, InputChunk, TemplateKey,
};
use crate::text::str_chars;

verus! {

/// The length of the run of `{` characters at the front of `t`.
pub open spec fn brun(t: Seq<char>) -> nat
    decreases t.len(),
{
    if t.len() > 0 && t[0] == '{' {
        1 + brun(t.drop_first())
    } else {
        0
    }
}

/// `k / 2` copies of the escaped brace pair `\{{`.
pub open spec fn pairs(k: nat) -> Seq<char>
    decreases k,
{
    if k < 2 {
        Seq::empty()
    } else {
        seq!['\\', '{', '{'] + pairs((k - 2) as nat)
    }
}

/// A run of `n` left braces.
pub open spec fn braces(n: nat) -> Seq<char> {
    Seq::new(n, |i: int| '{')
}

/// Escape raw text so that it parses back to itself.
pub open spec fn escape_raw(t: Seq<char>) -> Seq<char>
    decreases t.len(),
{
    if t.len() == 0 {
        Seq::empty()
    } else if t[0] == '\\' {
        if t.len() == 1 {
            seq!['\\']
        } else if t[1] == '{' {
            let n = brun(t.skip(1));
            let step: int = if 1 + n <= t.len() {
                1 + n as int
            } else {
                t.len() as int
            };
            if n % 2 == 1 {
                seq!['\\', '{'] + pairs((n - 1) as nat) + escape_raw(t.skip(step))
            } else {
                seq!['\\', '{'] + pairs((n - 2) as nat) + seq!['{'] + escape_raw(t.skip(step))
            }
        } else {
            seq!['\\'] + escape_raw(t.skip(1))
        }
    } else if t[0] == '{' {
        let n = brun(t);
        let step: int = if n <= t.len() {
            n as int
        } else {
            t.len() as int
        };
        if n % 2 == 1 {
            seq!['{'] + pairs((n - 1) as nat) + escape_raw(t.skip(step))
        } else {
            pairs(n) + escape_raw(t.skip(step))
        }
    } else {
        seq![t[0]] + escape_raw(t.skip(1))
    }
}

/// The canonical source text of one chunk.
pub open spec fn serialize_chunk(c: ChunkModel) -> Seq<char> {
    match c {
        ChunkModel::RawText(t) => escape_raw(t),
        ChunkModel::FieldKey(id) => seq!['{', '{'] + id + seq!['}', '}'],
        ChunkModel::ChainKey(id) => seq!['{', '{'] + chain_prefix() + id + seq!['}', '}'],
        ChunkModel::EnvKey(id) => seq!['{', '{'] + env_prefix() + id + seq!['}', '}'],
    }
}

/// The canonical source text of a chunk sequence.
pub open spec fn serialize_chunks(cs: Seq<ChunkModel>) -> Seq<char>
    decreases cs.len(),
{
    if cs.len() == 0 {
        Seq::empty()
    } else {
        serialize_chunk(cs[0]) + serialize_chunks(cs.drop_first())
    }
}

/// Serializing one more chunk appends its source text.
pub proof fn lemma_serialize_snoc(cs: Seq<ChunkModel>, c: ChunkModel)
    ensures
        serialize_chunks(cs.push(c)) == serialize_chunks(cs) + serialize_chunk(c),
    decreases cs.len(),
{
    if cs.len() == 0 {
        assert(cs.push(c).drop_first() =~= Seq::<ChunkModel>::empty());
        assert(cs.push(c)[0] == c);
        assert(serialize_chunks(cs.push(c)) == serialize_chunk(c) + serialize_chunks(
            Seq::<ChunkModel>::empty(),
        ));
        assert(serialize_chunk(c) + serialize_chunks(Seq::<ChunkModel>::empty()) =~= serialize_chunk(
            c,
        ));
        assert(serialize_chunks(cs) + serialize_chunk(c) =~= serialize_chunk(c));
    } else {
        assert(cs.push(c)[0] == cs[0]);
        assert(cs.push(c).drop_first() =~= cs.drop_first().push(c));
        lemma_serialize_snoc(cs.drop_first(), c);
        assert(serialize_chunk(cs[0]) + (serialize_chunks(cs.drop_first()) + serialize_chunk(c))
            =~= (serialize_chunk(cs[0]) + serialize_chunks(cs.drop_first())) + serialize_chunk(c));
    }
}

/// Facts about the front brace run.
pub(crate) proof fn lemma_brun(t: Seq<char>)
    ensures
        brun(t) <= t.len(),
        forall|i: int| 0 <= i < brun(t) ==> t[i] == '{',
        brun(t) < t.len() ==> t[brun(t) as int] != '{',
        t.len() > 0 && t[0] == '{' ==> brun(t) >= 1,
    decreases t.len(),
{
    if t.len() > 0 && t[0] == '{' {
        let u = t.drop_first();
        lemma_brun(u);
        assert(forall|i: int| 1 <= i < brun(t) ==> t[i] == u[i - 1]);
        assert(brun(t) < t.len() ==> t[brun(t) as int] == u[brun(t) - 1]);
    }
}

/// A scanned run of braces is the front brace run.
pub(crate) proof fn lemma_brun_of(t: Seq<char>, k: nat)
    requires
        k <= t.len(),
        forall|m: int| 0 <= m < k ==> t[m] == '{',
        k < t.len() ==> t[k as int] != '{',
    ensures
        brun(t) == k,
    decreases k,
{
    if k == 0 {
    } else {
        let u = t.drop_first();
        assert(forall|m: int| 0 <= m < k - 1 ==> u[m] == t[m + 1]);
        assert(k - 1 < u.len() ==> u[k - 1] == t[k as int]);
        lemma_brun_of(u, (k - 1) as nat);
    }
}

/// Appending one escaped pair on the right.
pub proof fn lemma_pairs_snoc(k: nat)
    ensures
        pairs(k + 2) == pairs(k) + seq!['\\', '{', '{'],
    decreases k,
{
    if k < 2 {
        assert(pairs(k + 2) =~= pairs(k) + seq!['\\', '{', '{']);
    } else {
        lemma_pairs_snoc((k - 2) as nat);
        assert(pairs(k + 2) == seq!['\\', '{', '{'] + pairs(k));
        assert(seq!['\\', '{', '{'] + (pairs((k - 2) as nat) + seq!['\\', '{', '{']) =~= (seq![
            '\\',
            '{',
            '{',
        ] + pairs((k - 2) as nat)) + seq!['\\', '{', '{']);
    }
}

/// Emit `k / 2` escaped brace pairs.
fn push_pairs(out: &mut Vec<char>, k: usize)
    requires
        k % 2 == 0,
    ensures
        final(out)@ == old(out)@ + pairs(k as nat),
{
    let mut m: usize = 0;
    while m < k
        invariant
            k % 2 == 0,
            m % 2 == 0,
            0 <= m <= k,
            out@ == old(out)@ + pairs(m as nat),
        decreases k - m,
    {
        out.push('\\');
        out.push('{');
        out.push('{');
        proof {
            lemma_pairs_snoc(m as nat);
            assert(old(out)@ + pairs(m as nat) + seq!['\\', '{', '{'] =~= old(out)@ + pairs(
                (m + 2) as nat,
            ));
        }
        m += 2;
    }
}

/// Escape the characters of raw text, appending to `out`.
#[verifier::rlimit(60)]
fn escape_push(t: &Vec<char>, i: usize, out: &mut Vec<char>)
    requires
        i <= t@.len(),
    ensures
        final(out)@ == old(out)@ + escape_raw(t@.skip(i as int)),
    decreases t@.len() - i,
{
    let n = t.len();
    if i == n {
        proof {
            assert(t@.skip(i as int).len() == 0);
            assert(out@ =~= old(out)@ + escape_raw(t@.skip(i as int)));
        }
        return ;
    }
    let ghost s = t@.skip(i as int);
    proof {
        assert(s.len() == n - i);
        assert(forall|j: int| 0 <= j < s.len() ==> s[j] == t@[i + j]);
    }
    let c = t[i];
    if c == '\\' {
        if n - i == 1 {
            out.push('\\');
            proof {
                assert(escape_raw(s) =~= seq!['\\']);
                assert(out@ =~= old(out)@ + escape_raw(s));
            }
        } else if t[i + 1] == '{' {
            let mut j: usize = i + 1;
            while j < n && t[j] == '{'
                invariant
                    i + 1 <= j <= n == t@.len(),
                    forall|m: int| i + 1 <= m < j ==> t@[m] == '{',
                decreases n - j,
            {
                j += 1;
            }
            let rn: usize = j - (i + 1);
            proof {
                let u = t@.skip(i + 1);
                assert(u =~= s.skip(1));
                assert(forall|m: int| 0 <= m < rn ==> u[m] == t@[i + 1 + m]);
                assert(rn < u.len() ==> u[rn as int] == t@[j as int]);
                lemma_brun_of(u, rn as nat);
            }
            out.push('\\');
            out.push('{');
            if rn % 2 == 1 {
                push_pairs(out, rn - 1);
                escape_push(t, i + 1 + rn, out);
                proof {
                    assert(t@.skip(i + 1 + rn) =~= s.skip(1 + rn));
                    assert(escape_raw(s) == seq!['\\', '{'] + pairs((rn - 1) as nat) + escape_raw(
                        s.skip(1 + rn),
                    ));
                    assert(final(out)@ =~= old(out)@ + escape_raw(s));
                }
            } else {
                push_pairs(out, rn - 2);
                out.push('{');
                escape_push(t, i + 1 + rn, out);
                proof {
                    assert(t@.skip(i + 1 + rn) =~= s.skip(1 + rn));
                    assert(escape_raw(s) == seq!['\\', '{'] + pairs((rn - 2) as nat) + seq!['{']
                        + escape_raw(s.skip(1 + rn)));
                    assert(final(out)@ =~= old(out)@ + escape_raw(s));
                }
            }
        } else {
            out.push('\\');
            escape_push(t, i + 1, out);
            proof {
                assert(t@.skip(i + 1) =~= s.skip(1));
                assert(escape_raw(s) == seq!['\\'] + escape_raw(s.skip(1)));
                assert(final(out)@ =~= old(out)@ + escape_raw(s));
            }
        }
    } else if c == '{' {
        let mut j: usize = i;
        while j < n && t[j] == '{'
            invariant
                i <= j <= n == t@.len(),
                forall|m: int| i <= m < j ==> t@[m] == '{',
            decreases n - j,
        {
            j += 1;
        }
        let rn: usize = j - i;
        proof {
            assert(forall|m: int| 0 <= m < rn ==> s[m] == t@[i + m]);
            assert(rn < s.len() ==> s[rn as int] == t@[j as int]);
            lemma_brun_of(s, rn as nat);
        }
        if rn % 2 == 1 {
            out.push('{');
            push_pairs(out, rn - 1);
            escape_push(t, i + rn, out);
            proof {
                assert(t@.skip(i + rn) =~= s.skip(rn as int));
                assert(escape_raw(s) == seq!['{'] + pairs((rn - 1) as nat) + escape_raw(
                    s.skip(rn as int),
                ));
                assert(final(out)@ =~= old(out)@ + escape_raw(s));
            }
        } else {
            push_pairs(out, rn);
            escape_push(t, i + rn, out);
            proof {
                assert(t@.skip(i + rn) =~= s.skip(rn as int));
                assert(escape_raw(s) == pairs(rn as nat) + escape_raw(s.skip(rn as int)));
                assert(final(out)@ =~= old(out)@ + escape_raw(s));
            }
        }
    } else {
        out.push(c);
        escape_push(t, i + 1, out);
        proof {
            assert(t@.skip(i + 1) =~= s.skip(1));
            assert(escape_raw(s) == seq![s[0]] + escape_raw(s.skip(1)));
            assert(final(out)@ =~= old(out)@ + escape_raw(s));
        }
    }
}

/// The canonical source text of a chunk vector.
pub fn chunks_to_chars(chunks: &Vec<InputChunk>) -> (r: Vec<char>)
    ensures
        r@ == serialize_chunks(chunks_view(chunks@)),
{
    let mut out: Vec<char> = Vec::new();
    let mut i: usize = 0;
    proof {
        assert(chunks_view(chunks@).subrange(0, 0) =~= Seq::<ChunkModel>::empty());
    }
    while i < chunks.len()
        invariant
            0 <= i <= chunks@.len(),
            out@ == serialize_chunks(chunks_view(chunks@).subrange(0, i as int)),
        decreases chunks@.len() - i,
    {
        let ghost done = chunks_view(chunks@).subrange(0, i as int);
        match &chunks[i] {
            InputChunk::Raw(text) => {
                let cs = str_chars(text.as_str());
                escape_push(&cs, 0, &mut out);
                proof {
                    assert(cs@.skip(0) =~= cs@);
                }
            },
            InputChunk::Key(key) => {
                out.push('{');
                out.push('{');
                match key {
                    TemplateKey::Field(id) => {
                        crate::text::push_chars(&mut out, id.chars());
                    },
                    TemplateKey::Chain(id) => {
                        let p: Vec<char> = vec!['c', 'h', 'a', 'i', 'n', 's', '.'];
                        proof {
                            assert(p@ =~= chain_prefix());
                        }
                        crate::text::push_chars(&mut out, &p);
                        crate::text::push_chars(&mut out, id.chars());
                    },
                    TemplateKey::Environment(id) => {
                        let p: Vec<char> = vec!['e', 'n', 'v', '.'];
                        proof {
                            assert(p@ =~= env_prefix());
                        }
                        crate::text::push_chars(&mut out, &p);
                        crate::text::push_chars(&mut out, id.chars());
                    },
                }
                out.push('}');
                out.push('}');
            },
        }
        proof {
            let c = chunks@[i as int]@;
            assert(out@ =~= serialize_chunks(done) + serialize_chunk(c));
            lemma_serialize_snoc(done, c);
            assert(done.push(c) =~= chunks_view(chunks@).subrange(0, i + 1 as int));
        }
        i += 1;
    }
    proof {
        assert(chunks_view(chunks@).subrange(0, chunks@.len() as int) =~= chunks_view(chunks@));
    }
    out
}

} // verus!
