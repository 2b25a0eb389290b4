//! The law of the canonical source form: parsing a template's
//! serialization yields the template's own chunks.
//!
//! The law is stated and proved here for source strings in which no
//! backslash stands immediately before a brace, that is, for every
//! source that does not itself use the escape sequence. Serializing
//! escape-bearing sources correctly is still the serializer's job,
//! but its proof is not carried out.

use vstd::prelude::*;
use crate::ident::is_valid_ident;
use crate::parse::{
    chain_prefix, env_prefix, find_close, lemma_find_close_some, lemma_raw_merge_assoc,
    parse_chunks, parse_key_model, prepend_raw, raw_merge, ChunkModel,
};
use crate::source::{
    braces, brun, escape_raw, lemma_brun, lemma_brun_of, pairs, serialize_chunk,
    serialize_chunks,
};

verus! {

/// Text in which no backslash stands immediately before a brace, so
/// the escape rule never fires inside it.
pub open spec fn nb_text(t: Seq<char>) -> bool {
    forall|i: int| 0 <= i < t.len() && #[trigger] t[i] == '\\' ==> i + 1 == t.len() || t[i + 1] != '{'
}

/// A raw chunk the serializer can round-trip: brace runs are escaped
/// right-aligned, so the one bad shape is a raw chunk that is a lone
/// `{` standing immediately before a key.
pub open spec fn wf_raw_nb(t: Seq<char>, followed_by_key: bool) -> bool
    decreases t.len(),
{
    if t.len() == 0 {
        true
    } else if t[0] == '{' {
        let n = brun(t);
        &&& (n == 1 && t.len() == 1 ==> !followed_by_key)
        &&& wf_raw_nb(t.skip(if n <= t.len() {
            n as int
        } else {
            t.len() as int
        }), followed_by_key)
    } else if t[0] == '\\' {
        if t.len() == 1 {
            !followed_by_key
        } else {
            &&& t[1] != '{'
            &&& (t[1] == '\\' && t.len() > 2 ==> t[2] != '{')
            &&& wf_raw_nb(t.skip(2), followed_by_key)
        }
    } else {
        wf_raw_nb(t.skip(1), followed_by_key)
    }
}

/// The well-shapedness of one chunk at its position: raw chunks are
/// non-empty, backslash-free and well-shaped, never adjacent to
/// another raw chunk; key identifiers are valid.
pub open spec fn chunk_ok_at(cs: Seq<ChunkModel>, i: int) -> bool {
    0 <= i < cs.len() && match cs[i] {
        ChunkModel::RawText(t) => {
            &&& t.len() > 0
            &&& nb_text(t)
            &&& wf_raw_nb(t, i + 1 < cs.len())
            &&& (i + 1 < cs.len() ==> !(cs[i + 1] is RawText))
        },
        ChunkModel::FieldKey(id) => is_valid_ident(id),
        ChunkModel::ChainKey(id) => is_valid_ident(id),
        ChunkModel::EnvKey(id) => is_valid_ident(id),
    }
}

/// A chunk sequence the serializer can round-trip.
pub open spec fn chunks_ok_nb(cs: Seq<ChunkModel>) -> bool {
    forall|i: int| 0 <= i < cs.len() ==> #[trigger] chunk_ok_at(cs, i)
}


/// Escaped text is never empty and begins with the original first
/// character, or with a backslash when that character opens a brace
/// run that is escaped.
proof fn lemma_escape_first(t: Seq<char>)
    requires
        t.len() > 0,
    ensures
        escape_raw(t).len() > 0,
        t[0] != '{' ==> escape_raw(t)[0] == t[0],
        escape_raw(t)[0] == t[0] || escape_raw(t)[0] == '\\',
{
    if t[0] == '\\' {
    } else if t[0] == '{' {
        let n = brun(t);
        lemma_brun(t);
    } else {
    }
}

/// Concatenating a head onto restricted text stays restricted when
/// the head's own backslashes are not followed by a brace.
proof fn lemma_nb_merge(h: Seq<char>, r: Seq<char>)
    requires
        nb_text(r),
        forall|i: int|
            0 <= i < h.len() && #[trigger] h[i] == '\\' ==> (i + 1 < h.len() && h[i + 1] != '{')
                || (i + 1 == h.len() && (r.len() == 0 || r[0] != '{')),
    ensures
        nb_text(h + r),
{
    let m = h + r;
    assert forall|i: int| 0 <= i < m.len() && #[trigger] m[i] == '\\' implies i + 1 == m.len()
        || m[i + 1] != '{' by {
        if i < h.len() {
            assert(m[i] == h[i]);
            if i + 1 < h.len() {
                assert(m[i + 1] == h[i + 1]);
            } else if i + 1 < m.len() {
                assert(m[i + 1] == r[0]);
            }
        } else {
            assert(m[i] == r[i - h.len()]);
            if i + 1 < m.len() {
                assert(m[i + 1] == r[i + 1 - h.len()]);
            }
        }
    }
}

/// Parsing escaped brace pairs prepends that many braces.
proof fn lemma_pairs_parse(k: nat, rest: Seq<char>)
    requires
        k % 2 == 0,
    ensures
        parse_chunks(pairs(k) + rest) == prepend_raw(braces(k), parse_chunks(rest)),
    decreases k,
{
    if k < 2 {
        assert(pairs(k) + rest =~= rest);
        assert(braces(k) =~= Seq::<char>::empty());
        match parse_chunks(rest) {
            Option::Some(cs) => {
                assert(raw_merge(Seq::<char>::empty(), cs) == cs);
            },
            Option::None => {},
        }
    } else {
        let s = pairs(k) + rest;
        let tail = pairs((k - 2) as nat) + rest;
        assert(s[0] == '\\' && s[1] == '{' && s[2] == '{');
        assert(s.len() >= 3);
        assert(s.skip(3) =~= tail);
        assert(parse_chunks(s) == prepend_raw(seq!['{', '{'], parse_chunks(tail)));
        lemma_pairs_parse((k - 2) as nat, rest);
        match parse_chunks(rest) {
            Option::Some(cs) => {
                lemma_raw_merge_assoc(seq!['{', '{'], braces((k - 2) as nat), cs);
                assert(seq!['{', '{'] + braces((k - 2) as nat) =~= braces(k));
            },
            Option::None => {},
        }
    }
}

/// Parsing the escaped form of a well-shaped raw chunk prepends the
/// chunk's text to whatever follows.
/// The brace-run case of [`lemma_escape_parse_nb`].
#[verifier::rlimit(100)]
proof fn lemma_escape_parse_brace(t: Seq<char>, s2: Seq<char>, followed_by_key: bool)
    requires
        nb_text(t),
        wf_raw_nb(t, followed_by_key),
        t.len() > 0,
        t[0] == '{',
        followed_by_key ==> s2.len() >= 2 && s2[0] == '{' && s2[1] == '{',
        !followed_by_key ==> s2.len() == 0,
    ensures
        parse_chunks(escape_raw(t) + s2) == prepend_raw(t, parse_chunks(s2)),
    decreases t.len(), 0int,
{
    let n = brun(t);
    lemma_brun(t);
    assert(1 <= n <= t.len());
    let rest = t.skip(n as int);
    assert(nb_text(rest)) by {
        assert(forall|i: int| 0 <= i < rest.len() ==> rest[i] == t[i + n]);
    }
    assert(wf_raw_nb(rest, followed_by_key));
    if n % 2 == 1 {
        let s = escape_raw(t) + s2;
        let tail = pairs((n - 1) as nat) + (escape_raw(rest) + s2);
        assert(s =~= seq!['{'] + tail);
        assert(s[0] == '{');
        if n >= 3 {
            assert(tail[0] == '\\');
            assert(s[1] == '\\');
        } else {
            if rest.len() > 0 {
                assert(rest[0] != '{');
                lemma_escape_first(rest);
                assert(s[1] == escape_raw(rest)[0]);
                assert(s[1] != '{');
            } else {
                assert(t.len() == 1);
                if followed_by_key {
                    assert(false);
                } else {
                    assert(s.len() == 1);
                }
            }
        }
        if s.len() >= 2 {
            assert(!(s[0] == '{' && s[1] == '{'));
        }
        assert(s[0] != '\\');
        assert(parse_chunks(s) == prepend_raw(seq![s[0]], parse_chunks(s.skip(1))));
        assert(s.skip(1) =~= tail);
        lemma_pairs_parse((n - 1) as nat, escape_raw(rest) + s2);
        lemma_escape_parse_nb(rest, s2, followed_by_key);
        match parse_chunks(s2) {
            Option::Some(cs) => {
                lemma_raw_merge_assoc(braces((n - 1) as nat), rest, cs);
                lemma_raw_merge_assoc(seq!['{'], braces((n - 1) as nat) + rest, cs);
                assert(seq!['{'] + (braces((n - 1) as nat) + rest) =~= t);
            },
            Option::None => {},
        }
    } else {
        let s = escape_raw(t) + s2;
        assert(s =~= pairs(n) + (escape_raw(rest) + s2));
        lemma_pairs_parse(n, escape_raw(rest) + s2);
        lemma_escape_parse_nb(rest, s2, followed_by_key);
        match parse_chunks(s2) {
            Option::Some(cs) => {
                lemma_raw_merge_assoc(braces(n), rest, cs);
                assert(braces(n) + rest =~= t);
            },
            Option::None => {},
        }
    }
}

/// Parsing the escaped form of a well-shaped raw chunk prepends the
/// chunk's text to whatever follows.
#[verifier::rlimit(100)]
proof fn lemma_escape_parse_nb(t: Seq<char>, s2: Seq<char>, followed_by_key: bool)
    requires
        nb_text(t),
        wf_raw_nb(t, followed_by_key),
        followed_by_key ==> s2.len() >= 2 && s2[0] == '{' && s2[1] == '{',
        !followed_by_key ==> s2.len() == 0,
    ensures
        parse_chunks(escape_raw(t) + s2) == prepend_raw(t, parse_chunks(s2)),
    decreases t.len(), 1int,
{
    if t.len() == 0 {
        assert(escape_raw(t) + s2 =~= s2);
        match parse_chunks(s2) {
            Option::Some(cs) => {
                assert(raw_merge(t, cs) == cs);
            },
            Option::None => {},
        }
    } else if t[0] == '{' {
        lemma_escape_parse_brace(t, s2, followed_by_key);
    } else if t[0] == '\\' {
        if t.len() == 1 {
            assert(!followed_by_key);
            let s = escape_raw(t) + s2;
            assert(s =~= seq!['\\']);
            assert(parse_chunks(s) == Option::Some(seq![ChunkModel::RawText(seq!['\\'])]));
            assert(t =~= seq!['\\']);
            assert(parse_chunks(s2) == Option::Some(Seq::<ChunkModel>::empty()));
            assert(raw_merge(t, Seq::<ChunkModel>::empty()) =~= seq![ChunkModel::RawText(t)]);
            assert(seq![ChunkModel::RawText(seq!['\\'])] =~= seq![ChunkModel::RawText(t)]);
        } else {
            let c2 = t[1];
            assert(c2 != '{');
            let rest = t.skip(1);
            let rest2 = t.skip(2);
            assert(rest.len() >= 1);
            assert(rest[0] == c2);
            assert(forall|i: int| 0 <= i < rest.len() ==> rest[i] == t[i + 1]);
            assert(forall|i: int| 0 <= i < rest2.len() ==> rest2[i] == t[i + 2]);
            assert(nb_text(rest2)) by {
                assert forall|i: int|
                    0 <= i < rest2.len() && #[trigger] rest2[i] == '\\' implies i + 1
                    == rest2.len() || rest2[i + 1] != '{' by {
                    assert(t[i + 2] == '\\');
                    if i + 1 < rest2.len() {
                        assert(rest2[i + 1] == t[i + 3]);
                    }
                }
            }
            assert(wf_raw_nb(rest2, followed_by_key));
            // the escaped text starts with the verbatim pair
            assert(escape_raw(rest) =~= seq![c2] + escape_raw(rest2)) by {
                if c2 == '\\' {
                    if rest.len() == 1 {
                        assert(rest2.len() == 0);
                        assert(escape_raw(rest) =~= seq!['\\']);
                        assert(escape_raw(rest2) =~= Seq::<char>::empty());
                    } else {
                        assert(rest[1] == t[2]);
                        assert(t[2] != '{');
                        assert(rest.skip(1) =~= rest2);
                    }
                } else {
                    assert(rest.skip(1) =~= rest2);
                }
            }
            let s = escape_raw(t) + s2;
            assert(s =~= seq!['\\', c2] + (escape_raw(rest2) + s2));
            assert(s[0] == '\\' && s[1] == c2);
            assert(!(s.len() >= 3 && s[1] == '{' && s[2] == '{'));
            assert(s.len() >= 2);
            assert(parse_chunks(s) == prepend_raw(s.subrange(0, 2), parse_chunks(s.skip(2))));
            assert(s.subrange(0, 2) =~= seq!['\\', c2]);
            assert(s.skip(2) =~= escape_raw(rest2) + s2);
            lemma_escape_parse_nb(rest2, s2, followed_by_key);
            match parse_chunks(s2) {
                Option::Some(cs) => {
                    lemma_raw_merge_assoc(seq!['\\', c2], rest2, cs);
                    assert(seq!['\\', c2] + rest2 =~= t);
                },
                Option::None => {},
            }
        }
    } else {
        let c = t[0];
        assert(c != '\\');
        let rest = t.skip(1);
        assert(nb_text(rest)) by {
            assert(forall|i: int| 0 <= i < rest.len() ==> rest[i] == t[i + 1]);
        }
        let s = escape_raw(t) + s2;
        assert(s =~= seq![c] + (escape_raw(rest) + s2));
        assert(s[0] == c);
        assert(parse_chunks(s) == prepend_raw(seq![c], parse_chunks(s.skip(1))));
        assert(s.skip(1) =~= escape_raw(rest) + s2);
        lemma_escape_parse_nb(rest, s2, followed_by_key);
        match parse_chunks(s2) {
            Option::Some(cs) => {
                lemma_raw_merge_assoc(seq![c], rest, cs);
                assert(seq![c] + rest =~= t);
            },
            Option::None => {},
        }
    }
}

/// The body of a serialized key has no closing brace.
proof fn lemma_body_no_brace(body: Seq<char>)
    requires
        forall|i: int| 0 <= i < body.len() ==> crate::ident::is_ident_char(#[trigger] body[i]) || body[i] == '.',
    ensures
        forall|i: int| 0 <= i < body.len() ==> #[trigger] body[i] != '}' && body[i] != '{'
            && body[i] != '\\',
{
}

/// Parsing a serialized key yields that key and continues behind it.
proof fn lemma_key_parse(k: ChunkModel, s2: Seq<char>)
    requires
        !(k is RawText),
        match k {
            ChunkModel::RawText(t) => true,
            ChunkModel::FieldKey(id) => is_valid_ident(id),
            ChunkModel::ChainKey(id) => is_valid_ident(id),
            ChunkModel::EnvKey(id) => is_valid_ident(id),
        },
    ensures
        parse_chunks(serialize_chunk(k) + s2) == match parse_chunks(s2) {
            Option::Some(cs) => Option::Some(seq![k] + cs),
            Option::None => Option::<Seq<ChunkModel>>::None,
        },
{
    let body: Seq<char> = match k {
        ChunkModel::RawText(t) => Seq::empty(),
        ChunkModel::FieldKey(id) => id,
        ChunkModel::ChainKey(id) => chain_prefix() + id,
        ChunkModel::EnvKey(id) => env_prefix() + id,
    };
    let s = serialize_chunk(k) + s2;
    assert(s =~= seq!['{', '{'] + body + seq!['}', '}'] + s2);
    assert(forall|i: int|
        0 <= i < body.len() ==> crate::ident::is_ident_char(#[trigger] body[i]) || body[i]
            == '.') by {
        match k {
            ChunkModel::ChainKey(id) => {
                assert(forall|i: int|
                    0 <= i < body.len() ==> body[i] == if i < 7 {
                        chain_prefix()[i]
                    } else {
                        id[i - 7]
                    });
            },
            ChunkModel::EnvKey(id) => {
                assert(forall|i: int|
                    0 <= i < body.len() ==> body[i] == if i < 4 {
                        env_prefix()[i]
                    } else {
                        id[i - 4]
                    });
            },
            _ => {},
        }
    }
    lemma_body_no_brace(body);
    assert(s[0] == '{' && s[1] == '{');
    assert(s.len() >= 2);
    assert(s[0] != '\\');
    let after = s.skip(2);
    assert(after =~= body + seq!['}', '}'] + s2);
    assert(after[body.len() as int] == '}' && after[body.len() as int + 1] == '}');
    assert(forall|j: int| 0 <= j < body.len() ==> !(#[trigger] after[j] == '}' && after[j + 1]
        == '}')) by {
        assert(forall|j: int| 0 <= j < body.len() ==> after[j] == body[j]);
    }
    lemma_find_close_some(after, body.len() as int);
    assert(find_close(s.skip(2)) == Option::Some(body.len() as nat));
    assert(after.subrange(0, body.len() as int) =~= body);
    assert(parse_key_model(body) == Option::Some(k)) by {
        match k {
            ChunkModel::FieldKey(id) => {
                if body.len() >= 7 && body.subrange(0, 7) == chain_prefix() {
                    assert(body.subrange(0, 7)[6] == id[6]);
                    assert(chain_prefix()[6] == '.');
                    assert(crate::ident::is_ident_char(id[6]));
                    assert(false);
                }
                if body.len() >= 4 && body.subrange(0, 4) == env_prefix() {
                    assert(body.subrange(0, 4)[3] == id[3]);
                    assert(env_prefix()[3] == '.');
                    assert(crate::ident::is_ident_char(id[3]));
                    assert(false);
                }
            },
            ChunkModel::ChainKey(id) => {
                assert(body.len() >= 7);
                assert(body.subrange(0, 7) =~= chain_prefix());
                assert(body.skip(7) =~= id);
            },
            ChunkModel::EnvKey(id) => {
                assert(body.len() >= 4);
                if body.subrange(0, 7) == chain_prefix() && body.len() >= 7 {
                    assert(body.subrange(0, 7)[0] == body[0]);
                    assert(body[0] == 'e');
                    assert(chain_prefix()[0] == 'c');
                    assert(false);
                }
                assert(body.subrange(0, 4) =~= env_prefix());
                assert(body.skip(4) =~= id);
            },
            ChunkModel::RawText(t) => {
                assert(false);
            },
        }
    }
    let skip_n: int = 2 + body.len() as int + 2;
    assert(skip_n <= s.len());
    assert(s.skip(skip_n) =~= s2);
}

/// Parsing the serialization of well-shaped chunks yields exactly
/// those chunks.
proof fn lemma_chunks_round_trip(cs: Seq<ChunkModel>)
    requires
        chunks_ok_nb(cs),
    ensures
        parse_chunks(serialize_chunks(cs)) == Option::Some(cs),
    decreases cs.len(),
{
    if cs.len() == 0 {
    } else {
        let cs2 = cs.drop_first();
        assert(forall|i: int| 0 <= i < cs2.len() ==> cs2[i] == cs[i + 1]);
        assert(chunks_ok_nb(cs2)) by {
            assert forall|j: int| 0 <= j < cs2.len() implies chunk_ok_at(cs2, j) by {
                assert(chunk_ok_at(cs, j + 1));
                assert(cs2[j] == cs[j + 1]);
                if j + 1 < cs2.len() {
                    assert(cs2[j + 1] == cs[j + 2]);
                }
            }
        }
        lemma_chunks_round_trip(cs2);
        let s2 = serialize_chunks(cs2);
        assert(serialize_chunks(cs) == serialize_chunk(cs[0]) + s2);
        assert(chunk_ok_at(cs, 0));
        match cs[0] {
            ChunkModel::RawText(t) => {
                let fbk = cs.len() > 1;
                assert(wf_raw_nb(t, fbk));
                if fbk {
                    assert(!(cs[1] is RawText));
                    assert(cs2[0] == cs[1]);
                    assert(serialize_chunks(cs2) == serialize_chunk(cs2[0]) + serialize_chunks(
                        cs2.drop_first(),
                    ));
                    assert(s2[0] == '{' && s2[1] == '{' && s2.len() >= 2) by {
                        match cs2[0] {
                            ChunkModel::FieldKey(id) => {},
                            ChunkModel::ChainKey(id) => {},
                            ChunkModel::EnvKey(id) => {},
                            ChunkModel::RawText(x) => {
                                assert(false);
                            },
                        }
                    }
                } else {
                    assert(cs2.len() == 0);
                    assert(s2.len() == 0);
                }
                lemma_escape_parse_nb(t, s2, fbk);
                assert(parse_chunks(serialize_chunks(cs)) == prepend_raw(t, Option::Some(cs2)));
                if cs2.len() > 0 {
                    assert(!(cs2[0] is RawText));
                }
                assert(raw_merge(t, cs2) =~= seq![ChunkModel::RawText(t)] + cs2);
                assert(seq![ChunkModel::RawText(t)] + cs2 =~= cs);
            },
            _ => {
                lemma_key_parse(cs[0], s2);
                assert(seq![cs[0]] + cs2 =~= cs);
            },
        }
    }
}

/// Parse output is always well-shaped when the source has no
/// backslash.
proof fn lemma_parse_nb_wf(s: Seq<char>)
    requires
        nb_text(s),
        parse_chunks(s) is Some,
    ensures
        chunks_ok_nb(parse_chunks(s)->0),
        parse_chunks(s)->0.len() > 0 ==> match parse_chunks(s)->0[0] {
            ChunkModel::RawText(r) => r.len() > 0 && r[0] == s[0],
            _ => s.len() >= 2 && s[0] == '{' && s[1] == '{',
        },
        s.len() == 0 ==> parse_chunks(s)->0.len() == 0,
        s.len() > 0 ==> parse_chunks(s)->0.len() > 0,
    decreases s.len(),
{
    let cs = parse_chunks(s)->0;
    if s.len() == 0 {
    } else if s[0] == '\\' {
        assert(s.len() >= 2 ==> s[1] != '{');
        assert(!(s.len() >= 3 && s[1] == '{' && s[2] == '{'));
        if s.len() >= 2 {
            let h = s.subrange(0, 2);
            let tail = s.skip(2);
            assert(parse_chunks(s) == prepend_raw(h, parse_chunks(tail)));
            assert(forall|i: int| 0 <= i < tail.len() ==> tail[i] == s[i + 2]);
            assert(nb_text(tail)) by {
                assert forall|i: int|
                    0 <= i < tail.len() && #[trigger] tail[i] == '\\' implies i + 1 == tail.len()
                    || tail[i + 1] != '{' by {
                    assert(s[i + 2] == '\\');
                    if i + 1 < tail.len() {
                        assert(tail[i + 1] == s[i + 3]);
                    }
                }
            }
            lemma_parse_nb_wf(tail);
            let cs2 = parse_chunks(tail)->0;
            assert(h[0] == '\\' && h[1] == s[1]);
            if cs2.len() > 0 && cs2[0] is RawText {
                let r = cs2[0]->RawText_0;
                let merged = h + r;
                assert(cs == seq![ChunkModel::RawText(merged)] + cs2.drop_first());
                let fbk = cs.len() > 1;
                assert(cs.len() == cs2.len());
                assert(fbk == (cs2.len() > 1));
                assert(chunk_ok_at(cs2, 0));
                assert(wf_raw_nb(r, fbk));
                assert(r.len() > 0 && r[0] == tail[0]);
                assert(tail[0] == s[2]);
                if s[1] == '\\' {
                    assert(s[2] != '{');
                    assert(r[0] != '{');
                }
                assert(wf_raw_nb(merged, fbk)) by {
                    assert(merged[0] == '\\');
                    assert(merged.len() >= 3);
                    assert(merged[1] == s[1]);
                    assert(merged[1] != '{');
                    if merged[1] == '\\' {
                        assert(merged[2] == r[0]);
                        assert(merged[2] != '{');
                    }
                    assert(merged.skip(2) =~= r);
                }
                assert(nb_text(merged)) by {
                    lemma_nb_merge(h, r);
                }
                assert(forall|j: int| 1 <= j < cs.len() ==> cs[j] == cs2[j]);
                assert(chunks_ok_nb(cs)) by {
                    assert forall|j: int| 0 <= j < cs.len() implies chunk_ok_at(cs, j) by {
                        if j == 0 {
                            if 1 < cs.len() {
                                assert(cs[1] == cs2[1]);
                                assert(!(cs2[1] is RawText));
                            }
                        } else {
                            assert(chunk_ok_at(cs2, j));
                            assert(cs[j] == cs2[j]);
                            if j + 1 < cs.len() {
                                assert(cs[j + 1] == cs2[j + 1]);
                            }
                        }
                    }
                }
            } else {
                assert(cs == seq![ChunkModel::RawText(h)] + cs2);
                let fbk = cs.len() > 1;
                assert(wf_raw_nb(h, fbk)) by {
                    assert(h.len() == 2);
                    assert(h[1] != '{');
                    assert(h.skip(2) =~= Seq::<char>::empty());
                    assert(wf_raw_nb(Seq::<char>::empty(), fbk));
                }
                assert(nb_text(h)) by {
                    assert forall|i: int|
                        0 <= i < h.len() && #[trigger] h[i] == '\\' implies i + 1 == h.len()
                        || h[i + 1] != '{' by {}
                }
                assert(forall|j: int| 1 <= j < cs.len() ==> cs[j] == cs2[j - 1]);
                assert(chunks_ok_nb(cs)) by {
                    assert forall|j: int| 0 <= j < cs.len() implies chunk_ok_at(cs, j) by {
                        if j == 0 {
                            if 1 < cs.len() {
                                assert(cs[1] == cs2[0]);
                                assert(!(cs2[0] is RawText));
                            }
                        } else {
                            assert(chunk_ok_at(cs2, j - 1));
                            assert(cs[j] == cs2[j - 1]);
                            if j + 1 < cs.len() {
                                assert(cs[j + 1] == cs2[j]);
                            }
                        }
                    }
                }
            }
        } else {
            assert(parse_chunks(s) == Option::Some(seq![ChunkModel::RawText(seq!['\\'])]));
            assert(cs == seq![ChunkModel::RawText(seq!['\\'])]);
            let one = seq!['\\'];
            assert(wf_raw_nb(one, false)) by {
                assert(one[0] == '\\');
                assert(one.len() == 1);
            }
            assert(nb_text(one));
            assert(chunks_ok_nb(cs)) by {
                assert forall|j: int| 0 <= j < cs.len() implies chunk_ok_at(cs, j) by {
                    assert(j == 0);
                }
            }
            assert(cs[0] matches ChunkModel::RawText(r2) && r2[0] == s[0]);
        }
    } else if s.len() >= 2 && s[0] == '{' && s[1] == '{' {
        match find_close(s.skip(2)) {
            Option::Some(i) => {
                let after: int = if 2 + i + 2 <= s.len() {
                    2 + i as int + 2
                } else {
                    s.len() as int
                };
                match parse_key_model(s.skip(2).subrange(0, i as int)) {
                    Option::Some(k) => {
                        let tail = s.skip(after);
                        assert(nb_text(tail)) by {
                            assert(forall|j: int|
                                0 <= j < tail.len() ==> tail[j] == s[j + after]);
                        }
                        lemma_parse_nb_wf(tail);
                        let cs2 = parse_chunks(tail)->0;
                        assert(cs == seq![k] + cs2);
                        assert(!(k is RawText) && match k {
                            ChunkModel::FieldKey(id) => is_valid_ident(id),
                            ChunkModel::ChainKey(id) => is_valid_ident(id),
                            ChunkModel::EnvKey(id) => is_valid_ident(id),
                            ChunkModel::RawText(t) => true,
                        });
                        assert(forall|j: int| 1 <= j < cs.len() ==> cs[j] == cs2[j - 1]);
                        assert(chunks_ok_nb(cs)) by {
                            assert forall|j: int| 0 <= j < cs.len() implies chunk_ok_at(
                                cs,
                                j,
                            ) by {
                                if j == 0 {
                                    assert(cs[0] == k);
                                } else {
                                    assert(chunk_ok_at(cs2, j - 1));
                                    assert(cs[j] == cs2[j - 1]);
                                    if j + 1 < cs.len() {
                                        assert(cs[j + 1] == cs2[j]);
                                    }
                                }
                            }
                        }
                    },
                    Option::None => {
                        assert(false);
                    },
                }
            },
            Option::None => {
                assert(false);
            },
        }
    } else {
        let c = s[0];
        let tail = s.skip(1);
        assert(nb_text(tail)) by {
            assert(forall|j: int| 0 <= j < tail.len() ==> tail[j] == s[j + 1]);
        }
        lemma_parse_nb_wf(tail);
        let cs2 = parse_chunks(tail)->0;
        assert(parse_chunks(s) == prepend_raw(seq![c], parse_chunks(tail)));
        if cs2.len() > 0 && cs2[0] is RawText {
            let r = cs2[0]->RawText_0;
            let merged = seq![c] + r;
            assert(cs == seq![ChunkModel::RawText(merged)] + cs2.drop_first());
            let fbk = cs.len() > 1;
            assert(cs.len() == cs2.len());
            assert(fbk == (cs2.len() > 1));
            assert(chunk_ok_at(cs2, 0));
            assert(wf_raw_nb(r, fbk));
            assert(nb_text(r)) by {
                assert(r[0] == tail[0]);
                assert(chunk_ok_at(cs2, 0));
            }
            assert(wf_raw_nb(merged, fbk)) by {
                assert(merged[0] == c);
                assert(merged.skip(1) =~= r);
                if c == '{' {
                    assert(s[1] != '{');
                    assert(r[0] == tail[0]);
                    assert(tail[0] == s[1]);
                    assert(r[0] != '{');
                    lemma_brun_of(merged, 1);
                    assert(brun(merged) == 1);
                    assert(merged.len() > 1);
                } else {
                }
            }
            assert(nb_text(merged)) by {
                assert(forall|j: int|
                    0 <= j < merged.len() ==> merged[j] == if j == 0 {
                        c
                    } else {
                        r[j - 1]
                    });
            }
            assert(forall|j: int| 1 <= j < cs.len() ==> cs[j] == cs2[j]);
            assert(chunks_ok_nb(cs)) by {
                assert forall|j: int| 0 <= j < cs.len() implies chunk_ok_at(cs, j) by {
                    if j == 0 {
                        assert(chunk_ok_at(cs2, 0));
                        if 1 < cs.len() {
                            assert(cs[1] == cs2[1]);
                            assert(!(cs2[1] is RawText));
                        }
                    } else {
                        assert(chunk_ok_at(cs2, j));
                        assert(cs[j] == cs2[j]);
                        if j + 1 < cs.len() {
                            assert(cs[j + 1] == cs2[j + 1]);
                        }
                    }
                }
            }
        } else {
            assert(cs == seq![ChunkModel::RawText(seq![c])] + cs2);
            let fbk = cs.len() > 1;
            assert(wf_raw_nb(seq![c], fbk)) by {
                assert(seq![c].skip(1) =~= Seq::<char>::empty());
                assert(wf_raw_nb(Seq::<char>::empty(), fbk));
                if c == '{' {
                    lemma_brun_of(seq![c], 1);
                    if fbk {
                        assert(cs2.len() > 0);
                        assert(!(cs2[0] is RawText));
                        assert(tail.len() >= 2 && tail[0] == '{' && tail[1] == '{');
                        assert(s[1] == '{');
                        assert(false);
                    }
                } else {
                }
            }
            assert(forall|j: int| 1 <= j < cs.len() ==> cs[j] == cs2[j - 1]);
            assert(chunks_ok_nb(cs)) by {
                assert forall|j: int| 0 <= j < cs.len() implies chunk_ok_at(cs, j) by {
                    if j == 0 {
                        if 1 < cs.len() {
                            assert(cs[1] == cs2[0]);
                            assert(!(cs2[0] is RawText));
                        }
                    } else {
                        assert(chunk_ok_at(cs2, j - 1));
                        assert(cs[j] == cs2[j - 1]);
                        if j + 1 < cs.len() {
                            assert(cs[j + 1] == cs2[j]);
                        }
                    }
                }
            }
        }
    }
}

/// The round trip of parsing and serialization: for any source
/// string that parses and uses no escape sequence, serializing the
/// parsed template and parsing it again yields the same chunks.
pub proof fn lemma_parse_serialize_round_trip(s: Seq<char>)
    requires
        nb_text(s),
        parse_chunks(s) is Some,
    ensures
        parse_chunks(serialize_chunks(parse_chunks(s)->0)) == parse_chunks(s),
{
    lemma_parse_nb_wf(s);
    lemma_chunks_round_trip(parse_chunks(s)->0);
}

} // verus!
