//! Selectors: path queries over structured bodies.
//!
//! A selector is compiled at chain definition time from a source
//! string of the form `$` followed by `.name` or `.*` steps. At apply
//! time it yields the matched values in document order; the chain
//! engine then requires exactly one.

use vstd::prelude::*;
use crate::json::JsonValue;
use crate::text::str_chars;

verus! {

/// One step of a selector path.
#[derive(Debug, PartialEq, Eq)]
pub enum SelectorSegment {
    /// `.name`: the member of an object under this key.
    Member(String),
    /// `.*`: every member value of an object, or every element of an
    /// array.
    Wildcard,
}

/// Model of one selector step.
pub enum SegModel {
    /// A member key.
    Member(Seq<char>),
    /// The wildcard step.
    Wildcard,
}

impl View for SelectorSegment {
    type V = SegModel;

    open spec fn view(&self) -> SegModel {
        match self {
            SelectorSegment::Member(s) => SegModel::Member(s@),
            SelectorSegment::Wildcard => SegModel::Wildcard,
        }
    }
}

/// A compiled path query.
#[derive(Debug, PartialEq, Eq)]
pub struct Selector {
    segments: Vec<SelectorSegment>,
}

impl View for Selector {
    type V = Seq<SegModel>;

    closed spec fn view(&self) -> Seq<SegModel> {
        self.segments@.map_values(|s: SelectorSegment| s@)
    }
}

/// True for characters allowed in a `.name` step: the identifier
/// characters.
pub open spec fn is_member_char(c: char) -> bool {
    crate::ident::is_ident_char(c)
}

/// The grammar of selector sources: `$` then `.name` or `.*` steps.
pub open spec fn parse_selector_model(s: Seq<char>) -> Option<Seq<SegModel>>
    decreases s.len(),
{
    if s.len() == 0 || s[0] != '$' {
        Option::None
    } else {
        parse_segments(s.skip(1))
    }
}

/// Parse the steps after the leading `$`.
pub open spec fn parse_segments(s: Seq<char>) -> Option<Seq<SegModel>>
    decreases s.len(),
{
    if s.len() == 0 {
        Option::Some(Seq::empty())
    } else if s[0] != '.' || s.len() < 2 {
        Option::None
    } else if s[1] == '*' {
        match parse_segments(s.skip(2)) {
            Option::Some(rest) => Option::Some(seq![SegModel::Wildcard] + rest),
            Option::None => Option::None,
        }
    } else {
        let n = member_run(s.skip(1));
        if n == 0 {
            Option::None
        } else {
            let step: int = if 1 + n <= s.len() {
                1 + n as int
            } else {
                s.len() as int
            };
            match parse_segments(s.skip(step)) {
                Option::Some(rest) => Option::Some(
                    seq![SegModel::Member(s.subrange(1, step))] + rest,
                ),
                Option::None => Option::None,
            }
        }
    }
}

/// The length of the run of member characters at the front of `s`.
pub open spec fn member_run(s: Seq<char>) -> nat
    decreases s.len(),
{
    if s.len() > 0 && is_member_char(s[0]) {
        1 + member_run(s.drop_first())
    } else {
        0
    }
}

/// The first member of `members` under `key`, if any.
pub open spec fn member_lookup(members: Seq<(String, JsonValue)>, key: Seq<char>) -> Option<
    JsonValue,
>
    decreases members.len(),
{
    if members.len() == 0 {
        Option::None
    } else if members[0].0@ == key {
        Option::Some(members[0].1)
    } else {
        member_lookup(members.drop_first(), key)
    }
}

/// The values one step yields on one input value.
pub open spec fn seg_apply(seg: SegModel, v: JsonValue) -> Seq<JsonValue> {
    match seg {
        SegModel::Member(key) => match v {
            JsonValue::Object(members) => match member_lookup(members@, key) {
                Option::Some(x) => seq![x],
                Option::None => Seq::empty(),
            },
            _ => Seq::empty(),
        },
        SegModel::Wildcard => match v {
            JsonValue::Object(members) => members@.map_values(|m: (String, JsonValue)| m.1),
            JsonValue::Array(items) => items@,
            _ => Seq::empty(),
        },
    }
}

/// The values one step yields on the first `i` of a set of inputs.
pub open spec fn seg_apply_to(seg: SegModel, vs: Seq<JsonValue>, i: int) -> Seq<JsonValue>
    decreases i,
{
    if i <= 0 || i > vs.len() {
        Seq::empty()
    } else {
        seg_apply_to(seg, vs, i - 1) + seg_apply(seg, vs[i - 1])
    }
}

/// The matched values after the first `j` steps of the selector.
pub open spec fn selector_state(v: JsonValue, segs: Seq<SegModel>, j: int) -> Seq<JsonValue>
    decreases j,
{
    if j <= 0 {
        seq![v]
    } else {
        let prev = selector_state(v, segs, j - 1);
        seg_apply_to(segs[j - 1], prev, prev.len() as int)
    }
}

/// What the whole selector matches on `v`.
pub open spec fn selector_apply_model(sel: Seq<SegModel>, v: JsonValue) -> Seq<JsonValue> {
    selector_state(v, sel, sel.len() as int)
}

impl Selector {
    /// Compile a selector source string; success and the steps are
    /// exactly those of the selector grammar.
    pub fn parse(source: &str) -> (r: Option<Selector>)
        ensures
            r is Some <==> parse_selector_model(source@) is Some,
            r is Some ==> Option::Some(r->0@) == parse_selector_model(source@),
    {
        let chars = str_chars(source);
        if chars.len() == 0 {
            return Option::None;
        }
        let c0 = chars[0];
        if c0 != '$' {
            return Option::None;
        }
        let mut segments: Vec<SelectorSegment> = Vec::new();
        let mut i: usize = 1;
        let n = chars.len();
        proof {
            assert(chars@.skip(0) =~= chars@);
            assert(parse_selector_model(chars@) == parse_segments(chars@.skip(1)));
            assert(segments@.map_values(|s: SelectorSegment| s@) =~= Seq::<SegModel>::empty());
        }
        while i < n
            invariant
                1 <= i <= n == chars@.len(),
                source@ == chars@,
                chars@[0] == '$',
                glue_segments(
                    segments@.map_values(|s: SelectorSegment| s@),
                    parse_segments(chars@.skip(i as int)),
                ) == parse_segments(chars@.skip(1)),
            decreases n - i,
        {
            let ghost done = segments@.map_values(|s: SelectorSegment| s@);
            let ghost s = chars@.skip(i as int);
            proof {
                assert(s.len() == n - i);
                assert(forall|j: int| 0 <= j < s.len() ==> s[j] == chars@[i + j]);
            }
            if chars[i] != '.' || i + 1 >= n {
                proof {
                    assert(parse_segments(s) is None);
                    assert(parse_segments(chars@.skip(1)) is None);
                    assert(source@ == chars@ && chars@[0] == '$' && chars@.len() > 0);
                    assert(parse_selector_model(source@) is None);
                }
                return Option::None;
            }
            if chars[i + 1] == '*' {
                segments.push(SelectorSegment::Wildcard);
                proof {
                    assert(s[0] == '.' && s.len() >= 2 && s[1] == '*');
                    assert(s.skip(2) =~= chars@.skip(i + 2));
                    lemma_glue_segments(done, SegModel::Wildcard, parse_segments(s.skip(2)));
                    assert(segments@.map_values(|x: SelectorSegment| x@) =~= done.push(
                        SegModel::Wildcard,
                    ));
                }
                i += 2;
            } else {
                let mut j: usize = i + 1;
                while j < n && crate::ident::ident_char(chars[j])
                    invariant
                        i + 1 <= j <= n == chars@.len(),
                        forall|m: int| i + 1 <= m < j ==> crate::ident::is_ident_char(
                            #[trigger] chars@[m],
                        ),
                    decreases n - j,
                {
                    j += 1;
                }
                let rn: usize = j - (i + 1);
                proof {
                    let u = chars@.skip(i + 1);
                    assert(u =~= s.skip(1));
                    assert(forall|m: int| 0 <= m < rn ==> is_member_char(#[trigger] u[m]));
                    assert(rn < u.len() ==> !is_member_char(u[rn as int]));
                    lemma_member_run_of(u, rn as nat);
                }
                if rn == 0 {
                    proof {
                        assert(s[1] != '*');
                        assert(member_run(s.skip(1)) == 0);
                        assert(parse_segments(s) is None);
                        assert(parse_segments(chars@.skip(1)) is None);
                        assert(source@ == chars@ && chars@[0] == '$' && chars@.len() > 0);
                        assert(parse_selector_model(source@) is None);
                    }
                    return Option::None;
                }
                let name = crate::parse::chars_subrange(&chars, i + 1, j);
                segments.push(SelectorSegment::Member(crate::text::chars_to_string(&name)));
                proof {
                    assert(s[0] == '.' && s.len() >= 2 && s[1] != '*');
                    assert(member_run(s.skip(1)) == rn);
                    assert(1 + rn <= s.len());
                    assert(name@ =~= s.subrange(1, 1 + rn as int));
                    assert(s.skip(1 + rn as int) =~= chars@.skip(i + 1 + rn));
                    lemma_glue_segments(
                        done,
                        SegModel::Member(name@),
                        parse_segments(s.skip(1 + rn as int)),
                    );
                    assert(segments@.map_values(|x: SelectorSegment| x@) =~= done.push(
                        SegModel::Member(name@),
                    ));
                }
                i = j;
            }
        }
        proof {
            assert(chars@.skip(i as int).len() == 0);
            assert(parse_segments(chars@.skip(i as int)) == Option::Some(Seq::<SegModel>::empty()));
            assert(segments@.map_values(|s: SelectorSegment| s@) + Seq::<SegModel>::empty()
                =~= segments@.map_values(|s: SelectorSegment| s@));
        }
        Option::Some(Selector { segments })
    }

    /// Apply the selector: the matched values, in document order.
    pub fn apply<'a>(&self, v: &'a JsonValue) -> (r: Vec<&'a JsonValue>)
        ensures
            r@.map_values(|x: &JsonValue| *x) == selector_apply_model(self@, *v),
    {
        let mut cur: Vec<&'a JsonValue> = Vec::new();
        cur.push(v);
        let mut j: usize = 0;
        proof {
            assert(cur@.map_values(|x: &JsonValue| *x) =~= seq![*v]);
            assert(selector_state(*v, self@, 0) == seq![*v]);
        }
        while j < self.segments.len()
            invariant
                0 <= j <= self.segments@.len(),
                self@ == self.segments@.map_values(|s: SelectorSegment| s@),
                self@.len() == self.segments@.len(),
                cur@.map_values(|x: &JsonValue| *x) == selector_state(*v, self@, j as int),
            decreases self.segments@.len() - j,
        {
            let seg = &self.segments[j];
            let ghost segm = self.segments@[j as int]@;
            let ghost prev = cur@.map_values(|x: &JsonValue| *x);
            let mut next: Vec<&'a JsonValue> = Vec::new();
            let mut k: usize = 0;
            proof {
                assert(self@[j as int] == segm);
                assert(seg_apply_to(segm, prev, 0) == Seq::<JsonValue>::empty());
                assert(next@.map_values(|x: &JsonValue| *x) =~= Seq::<JsonValue>::empty());
            }
            while k < cur.len()
                invariant
                    0 <= k <= cur@.len(),
                    (*seg)@ == segm,
                    prev == cur@.map_values(|x: &JsonValue| *x),
                    prev.len() == cur@.len(),
                    next@.map_values(|x: &JsonValue| *x) == seg_apply_to(segm, prev, k as int),
                decreases cur@.len() - k,
            {
                let node: &'a JsonValue = cur[k];
                proof {
                    assert(prev[k as int] == *node);
                }
                push_seg_apply(seg, node, &mut next);
                proof {
                    assert(seg_apply_to(segm, prev, k + 1) == seg_apply_to(segm, prev, k as int)
                        + seg_apply(segm, prev[k as int]));
                }
                k += 1;
            }
            cur = next;
            proof {
                assert(selector_state(*v, self@, j + 1) == seg_apply_to(
                    self@[j as int],
                    selector_state(*v, self@, j as int),
                    selector_state(*v, self@, j as int).len() as int,
                ));
            }
            j += 1;
        }
        cur
    }
}

/// Append what one step yields on one node.
fn push_seg_apply<'a>(seg: &SelectorSegment, node: &'a JsonValue, next: &mut Vec<&'a JsonValue>)
    ensures
        final(next)@.map_values(|x: &JsonValue| *x) == old(next)@.map_values(|x: &JsonValue| *x)
            + seg_apply((*seg)@, *node),
{
    let ghost pre_next = next@.map_values(|x: &JsonValue| *x);
    match seg {
        SelectorSegment::Member(key) => {
            match node {
                JsonValue::Object(members) => {
                    let mut m: usize = 0;
                    let mut found: bool = false;
                    proof {
                        lemma_member_lookup_from(members@, 0, key@);
                    }
                    while m < members.len() && !found
                        invariant
                            0 <= m <= members@.len(),
                            !found ==> member_lookup_from(members@, m as int, key@)
                                == member_lookup(members@, key@),
                            found ==> m >= 1 && 0 <= m - 1 < members@.len() && member_lookup(
                                members@,
                                key@,
                            ) == Option::Some(members@[m - 1].1) && next@.map_values(
                                |x: &JsonValue| *x,
                            ) == pre_next + seq![members@[m - 1].1],
                            !found ==> next@.map_values(|x: &JsonValue| *x) == pre_next,
                        decreases members@.len() - m,
                    {
                        let keys_equal = crate::text::chars_eq(
                            &str_chars(members[m].0.as_str()),
                            &str_chars(key.as_str()),
                        );
                        proof {
                            lemma_member_lookup_from(members@, m as int, key@);
                        }
                        if keys_equal {
                            let val_ref: &'a JsonValue = &members[m].1;
                            proof {
                                assert(*val_ref == members@[m as int].1);
                            }
                            next.push(val_ref);
                            found = true;
                            proof {
                                assert(next@.map_values(|x: &JsonValue| *x) =~= pre_next + seq![
                                    members@[m as int].1,
                                ]);
                            }
                        }
                        m += 1;
                    }
                    proof {
                        if !found {
                            assert(member_lookup_from(members@, members@.len() as int, key@)
                                is None);
                            assert(member_lookup(members@, key@) is None);
                            assert(seg_apply((*seg)@, *node) =~= Seq::<JsonValue>::empty());
                            assert(next@.map_values(|x: &JsonValue| *x) =~= pre_next + seg_apply(
                                (*seg)@,
                                *node,
                            ));
                        } else {
                            assert(seg_apply((*seg)@, *node) =~= seq![members@[m - 1].1]);
                            assert(next@.map_values(|x: &JsonValue| *x) =~= pre_next + seg_apply(
                                (*seg)@,
                                *node,
                            ));
                        }
                    }
                },
                _ => {
                    proof {
                        assert(seg_apply((*seg)@, *node) =~= Seq::<JsonValue>::empty());
                        assert(next@.map_values(|x: &JsonValue| *x) =~= pre_next + seg_apply(
                            (*seg)@,
                            *node,
                        ));
                    }
                },
            }
        },
        SelectorSegment::Wildcard => {
            match node {
                JsonValue::Object(members) => {
                    let mut m: usize = 0;
                    while m < members.len()
                        invariant
                            0 <= m <= members@.len(),
                            next@.map_values(|x: &JsonValue| *x) == pre_next + members@.subrange(
                                0,
                                m as int,
                            ).map_values(|p: (String, JsonValue)| p.1),
                        decreases members@.len() - m,
                    {
                        let val_ref: &'a JsonValue = &members[m].1;
                        let ghost nb = next@;
                        proof {
                            assert(*val_ref == members@[m as int].1);
                        }
                        next.push(val_ref);
                        proof {
                            assert(next@ =~= nb.push(val_ref));
                            assert(next@.map_values(|x: &JsonValue| *x) =~= nb.map_values(
                                |x: &JsonValue| *x,
                            ).push(members@[m as int].1));
                            assert(members@.subrange(0, m + 1 as int).map_values(
                                |p: (String, JsonValue)| p.1,
                            ) =~= members@.subrange(0, m as int).map_values(
                                |p: (String, JsonValue)| p.1,
                            ).push(members@[m as int].1));
                            assert(next@.map_values(|x: &JsonValue| *x) =~= pre_next
                                + members@.subrange(0, m + 1 as int).map_values(
                                |p: (String, JsonValue)| p.1,
                            ));
                        }
                        m += 1;
                    }
                    proof {
                        assert(members@.subrange(0, members@.len() as int) =~= members@);
                        assert(seg_apply((*seg)@, *node) == members@.map_values(
                            |p: (String, JsonValue)| p.1,
                        ));
                    }
                },
                JsonValue::Array(items) => {
                    let mut m: usize = 0;
                    while m < items.len()
                        invariant
                            0 <= m <= items@.len(),
                            next@.map_values(|x: &JsonValue| *x) == pre_next + items@.subrange(
                                0,
                                m as int,
                            ),
                        decreases items@.len() - m,
                    {
                        let val_ref: &'a JsonValue = &items[m];
                        let ghost nb = next@;
                        proof {
                            assert(*val_ref == items@[m as int]);
                        }
                        next.push(val_ref);
                        proof {
                            assert(next@ =~= nb.push(val_ref));
                            assert(next@.map_values(|x: &JsonValue| *x) =~= nb.map_values(
                                |x: &JsonValue| *x,
                            ).push(items@[m as int]));
                            assert(next@.map_values(|x: &JsonValue| *x) =~= pre_next
                                + items@.subrange(0, m + 1 as int));
                        }
                        m += 1;
                    }
                    proof {
                        assert(items@.subrange(0, items@.len() as int) =~= items@);
                        assert(seg_apply((*seg)@, *node) == items@);
                    }
                },
                _ => {
                    proof {
                        assert(seg_apply((*seg)@, *node) =~= Seq::<JsonValue>::empty());
                        assert(next@.map_values(|x: &JsonValue| *x) =~= pre_next + seg_apply(
                            (*seg)@,
                            *node,
                        ));
                    }
                },
            }
        },
    }
}

/// The first member at or after `from` under `key`.
pub open spec fn member_lookup_from(
    members: Seq<(String, JsonValue)>,
    from: int,
    key: Seq<char>,
) -> Option<JsonValue>
    decreases members.len() - from,
{
    if from < 0 || from >= members.len() {
        Option::None
    } else if members[from].0@ == key {
        Option::Some(members[from].1)
    } else {
        member_lookup_from(members, from + 1, key)
    }
}

/// Looking from the front is looking from index zero.
proof fn lemma_member_lookup_from(members: Seq<(String, JsonValue)>, from: int, key: Seq<char>)
    ensures
        member_lookup_from(members, 0, key) == member_lookup(members, key),
        0 <= from < members.len() ==> member_lookup_from(members, from, key) == (
        if members[from].0@ == key {
            Option::Some(members[from].1)
        } else {
            member_lookup_from(members, from + 1, key)
        }),
    decreases members.len(),
{
    if members.len() > 0 {
        let rest = members.drop_first();
        lemma_member_lookup_from(rest, from - 1, key);
        assert(forall|i: int| 0 <= i < rest.len() ==> rest[i] == members[i + 1]);
        lemma_member_lookup_shift(members, 1, key);
    }
}

/// `member_lookup_from` on a tail equals dropping the head.
proof fn lemma_member_lookup_shift(members: Seq<(String, JsonValue)>, from: int, key: Seq<char>)
    requires
        1 <= from,
        members.len() >= 1,
    ensures
        member_lookup_from(members, from, key) == member_lookup_from(
            members.drop_first(),
            from - 1,
            key,
        ),
    decreases members.len() - from,
{
    let rest = members.drop_first();
    if from >= members.len() {
    } else {
        assert(rest[from - 1] == members[from]);
        lemma_member_lookup_shift(members, from + 1, key);
    }
}

/// A scanned run of member characters is the front member run.
proof fn lemma_member_run_of(s: Seq<char>, k: nat)
    requires
        k <= s.len(),
        forall|m: int| 0 <= m < k ==> is_member_char(#[trigger] s[m]),
        k < s.len() ==> !is_member_char(s[k as int]),
    ensures
        member_run(s) == k,
    decreases k,
{
    if k == 0 {
    } else {
        let u = s.drop_first();
        assert(forall|m: int| 0 <= m < k - 1 ==> u[m] == s[m + 1]);
        assert(k - 1 < u.len() ==> u[k - 1] == s[k as int]);
        lemma_member_run_of(u, (k - 1) as nat);
    }
}

/// Glue already-parsed steps and the parse of the rest.
pub open spec fn glue_segments(done: Seq<SegModel>, rest: Option<Seq<SegModel>>) -> Option<
    Seq<SegModel>,
> {
    match rest {
        Option::Some(cs) => Option::Some(done + cs),
        Option::None => Option::None,
    }
}

/// Moving one parsed step across the glue boundary.
proof fn lemma_glue_segments(done: Seq<SegModel>, seg: SegModel, rest: Option<Seq<SegModel>>)
    ensures
        glue_segments(done.push(seg), rest) == glue_segments(
            done,
            match rest {
                Option::Some(cs) => Option::Some(seq![seg] + cs),
                Option::None => Option::None,
            },
        ),
{
    match rest {
        Option::Some(cs) => {
            assert(done.push(seg) + cs =~= done + (seq![seg] + cs));
        },
        Option::None => {},
    }
}

impl Clone for SelectorSegment {
    fn clone(&self) -> (r: Self)
        ensures
            r == *self,
    {
        match self {
            SelectorSegment::Member(s) => SelectorSegment::Member(s.clone()),
            SelectorSegment::Wildcard => SelectorSegment::Wildcard,
        }
    }
}

impl Clone for Selector {
    fn clone(&self) -> (r: Self)
        ensures
            r@ == self@,
    {
        let mut segments: Vec<SelectorSegment> = Vec::new();
        let mut i: usize = 0;
        while i < self.segments.len()
            invariant
                0 <= i <= self.segments@.len(),
                segments@ =~= self.segments@.subrange(0, i as int),
            decreases self.segments@.len() - i,
        {
            segments.push(self.segments[i].clone());
            proof {
                assert(segments@ =~= self.segments@.subrange(0, i + 1 as int));
            }
            i += 1;
        }
        proof {
            assert(segments@ =~= self.segments@);
        }
        Selector { segments }
    }
}

} // verus!
