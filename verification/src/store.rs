//! The persistence store of request/response exchanges, and the
//! response accessors the chain engine reads.
//!
//! The store is ordered by insertion; reads observe this process's
//! prior writes, so an exchange committed by a triggered sub-request
//! is visible to the rest of the same render tree.

use vstd::prelude::*;
use crate::ident::Identifier;
use crate::text::{ascii_ws, chars_eq};

verus! {

/// A recorded response.
#[derive(Debug)]
pub struct Response {
    /// The HTTP status code.
    pub status: u16,
    /// Response headers, in wire order.
    pub headers: Vec<(String, Vec<u8>)>,
    /// The response body bytes.
    pub body: Vec<u8>,
}

/// A request/response pair, as stored.
#[derive(Debug)]
pub struct Exchange {
    /// The recipe this exchange belongs to.
    pub recipe_id: Identifier,
    /// The recorded response.
    pub response: Response,
    /// When the exchange ended, in seconds of the store's clock.
    pub end_time: u64,
}

/// The in-memory exchange store, ordered by insertion.
#[derive(Debug)]
pub struct Store {
    exchanges: Vec<Exchange>,
}

impl View for Store {
    type V = Seq<Exchange>;

    closed spec fn view(&self) -> Seq<Exchange> {
        self.exchanges@
    }
}

/// The most recent exchange of this recipe, searching from the end.
pub open spec fn latest_of(s: Seq<Exchange>, id: Seq<char>) -> Option<Exchange>
    decreases s.len(),
{
    if s.len() == 0 {
        Option::None
    } else if s.last().recipe_id@ == id {
        Option::Some(s.last())
    } else {
        latest_of(s.drop_last(), id)
    }
}

impl Store {
    /// An empty store.
    pub fn new() -> (r: Store)
        ensures
            r@ == Seq::<Exchange>::empty(),
    {
        let exchanges: Vec<Exchange> = Vec::new();
        proof {
            assert(exchanges@ =~= Seq::<Exchange>::empty());
        }
        Store { exchanges }
    }

    /// Record an exchange. Later reads of the same recipe see it.
    pub fn insert_exchange(&mut self, e: Exchange)
        ensures
            final(self)@ == old(self)@.push(e),
    {
        self.exchanges.push(e);
    }

    /// The most recent exchange of this recipe, if any.
    pub fn get_latest(&self, recipe_id: &Vec<char>) -> (r: Option<&Exchange>)
        ensures
            match r {
                Option::Some(e) => latest_of(self@, recipe_id@) == Option::Some(*e),
                Option::None => latest_of(self@, recipe_id@) is None,
            },
    {
        let n = self.exchanges.len();
        let mut i: usize = n;
        proof {
            assert(self@.subrange(0, n as int) =~= self@);
        }
        while i > 0
            invariant
                0 <= i <= n == self@.len(),
                latest_of(self@, recipe_id@) == latest_of(self@.subrange(0, i as int), recipe_id@),
            decreases i,
        {
            i -= 1;
            if chars_eq(self.exchanges[i].recipe_id.chars(), recipe_id) {
                proof {
                    let pre = self@.subrange(0, i + 1);
                    assert(pre.last() == self@[i as int]);
                    assert(latest_of(pre, recipe_id@) == Option::Some(self@[i as int]));
                }
                return Option::Some(&self.exchanges[i]);
            }
            proof {
                let pre = self@.subrange(0, i + 1);
                assert(pre.last() == self@[i as int]);
                assert(pre.drop_last() =~= self@.subrange(0, i as int));
            }
        }
        proof {
            assert(self@.subrange(0, 0).len() == 0);
        }
        Option::None
    }
}

/// After recording an exchange, the latest exchange of its recipe is
/// that exchange: the store gives read-your-writes.
pub proof fn lemma_read_your_writes(s: Seq<Exchange>, e: Exchange)
    ensures
        latest_of(s.push(e), e.recipe_id@) == Option::Some(e),
{
    assert(s.push(e).last() == e);
}

/// Lower-case a single ASCII letter.
pub open spec fn lower_char(c: char) -> char {
    if 'A' <= c && c <= 'Z' {
        ((c as u32) + 32) as char
    } else {
        c
    }
}

/// ASCII-case-insensitive equality on names.
pub open spec fn name_eq(a: Seq<char>, b: Seq<char>) -> bool {
    a.map_values(|c: char| lower_char(c)) == b.map_values(|c: char| lower_char(c))
}

/// Executable ASCII-case-insensitive comparison.
pub fn names_equal(a: &Vec<char>, b: &Vec<char>) -> (r: bool)
    ensures
        r == name_eq(a@, b@),
{
    if a.len() != b.len() {
        proof {
            assert(a@.map_values(|c: char| lower_char(c)).len() != b@.map_values(
                |c: char| lower_char(c),
            ).len());
        }
        return false;
    }
    let mut i: usize = 0;
    while i < a.len()
        invariant
            a@.len() == b@.len(),
            0 <= i <= a@.len(),
            forall|j: int| 0 <= j < i ==> lower_char(#[trigger] a@[j]) == lower_char(b@[j]),
        decreases a@.len() - i,
    {
        let ca = a[i] as u32;
        let cb = b[i] as u32;
        let la = if 65 <= ca && ca <= 90 {
            ca + 32
        } else {
            ca
        };
        let lb = if 65 <= cb && cb <= 90 {
            cb + 32
        } else {
            cb
        };
        if la != lb {
            proof {
                assert(lower_char(a@[i as int]) != lower_char(b@[i as int])) by {
                    assert(la == lower_char(a@[i as int]) as u32);
                    assert(lb == lower_char(b@[i as int]) as u32);
                }
                assert(a@.map_values(|c: char| lower_char(c))[i as int] != b@.map_values(
                    |c: char| lower_char(c),
                )[i as int]);
            }
            return false;
        }
        proof {
            assert(la == lower_char(a@[i as int]) as u32);
            assert(lb == lower_char(b@[i as int]) as u32);
            assert(lower_char(a@[i as int]) as u32 == lower_char(b@[i as int]) as u32);
            assert(lower_char(a@[i as int]) == lower_char(b@[i as int]));
        }
        i += 1;
    }
    proof {
        assert(a@.map_values(|c: char| lower_char(c)) =~= b@.map_values(|c: char| lower_char(c)));
    }
    true
}

/// The value of the first header with this name, compared without
/// regard to ASCII case.
pub open spec fn header_lookup(headers: Seq<(String, Vec<u8>)>, name: Seq<char>, from: int) -> Option<
    Seq<u8>,
>
    decreases headers.len() - from,
{
    if from < 0 || from >= headers.len() {
        Option::None
    } else if name_eq(headers[from].0@, name) {
        Option::Some(headers[from].1@)
    } else {
        header_lookup(headers, name, from + 1)
    }
}

impl Response {
    /// The first header under this name, without regard to ASCII
    /// case.
    pub fn find_header(&self, name: &Vec<char>) -> (r: Option<&Vec<u8>>)
        ensures
            match r {
                Option::Some(v) => header_lookup(self.headers@, name@, 0) == Option::Some(v@),
                Option::None => header_lookup(self.headers@, name@, 0) is None,
            },
    {
        let mut i: usize = 0;
        while i < self.headers.len()
            invariant
                0 <= i <= self.headers@.len(),
                header_lookup(self.headers@, name@, 0) == header_lookup(
                    self.headers@,
                    name@,
                    i as int,
                ),
            decreases self.headers@.len() - i,
        {
            if names_equal(&crate::text::str_chars(self.headers[i].0.as_str()), name) {
                return Option::Some(&self.headers[i].1);
            }
            i += 1;
        }
        Option::None
    }
}

} // verus!
