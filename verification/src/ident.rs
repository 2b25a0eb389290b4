//! Identifiers: the names used for profile fields, chain IDs, recipe IDs
//! and environment variables inside template keys.

use vstd::prelude::*;

verus! {

/// True for the characters an identifier may contain: ASCII letters,
/// digits, `_` and `-`.
pub open spec fn is_ident_char(c: char) -> bool {
    ||| ('a' <= c && c <= 'z')
    ||| ('A' <= c && c <= 'Z')
    ||| ('0' <= c && c <= '9')
    ||| c == '_'
    ||| c == '-'
}

/// A valid identifier is non-empty and made only of allowed characters.
pub open spec fn is_valid_ident(s: Seq<char>) -> bool {
    &&& s.len() > 0
    &&& forall|i: int| 0 <= i < s.len() ==> is_ident_char(#[trigger] s[i])
}

/// Executable test matching [`is_ident_char`].
pub fn ident_char(c: char) -> (r: bool)
    ensures
        r == is_ident_char(c),
{
    let u = c as u32;
    (97 <= u && u <= 122) || (65 <= u && u <= 90) || (48 <= u && u <= 57) || u == 95 || u == 45
}

/// An identifier that can be used in a template key: a non-empty string
/// of ASCII letters, digits, `_` and `-`. Construction from an invalid
/// string fails; once constructed an identifier is immutable.
#[derive(Debug, PartialEq, Eq, Hash)]
pub struct Identifier {
    name: Vec<char>,
}

impl View for Identifier {
    type V = Seq<char>;

    closed spec fn view(&self) -> Seq<char> {
        self.name@
    }
}

impl Clone for Identifier {
    fn clone(&self) -> (r: Self)
        ensures
            r@ == self@,
    {
        Identifier { name: self.name.clone() }
    }
}

impl Identifier {
    /// The identifier's validity invariant.
    pub open spec fn wf(&self) -> bool {
        is_valid_ident(self@)
    }

    /// Parse an identifier, rejecting the empty string and any string
    /// with a character outside the allow-set.
    pub fn parse(chars: &Vec<char>) -> (r: Option<Identifier>)
        ensures
            r is Some <==> is_valid_ident(chars@),
            r is Some ==> r->0@ == chars@ && r->0.wf(),
    {
        if chars.len() == 0 {
            return None;
        }
        let mut i: usize = 0;
        while i < chars.len()
            invariant
                0 <= i <= chars.len(),
                forall|j: int| 0 <= j < i ==> is_ident_char(#[trigger] chars@[j]),
            decreases chars.len() - i,
        {
            if !ident_char(chars[i]) {
                return None;
            }
            i += 1;
        }
        Some(Identifier { name: chars.clone() })
    }

    /// The identifier's characters.
    pub fn chars(&self) -> (r: &Vec<char>)
        ensures
            r@ == self@,
    {
        &self.name
    }
}

} // verus!
