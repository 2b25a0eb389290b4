//! The request collection: profiles, chains and recipes, with the
//! first-match lookups the renderer uses.

use vstd::prelude::*;
use crate::ident::Identifier;
use crate::json::ContentType;
use crate::selector::Selector;
use crate::template::Template;
use crate::text::chars_eq;

verus! {

/// When a Request chain may reuse a stored exchange or send fresh.
#[derive(Clone, Copy, Debug, PartialEq, Eq, Structural)]
pub enum ChainRequestTrigger {
    /// Use the most recent stored exchange; fail if none.
    Never,
    /// Use the latest stored exchange; send fresh only if none.
    NoHistory,
    /// Use a stored exchange no older than this many seconds; else
    /// send fresh.
    Expire(u64),
    /// Always send fresh.
    Always,
}

/// Which part of a response a Request chain reads.
#[derive(Debug, PartialEq, Eq)]
pub enum ChainRequestSection {
    /// The response body bytes.
    Body,
    /// The value of this response header.
    Header(String),
}

/// Which whitespace the chain engine trims from textual output.
/// Trimming removes ASCII whitespace only.
#[derive(Clone, Copy, Debug, PartialEq, Eq, Structural)]
pub enum ChainOutputTrim {
    /// Trim nothing.
    Off,
    /// Trim leading whitespace.
    Start,
    /// Trim trailing whitespace.
    End,
    /// Trim both ends.
    Both,
}

/// Where a chain's bytes come from.
#[derive(Debug, PartialEq, Eq)]
pub enum ChainSource {
    /// Read a past or fresh response of a recipe.
    Request { recipe: Identifier, trigger: ChainRequestTrigger, section: ChainRequestSection },
    /// Spawn a process and capture its stdout.
    Command { command: Vec<Template>, stdin: Option<Template> },
    /// Read a file's bytes.
    File { path: Template },
    /// Read a process environment variable; missing means empty.
    Environment { variable: Template },
    /// Ask the user.
    Prompt { message: Option<Template>, default: Option<Template> },
}

/// A named side-effecting value source.
#[derive(Debug)]
pub struct Chain {
    /// The chain's name, referenced by `{{chains.<id>}}` keys.
    pub id: Identifier,
    /// Where the bytes come from.
    pub source: ChainSource,
    /// Whether values from this chain must not be shown in cleartext.
    pub sensitive: bool,
    /// A path query applied to the structured body.
    pub selector: Option<Selector>,
    /// How to decode the bytes for the selector; if absent, inferred
    /// from upstream metadata.
    pub content_type: Option<ContentType>,
    /// The trim policy for textual output.
    pub trim: ChainOutputTrim,
}

/// A named map of fields used as the default environment of a render.
#[derive(Debug)]
pub struct Profile {
    /// The profile's name.
    pub id: Identifier,
    /// Field values, in authoring order.
    pub data: Vec<(Identifier, Template)>,
}

/// A templated request definition. The library locates recipes and
/// renders their URL; building and sending is the HTTP engine's work.
#[derive(Debug)]
pub struct Recipe {
    /// The recipe's name.
    pub id: Identifier,
    /// The templated request URL.
    pub url: Template,
}

/// The user-authored document: profiles, chains and recipes.
#[derive(Debug)]
pub struct Collection {
    /// Profiles, in authoring order.
    pub profiles: Vec<Profile>,
    /// Chains, in authoring order.
    pub chains: Vec<Chain>,
    /// Recipes, in authoring order.
    pub recipes: Vec<Recipe>,
}

/// The index of the first profile named `id`.
pub open spec fn profile_index(profiles: Seq<Profile>, id: Seq<char>, from: int) -> Option<int>
    decreases profiles.len() - from,
{
    if from < 0 || from >= profiles.len() {
        Option::None
    } else if profiles[from].id@ == id {
        Option::Some(from)
    } else {
        profile_index(profiles, id, from + 1)
    }
}

/// The index of the first chain named `id`.
pub open spec fn chain_index(chains: Seq<Chain>, id: Seq<char>, from: int) -> Option<int>
    decreases chains.len() - from,
{
    if from < 0 || from >= chains.len() {
        Option::None
    } else if chains[from].id@ == id {
        Option::Some(from)
    } else {
        chain_index(chains, id, from + 1)
    }
}

/// The index of the first recipe named `id`.
pub open spec fn recipe_index(recipes: Seq<Recipe>, id: Seq<char>, from: int) -> Option<int>
    decreases recipes.len() - from,
{
    if from < 0 || from >= recipes.len() {
        Option::None
    } else if recipes[from].id@ == id {
        Option::Some(from)
    } else {
        recipe_index(recipes, id, from + 1)
    }
}

/// The first field of the profile data named `name`.
pub open spec fn field_lookup(data: Seq<(Identifier, Template)>, name: Seq<char>, from: int) -> Option<
    int,
>
    decreases data.len() - from,
{
    if from < 0 || from >= data.len() {
        Option::None
    } else if data[from].0@ == name {
        Option::Some(from)
    } else {
        field_lookup(data, name, from + 1)
    }
}

/// The value under the first matching key of the override map.
pub open spec fn override_lookup(ov: Seq<(String, String)>, key: Seq<char>, from: int) -> Option<
    Seq<char>,
>
    decreases ov.len() - from,
{
    if from < 0 || from >= ov.len() {
        Option::None
    } else if ov[from].0@ == key {
        Option::Some(ov[from].1@)
    } else {
        override_lookup(ov, key, from + 1)
    }
}

impl Collection {
    /// An empty collection.
    pub fn new() -> (r: Collection)
        ensures
            r.profiles@.len() == 0,
            r.chains@.len() == 0,
            r.recipes@.len() == 0,
    {
        Collection { profiles: Vec::new(), chains: Vec::new(), recipes: Vec::new() }
    }

    /// Find the first chain with this ID.
    pub fn find_chain(&self, id: &Vec<char>) -> (r: Option<&Chain>)
        ensures
            match r {
                Option::Some(c) => {
                    &&& chain_index(self.chains@, id@, 0) is Some
                    &&& *c == self.chains@[chain_index(self.chains@, id@, 0)->0]
                },
                Option::None => chain_index(self.chains@, id@, 0) is None,
            },
    {
        let mut i: usize = 0;
        while i < self.chains.len()
            invariant
                0 <= i <= self.chains@.len(),
                chain_index(self.chains@, id@, 0) == chain_index(self.chains@, id@, i as int),
            decreases self.chains@.len() - i,
        {
            if chars_eq(self.chains[i].id.chars(), id) {
                return Option::Some(&self.chains[i]);
            }
            i += 1;
        }
        Option::None
    }

    /// Find the first recipe with this ID.
    pub fn find_recipe(&self, id: &Vec<char>) -> (r: Option<&Recipe>)
        ensures
            match r {
                Option::Some(c) => {
                    &&& recipe_index(self.recipes@, id@, 0) is Some
                    &&& *c == self.recipes@[recipe_index(self.recipes@, id@, 0)->0]
                },
                Option::None => recipe_index(self.recipes@, id@, 0) is None,
            },
    {
        let mut i: usize = 0;
        while i < self.recipes.len()
            invariant
                0 <= i <= self.recipes@.len(),
                recipe_index(self.recipes@, id@, 0) == recipe_index(self.recipes@, id@, i as int),
            decreases self.recipes@.len() - i,
        {
            if chars_eq(self.recipes[i].id.chars(), id) {
                return Option::Some(&self.recipes[i]);
            }
            i += 1;
        }
        Option::None
    }

    /// Find the first profile with this ID.
    pub fn find_profile(&self, id: &Vec<char>) -> (r: Option<&Profile>)
        ensures
            match r {
                Option::Some(p) => {
                    &&& profile_index(self.profiles@, id@, 0) is Some
                    &&& *p == self.profiles@[profile_index(self.profiles@, id@, 0)->0]
                },
                Option::None => profile_index(self.profiles@, id@, 0) is None,
            },
    {
        let mut i: usize = 0;
        while i < self.profiles.len()
            invariant
                0 <= i <= self.profiles@.len(),
                profile_index(self.profiles@, id@, 0) == profile_index(
                    self.profiles@,
                    id@,
                    i as int,
                ),
            decreases self.profiles@.len() - i,
        {
            if chars_eq(self.profiles[i].id.chars(), id) {
                return Option::Some(&self.profiles[i]);
            }
            i += 1;
        }
        Option::None
    }
}

impl Profile {
    /// Find the first field with this name.
    pub fn find_field(&self, name: &Vec<char>) -> (r: Option<&Template>)
        ensures
            match r {
                Option::Some(t) => {
                    &&& field_lookup(self.data@, name@, 0) is Some
                    &&& *t == self.data@[field_lookup(self.data@, name@, 0)->0].1
                },
                Option::None => field_lookup(self.data@, name@, 0) is None,
            },
    {
        let mut i: usize = 0;
        while i < self.data.len()
            invariant
                0 <= i <= self.data@.len(),
                field_lookup(self.data@, name@, 0) == field_lookup(self.data@, name@, i as int),
            decreases self.data@.len() - i,
        {
            if chars_eq(self.data[i].0.chars(), name) {
                return Option::Some(&self.data[i].1);
            }
            i += 1;
        }
        Option::None
    }
}

/// Look a key up in the override map: the value under the first
/// matching key.
pub fn overrides_get<'a>(ov: &'a Vec<(String, String)>, key: &Vec<char>) -> (r: Option<&'a String>)
    ensures
        match r {
            Option::Some(s) => override_lookup(ov@, key@, 0) == Option::Some(s@),
            Option::None => override_lookup(ov@, key@, 0) is None,
        },
{
    let mut i: usize = 0;
    while i < ov.len()
        invariant
            0 <= i <= ov@.len(),
            override_lookup(ov@, key@, 0) == override_lookup(ov@, key@, i as int),
        decreases ov@.len() - i,
    {
        if chars_eq(&crate::text::str_chars(ov[i].0.as_str()), key) {
            return Option::Some(&ov[i].1);
        }
        i += 1;
    }
    Option::None
}

impl Clone for ChainRequestSection {
    fn clone(&self) -> (r: Self)
        ensures
            r == *self,
    {
        match self {
            ChainRequestSection::Body => ChainRequestSection::Body,
            ChainRequestSection::Header(h) => ChainRequestSection::Header(h.clone()),
        }
    }
}

} // verus!
