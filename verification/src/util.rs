//! Small shared utilities: documentation links, label mappings, a
//! replaceable cell, and a byte printer.

use vstd::prelude::*;
use vstd::std_specs::cmp::PartialEqSpec;
use crate::text::{chars_eq, chars_to_string, str_chars};

verus! {

/// A link to a page of the documentation site: the site, the book
/// prefix, the page path and the `.html` suffix.
pub fn doc_link(path: &str) -> (r: String)
    ensures
        r@ == "https://slumber.lucaspickering.me/book/"@ + path@ + ".html"@,
{
    String::from_str("https://slumber.lucaspickering.me/book/").concat(path).concat(".html")
}

/// A static mapping between values and labels, used both to
/// stringify values and to parse them back.
pub struct Mapping<'a, T> {
    entries: &'a [(T, &'a [&'a str])],
}

/// The first value one of whose labels is `s`, rows searched in
/// order.
pub open spec fn mapping_lookup<T>(rows: Seq<(T, &[&str])>, s: Seq<char>, from: int) -> Option<T>
    decreases rows.len() - from,
{
    if from < 0 || from >= rows.len() {
        Option::None
    } else if exists|k: int| 0 <= k < rows[from].1@.len() && (#[trigger] rows[from].1@[k])@ == s {
        Option::Some(rows[from].0)
    } else {
        mapping_lookup(rows, s, from + 1)
    }
}

impl<'a, T: Copy> Mapping<'a, T> {
    /// Wrap a static table of values and their labels.
    pub fn new(mapping: &'a [(T, &'a [&'a str])]) -> (r: Self)
        ensures
            r.rows() == mapping@,
    {
        Mapping { entries: mapping }
    }

    /// The rows of the table.
    pub closed spec fn rows(&self) -> Seq<(T, &'a [&'a str])> {
        self.entries@
    }

    /// Get a value by one of its labels.
    pub fn get(&self, s: &str) -> (r: Option<T>)
        ensures
            r == mapping_lookup(self.rows(), s@, 0),
    {
        let target = str_chars(s);
        let n = self.entries.len();
        let mut i: usize = 0;
        while i < n
            invariant
                n == self.rows().len(),
                0 <= i <= n,
                target@ == s@,
                mapping_lookup(self.rows(), s@, 0) == mapping_lookup(self.rows(), s@, i as int),
            decreases n - i,
        {
            let row = &self.entries[i];
            let labels = row.1;
            let m = labels.len();
            let mut k: usize = 0;
            while k < m
                invariant
                    m == labels@.len(),
                    0 <= k <= m,
                    target@ == s@,
                    labels@ == self.rows()[i as int].1@,
                    i < self.rows().len(),
                    *row == self.rows()[i as int],
                    mapping_lookup(self.rows(), s@, 0) == mapping_lookup(
                        self.rows(),
                        s@,
                        i as int,
                    ),
                    forall|j: int| 0 <= j < k ==> (#[trigger] labels@[j])@ != s@,
                decreases m - k,
            {
                if chars_eq(&str_chars(labels[k]), &target) {
                    proof {
                        assert((self.rows()[i as int].1@[k as int])@ == s@);
                        assert(exists|kk: int|
                            0 <= kk < self.rows()[i as int].1@.len() && (
                            #[trigger] self.rows()[i as int].1@[kk])@ == s@);
                        assert(mapping_lookup(self.rows(), s@, i as int) == Option::Some(
                            self.rows()[i as int].0,
                        ));
                        assert(row.0 == self.rows()[i as int].0);
                        assert(mapping_lookup(self.rows(), s@, 0) == Option::Some(row.0));
                    }
                    return Option::Some(row.0);
                }
                k += 1;
            }
            proof {
                assert(forall|j: int| 0 <= j < self.rows()[i as int].1@.len() ==> (
                #[trigger] self.rows()[i as int].1@[j])@ != s@);
            }
            i += 1;
        }
        Option::None
    }

    /// All labels of the table, row by row.
    pub fn all_strings(&self) -> (r: Vec<&'a str>)
        ensures
            r@ == labels_concat(self.rows(), self.rows().len() as int),
    {
        let mut out: Vec<&'a str> = Vec::new();
        let n = self.entries.len();
        let mut i: usize = 0;
        proof {
            assert(out@ =~= labels_concat(self.rows(), 0));
        }
        while i < n
            invariant
                n == self.rows().len(),
                0 <= i <= n,
                out@ == labels_concat(self.rows(), i as int),
            decreases n - i,
        {
            let ghost pre = out@;
            let labels = self.entries[i].1;
            let m = labels.len();
            let mut k: usize = 0;
            while k < m
                invariant
                    m == labels@.len(),
                    0 <= k <= m,
                    i < self.rows().len(),
                    labels@ == self.rows()[i as int].1@,
                    out@ == pre + labels@.subrange(0, k as int),
                decreases m - k,
            {
                out.push(labels[k]);
                proof {
                    assert(out@ =~= pre + labels@.subrange(0, k + 1 as int));
                }
                k += 1;
            }
            proof {
                assert(labels@.subrange(0, m as int) =~= labels@);
                assert(labels_concat(self.rows(), i + 1 as int) == labels_concat(
                    self.rows(),
                    i as int,
                ) + self.rows()[i as int].1@);
            }
            i += 1;
        }
        out
    }
}

/// The labels of the first `i` rows, concatenated row by row.
pub open spec fn labels_concat<'a, T>(rows: Seq<(T, &'a [&'a str])>, i: int) -> Seq<&'a str>
    decreases i,
{
    if i <= 0 || i > rows.len() {
        Seq::empty()
    } else {
        labels_concat(rows, i - 1) + rows[i - 1].1@
    }
}

/// The first row whose value equals `value`, under the comparison's
/// own model.
pub open spec fn value_row<'a, T: PartialEq<T>>(
    rows: Seq<(T, &'a [&'a str])>,
    value: T,
    from: int,
) -> Option<int>
    decreases rows.len() - from,
{
    if from < 0 || from >= rows.len() {
        Option::None
    } else if value.eq_spec(&rows[from].0) {
        Option::Some(from)
    } else {
        value_row(rows, value, from + 1)
    }
}

impl<'a, T: Copy + PartialEq> Mapping<'a, T> {
    /// The first label of the first row holding a value: the value
    /// must be in the table, and its row must have a label.
    pub fn get_label(&self, value: T) -> (r: &'a str)
        requires
            T::obeys_eq_spec(),
            value_row(self.rows(), value, 0) is Some,
            self.rows()[value_row(self.rows(), value, 0)->0].1@.len() > 0,
        ensures
            r == self.rows()[value_row(self.rows(), value, 0)->0].1@[0],
    {
        let n = self.entries.len();
        let mut i: usize = 0;
        while i < n
            invariant
                T::obeys_eq_spec(),
                n == self.rows().len(),
                0 <= i <= n,
                value_row(self.rows(), value, 0) is Some,
                self.rows()[value_row(self.rows(), value, 0)->0].1@.len() > 0,
                value_row(self.rows(), value, 0) == value_row(self.rows(), value, i as int),
            decreases n - i,
        {
            let row = &self.entries[i];
            if value == row.0 {
                return row.1[0];
            }
            i += 1;
        }
        proof {
            assert(false);
        }
        self.entries[0].1[0]
    }
}

/// Stepping the lookup past one row that lacks the label.
proof fn lemma_mapping_lookup_step<'a, T>(rows: Seq<(T, &'a [&'a str])>, s: Seq<char>, i: int)
    requires
        0 <= i < rows.len(),
        forall|k: int| 0 <= k < rows[i].1@.len() ==> (#[trigger] rows[i].1@[k])@ != s,
    ensures
        mapping_lookup(rows, s, i) == mapping_lookup(rows, s, i + 1),
{
}

/// The label round trip: looking up the first label of a value's
/// row yields that row's value, provided no earlier row carries the
/// same label. With `get_label` and `get`'s own contracts this is
/// exactly `get(get_label(v))` finding a value that compares equal
/// to `v`.
pub proof fn lemma_label_round_trip<'a, T: PartialEq<T>>(rows: Seq<(T, &'a [&'a str])>, value: T)
    requires
        T::obeys_eq_spec(),
        value_row(rows, value, 0) is Some,
        rows[value_row(rows, value, 0)->0].1@.len() > 0,
        forall|j: int, k: int|
            0 <= j < value_row(rows, value, 0)->0 && 0 <= k < rows[j].1@.len() ==> (
            #[trigger] rows[j].1@[k])@ != (rows[value_row(rows, value, 0)->0].1@[0])@,
    ensures
        ({
            let vr = value_row(rows, value, 0)->0;
            let label = (rows[vr].1@[0])@;
            mapping_lookup(rows, label, 0) matches Option::Some(w) && value.eq_spec(&w)
        }),
{
    let vr = value_row(rows, value, 0)->0;
    let label = (rows[vr].1@[0])@;
    lemma_value_row_bounds(rows, value, 0);
    lemma_lookup_reaches(rows, label, 0, vr);
    assert(exists|k: int| 0 <= k < rows[vr].1@.len() && (#[trigger] rows[vr].1@[k])@ == label)
        by {
        assert((rows[vr].1@[0])@ == label);
    }
    assert(mapping_lookup(rows, label, vr) == Option::Some(rows[vr].0));
    lemma_value_row_eq(rows, value, 0);
}

/// The found row is in bounds.
proof fn lemma_value_row_bounds<'a, T: PartialEq<T>>(
    rows: Seq<(T, &'a [&'a str])>,
    value: T,
    from: int,
)
    requires
        value_row(rows, value, from) is Some,
    ensures
        from <= value_row(rows, value, from)->0 < rows.len(),
    decreases rows.len() - from,
{
    if !(from < 0 || from >= rows.len()) && !value.eq_spec(&rows[from].0) {
        lemma_value_row_bounds(rows, value, from + 1);
    }
}

/// The found row's value compares equal to the one sought.
proof fn lemma_value_row_eq<'a, T: PartialEq<T>>(
    rows: Seq<(T, &'a [&'a str])>,
    value: T,
    from: int,
)
    requires
        value_row(rows, value, from) is Some,
    ensures
        value.eq_spec(&rows[value_row(rows, value, from)->0].0),
    decreases rows.len() - from,
{
    if !(from < 0 || from >= rows.len()) && !value.eq_spec(&rows[from].0) {
        lemma_value_row_eq(rows, value, from + 1);
    }
}

/// The label lookup passes every row before `upto` that lacks the
/// label.
proof fn lemma_lookup_reaches<'a, T>(
    rows: Seq<(T, &'a [&'a str])>,
    s: Seq<char>,
    i: int,
    upto: int,
)
    requires
        0 <= i <= upto <= rows.len(),
        forall|j: int, k: int|
            i <= j < upto && 0 <= k < rows[j].1@.len() ==> (#[trigger] rows[j].1@[k])@ != s,
    ensures
        mapping_lookup(rows, s, i) == mapping_lookup(rows, s, upto),
    decreases upto - i,
{
    if i < upto {
        lemma_mapping_lookup_step(rows, s, i);
        lemma_lookup_reaches(rows, s, i + 1, upto);
    }
}

/// A value that can be replaced in place, passing ownership of the
/// old value to the function that builds the new one.
pub struct Replaceable<T> {
    slot: Option<T>,
}

impl<T> Replaceable<T> {
    /// Whether the value is present (it always is between calls).
    pub closed spec fn wf(&self) -> bool {
        self.slot is Some
    }

    /// The held value.
    pub closed spec fn value(&self) -> T {
        self.slot->0
    }

    /// Wrap a value.
    pub fn new(value: T) -> (r: Self)
        ensures
            r.wf(),
            r.value() == value,
    {
        Replaceable { slot: Option::Some(value) }
    }

    /// Replace the old value with the new one; the function that
    /// builds the new value consumes the old one.
    pub fn replace<F: FnOnce(T) -> T>(&mut self, f: F)
        requires
            old(self).wf(),
            call_requires(f, (old(self).value(),)),
        ensures
            final(self).wf(),
            call_ensures(f, (old(self).value(),), final(self).value()),
    {
        let mut taken: Option<T> = Option::None;
        core::mem::swap(&mut self.slot, &mut taken);
        match taken {
            Option::Some(v) => {
                self.slot = Option::Some(f(v));
            },
            Option::None => {
                proof {
                    assert(false);
                }
            },
        }
    }

    /// Borrow the held value.
    pub fn get(&self) -> (r: &T)
        requires
            self.wf(),
        ensures
            *r == self.value(),
    {
        self.slot.as_ref().unwrap()
    }
}

/// Printable form of a byte buffer: the text itself when the bytes
/// are UTF-8, otherwise hexadecimal byte pairs separated by spaces.
pub struct MaybeStr {
    bytes: Vec<u8>,
}

impl View for MaybeStr {
    type V = Seq<u8>;

    closed spec fn view(&self) -> Seq<u8> {
        self.bytes@
    }
}

/// The hexadecimal text of the first `i` bytes, two digits per
/// byte, space separated.
pub open spec fn hex_dump_to(b: Seq<u8>, i: int) -> Seq<char>
    decreases i,
{
    if i <= 0 || i > b.len() {
        Seq::empty()
    } else {
        let pair = seq![
            crate::json::hex_digit((b[i - 1] / 16) as nat),
            crate::json::hex_digit((b[i - 1] % 16) as nat),
        ];
        if i == 1 {
            pair
        } else {
            hex_dump_to(b, i - 1) + seq![' '] + pair
        }
    }
}

/// The hexadecimal text of the bytes.
pub open spec fn hex_dump(b: Seq<u8>) -> Seq<char> {
    hex_dump_to(b, b.len() as int)
}

/// Append the two hexadecimal digits of one byte.
fn push_hex_byte(out: &mut Vec<char>, b: u8)
    ensures
        final(out)@ == old(out)@ + seq![
            crate::json::hex_digit((b / 16) as nat),
            crate::json::hex_digit((b % 16) as nat),
        ],
{
    let hex: [char; 16] = [
        '0', '1', '2', '3', '4', '5', '6', '7', '8', '9', 'a', 'b', 'c', 'd', 'e', 'f',
    ];
    out.push(hex[(b / 16) as usize]);
    out.push(hex[(b % 16) as usize]);
    proof {
        assert(final(out)@ =~= old(out)@ + seq![
            crate::json::hex_digit((b / 16) as nat),
            crate::json::hex_digit((b % 16) as nat),
        ]);
    }
}

impl MaybeStr {
    /// Wrap bytes for printing.
    pub fn new(bytes: Vec<u8>) -> (r: Self)
        ensures
            r@ == bytes@,
    {
        MaybeStr { bytes }
    }

    /// The bytes held.
    pub fn bytes(&self) -> (r: &Vec<u8>)
        ensures
            r@ == self@,
    {
        &self.bytes
    }

    /// The printable text: the decoded string when the bytes are
    /// UTF-8, else the hexadecimal dump.
    pub fn to_text(&self) -> (r: String)
        ensures
            vstd::utf8::valid_utf8(self@) ==> r@ == vstd::utf8::decode_utf8(self@),
            !vstd::utf8::valid_utf8(self@) ==> r@ == hex_dump(self@),
    {
        match crate::text::bytes_to_string(crate::render::clone_bytes(&self.bytes)) {
            Result::Ok(s) => s,
            Result::Err(_) => {
                let mut out: Vec<char> = Vec::new();
                let n = self.bytes.len();
                let mut i: usize = 0;
                while i < n
                    invariant
                        n == self.bytes@.len(),
                        0 <= i <= n,
                        out@ == hex_dump_to(self.bytes@, i as int),
                    decreases n - i,
                {
                    if i > 0 {
                        out.push(' ');
                    }
                    let b = self.bytes[i];
                    push_hex_byte(&mut out, b);
                    proof {
                        let bs = self.bytes@;
                        let pair = seq![
                            crate::json::hex_digit((bs[i as int] / 16) as nat),
                            crate::json::hex_digit((bs[i as int] % 16) as nat),
                        ];
                        if i == 0 {
                            assert(hex_dump_to(bs, 1) == pair);
                            assert(out@ =~= hex_dump_to(bs, 1));
                        } else {
                            assert(hex_dump_to(bs, i + 1) == hex_dump_to(bs, i as int) + seq![
                                ' ',
                            ] + pair);
                            assert(out@ =~= hex_dump_to(bs, i + 1));
                        }
                    }
                    i += 1;
                }
                chars_to_string(&out)
            },
        }
    }
}

} // verus!
