//! Plain text helpers: character coalescing and column padding.

use unicode_width::UnicodeWidthStr;
use vstd::prelude::*;

verus! {

/// Appends one character to a string (`String::push`).
#[verifier::external_body]
pub(crate) fn push_char(s: &mut String, c: char)
    ensures
        final(s)@ == old(s)@.push(c),
{
    s.push(c);
}

/// Appends a string slice to a string (`String::push_str`).
#[verifier::external_body]
pub(crate) fn push_str(s: &mut String, t: &str)
    ensures
        final(s)@ == old(s)@ + t@,
{
    s.push_str(t);
}

/// The characters of a string slice, in order.
pub fn chars_of(s: &str) -> (r: Vec<char>)
    ensures
        r@ == s@,
{
    let mut r: Vec<char> = Vec::new();
    for c in it: s.chars()
        invariant
            r@ == it.seq().take(it.index() as int),
    {
        r.push(c);
    }
    r
}

/// The views of strings.
pub open spec fn strings_view(v: Seq<String>) -> Seq<Seq<char>> {
    v.map_values(|s: String| s@)
}

pub proof fn lemma_strings_view_push(v: Seq<String>, s: String)
    ensures
        strings_view(v.push(s)) == strings_view(v).push(s@),
{
    assert(strings_view(v.push(s)) =~= strings_view(v).push(s@));
}

/// Whether text is empty.
pub(crate) fn is_empty_str(text: &str) -> (r: bool)
    ensures
        r == (text@.len() == 0),
{
    let chars = chars_of(text);
    chars.len() == 0
}

/// A string that holds the characters of `text`.
pub(crate) fn copy_str(text: &str) -> (r: String)
    ensures
        r@ == text@,
{
    let chars = chars_of(text);
    string_of(&chars)
}

/// Builds a string from a slice of characters.
pub fn string_of(v: &[char]) -> (r: String)
    ensures
        r@ == v@,
{
    let mut r = String::new();
    let mut i: usize = 0;
    while i < v.len()
        invariant
            i <= v@.len(),
            r@ == v@.take(i as int),
        decreases v@.len() - i,
    {
        push_char(&mut r, v[i]);
        proof {
            assert(v@.take(i as int + 1) =~= v@.take(i as int).push(v@[i as int]));
        }
        i = i + 1;
    }
    proof {
        assert(v@.take(v@.len() as int) =~= v@);
    }
    r
}

/// The display width of text in terminal columns, as computed by the
/// `unicode-width` crate.
pub uninterp spec fn display_width(text: Seq<char>) -> usize;

/// `UnicodeWidthStr::width`: the number of terminal columns that `text`
/// occupies. The result is named `display_width` of the characters of `text`
/// and is not otherwise described here.
#[verifier::external_body]
fn str_width(text: &str) -> (n: usize)
    ensures
        n == display_width(text@),
{
    UnicodeWidthStr::width(text)
}

/// The horizontal placement of padded text.
#[derive(Clone, Copy, Debug, PartialEq, Eq, Structural)]
pub enum Alignment {
    Left,
    Right,
    Center,
}

/// The text in which every character among `from` is replaced by `to`.
pub open spec fn coalesced(text: Seq<char>, from: Seq<char>, to: char) -> Seq<char> {
    text.map_values(|c: char| if from.contains(c) { to } else { c })
}

/// `n` copies of `c`.
pub open spec fn repeated(c: char, n: nat) -> Seq<char> {
    Seq::new(n, |i: int| c)
}

/// The numbers of shim characters placed before and after text whose margin
/// (missing width) is `margin`.
pub open spec fn margins(alignment: Alignment, margin: nat) -> (nat, nat) {
    match alignment {
        Alignment::Left => (0, margin),
        Alignment::Right => (margin, 0),
        Alignment::Center => (margin / 2, (margin - margin / 2) as nat),
    }
}

/// `text` padded with `shim` to `width` columns, given that `text` occupies
/// `n` columns; text that is at least as wide is unchanged.
pub open spec fn padded(text: Seq<char>, shim: char, alignment: Alignment, width: nat, n: nat) -> Seq<char> {
    if n >= width {
        text
    } else {
        let (left, right) = margins(alignment, (width - n) as nat);
        repeated(shim, left) + text + repeated(shim, right)
    }
}

fn contains_char(from: &[char], c: char) -> (r: bool)
    ensures
        r == from@.contains(c),
{
    let mut i: usize = 0;
    while i < from.len()
        invariant
            i <= from@.len(),
            forall|j: int| 0 <= j < i ==> from@[j] != c,
        decreases from@.len() - i,
    {
        if from[i] == c {
            assert(from@[i as int] == c);
            return true;
        }
        i = i + 1;
    }
    false
}

/// Replaces every character of `text` that appears in `from` with `to`.
pub fn coalesce(text: &str, from: &[char], to: char) -> (r: String)
    ensures
        r@ == coalesced(text@, from@, to),
        r@.len() == text@.len(),
{
    let chars = chars_of(text);
    let mut out: Vec<char> = Vec::new();
    let mut i: usize = 0;
    while i < chars.len()
        invariant
            i <= chars@.len(),
            chars@ == text@,
            out@ == coalesced(text@, from@, to).take(i as int),
        decreases chars@.len() - i,
    {
        let c = chars[i];
        let d = if contains_char(from, c) { to } else { c };
        out.push(d);
        proof {
            assert(coalesced(text@, from@, to).take(i as int + 1) =~= coalesced(text@, from@, to).take(i as int).push(d));
        }
        i = i + 1;
    }
    proof {
        assert(coalesced(text@, from@, to).take(chars@.len() as int) =~= coalesced(text@, from@, to));
    }
    string_of(&out)
}

fn push_repeated(out: &mut Vec<char>, c: char, n: usize)
    ensures
        final(out)@ == old(out)@ + repeated(c, n as nat),
{
    let ghost start = out@;
    let mut i: usize = 0;
    while i < n
        invariant
            i <= n,
            out@ == start + repeated(c, i as nat),
        decreases n - i,
    {
        out.push(c);
        proof {
            assert(start + repeated(c, (i + 1) as nat) =~= (start + repeated(c, i as nat)).push(c));
        }
        i = i + 1;
    }
}

/// Pads `text` with `shim` into `width` columns using the given alignment.
/// Text that already occupies `width` or more columns is returned unchanged.
pub fn pad(text: &str, shim: char, alignment: Alignment, width: usize) -> (r: String)
    ensures
        r@ == padded(text@, shim, alignment, width as nat, display_width(text@) as nat),
{
    let n = str_width(text);
    if n >= width {
        let chars = chars_of(text);
        string_of(&chars)
    } else {
        let margin = width - n;
        let (left, right) = match alignment {
            Alignment::Left => (0, margin),
            Alignment::Right => (margin, 0),
            Alignment::Center => (margin / 2, margin - (margin / 2)),
        };
        let mut out: Vec<char> = Vec::new();
        push_repeated(&mut out, shim, left);
        let chars = chars_of(text);
        let mut i: usize = 0;
        let ghost before = out@;
        while i < chars.len()
            invariant
                i <= chars@.len(),
                out@ == before + chars@.take(i as int),
            decreases chars@.len() - i,
        {
            out.push(chars[i]);
            proof {
                assert(before + chars@.take(i as int + 1) =~= (before + chars@.take(i as int)).push(chars@[i as int]));
            }
            i = i + 1;
        }
        proof {
            assert(chars@.take(chars@.len() as int) =~= chars@);
        }
        push_repeated(&mut out, shim, right);
        proof {
            assert(out@ =~= repeated(shim, left as nat) + text@ + repeated(shim, right as nat));
        }
        string_of(&out)
    }
}

} // verus!

verus! {

/// `std::str::from_utf8`: the text that `bytes` encode, when they are valid
/// UTF-8.
#[verifier::external_body]
pub(crate) fn utf8_decode(bytes: &[u8]) -> (r: Option<String>)
    ensures
        r is Some <==> vstd::utf8::valid_utf8(bytes@),
        r matches Some(s) ==> s@ == vstd::utf8::decode_utf8(bytes@),
{
    match std::str::from_utf8(bytes) {
        Ok(text) => Some(text.to_string()),
        Err(_) => None,
    }
}

} // verus!

verus! {

/// The lower case of text, as `str::to_lowercase` computes it by the Unicode
/// lowercase mappings.
pub uninterp spec fn lowercase(text: Seq<char>) -> Seq<char>;

/// The upper case of text, as `str::to_uppercase` computes it by the Unicode
/// uppercase mappings.
pub uninterp spec fn uppercase(text: Seq<char>) -> Seq<char>;

/// The characters that `char::to_lowercase` yields for `c`.
pub uninterp spec fn char_lowercase(c: char) -> Seq<char>;

/// The characters that `char::to_uppercase` yields for `c`.
pub uninterp spec fn char_uppercase(c: char) -> Seq<char>;

/// Whether `c` has the Unicode `White_Space` property, as
/// `char::is_whitespace` decides it.
pub uninterp spec fn is_whitespace(c: char) -> bool;

/// `str::to_lowercase`. Its result is named `lowercase` of the characters of
/// `text` and is not otherwise described here.
#[verifier::external_body]
pub(crate) fn to_lowercase(text: &str) -> (r: String)
    ensures
        r@ == lowercase(text@),
{
    text.to_lowercase()
}

/// `str::to_uppercase`. Its result is named `uppercase` of the characters of
/// `text` and is not otherwise described here.
#[verifier::external_body]
pub(crate) fn to_uppercase(text: &str) -> (r: String)
    ensures
        r@ == uppercase(text@),
{
    text.to_uppercase()
}

/// `char::to_lowercase`, collected into a string. The result is named
/// `char_lowercase` of `c`.
#[verifier::external_body]
fn char_to_lowercase(c: char) -> (r: String)
    ensures
        r@ == char_lowercase(c),
{
    c.to_lowercase().collect()
}

/// `char::to_uppercase`, collected into a string. The result is named
/// `char_uppercase` of `c`.
#[verifier::external_body]
fn char_to_uppercase(c: char) -> (r: String)
    ensures
        r@ == char_uppercase(c),
{
    c.to_uppercase().collect()
}

/// `char::is_whitespace`. The result is named `is_whitespace` of `c`.
#[verifier::external_body]
pub(crate) fn char_is_whitespace(c: char) -> (r: bool)
    ensures
        r == is_whitespace(c),
{
    c.is_whitespace()
}

/// Characters across which words break: whitespace and hyphens.
pub open spec fn is_word_break(c: char) -> bool {
    is_whitespace(c) || c == '-'
}

/// The title case of the character at `i`: upper case at the start of a
/// word, lower case elsewhere.
pub open spec fn title_char(text: Seq<char>, i: int) -> Seq<char> {
    if i == 0 || is_word_break(text[i - 1]) {
        char_uppercase(text[i])
    } else {
        char_lowercase(text[i])
    }
}

/// The title case of the first `n` characters of `text`.
pub open spec fn titled_prefix(text: Seq<char>, n: int) -> Seq<char>
    decreases n,
{
    if n <= 0 {
        Seq::empty()
    } else {
        titled_prefix(text, n - 1) + title_char(text, n - 1)
    }
}

/// The title case of text: each word begins in upper case and continues in
/// lower case, where words break across whitespace and hyphens.
pub open spec fn titlecase(text: Seq<char>) -> Seq<char> {
    titled_prefix(text, text.len() as int)
}

/// Converts text to title case.
pub fn to_titlecase(text: &str) -> (r: String)
    ensures
        r@ == titlecase(text@),
{
    let chars = chars_of(text);
    let mut out = String::new();
    let mut i: usize = 0;
    while i < chars.len()
        invariant
            i <= chars@.len(),
            chars@ == text@,
            out@ == titled_prefix(text@, i as int),
        decreases chars@.len() - i,
    {
        let at_start = if i == 0 {
            true
        } else {
            let before = chars[i - 1];
            char_is_whitespace(before) || before == '-'
        };
        let cased = if at_start {
            char_to_uppercase(chars[i])
        } else {
            char_to_lowercase(chars[i])
        };
        push_str(&mut out, cased.as_str());
        i = i + 1;
    }
    out
}

} // verus!

verus! {

/// The lowercase hexadecimal digit of `n` (less than sixteen).
pub open spec fn hex_digit(n: u8) -> char {
    if n < 10 {
        (('0' as u8) + n) as char
    } else {
        (('a' as u8) + (n - 10)) as char
    }
}

pub(crate) fn hex_digit_exec(n: u8) -> (c: char)
    requires
        n < 16,
    ensures
        c == hex_digit(n),
{
    if n < 10 {
        (('0' as u8) + n) as char
    } else {
        (('a' as u8) + (n - 10)) as char
    }
}

/// Bytes in lowercase hexadecimal: two digits per byte, the high digit
/// first, in the order of the bytes.
pub open spec fn hex_text(bytes: Seq<u8>) -> Seq<char>
    decreases bytes.len(),
{
    if bytes.len() == 0 {
        Seq::empty()
    } else {
        hex_text(bytes.drop_last()) + seq![hex_digit(bytes.last() / 16), hex_digit(bytes.last() % 16)]
    }
}

/// Writes bytes in lowercase hexadecimal.
pub fn to_hex(bytes: &[u8]) -> (r: String)
    ensures
        r@ == hex_text(bytes@),
        r@.len() == 2 * bytes@.len(),
{
    let mut out: Vec<char> = Vec::new();
    let mut i: usize = 0;
    while i < bytes.len()
        invariant
            i <= bytes@.len(),
            out@ == hex_text(bytes@.take(i as int)),
            out@.len() == 2 * i,
        decreases bytes@.len() - i,
    {
        let b = bytes[i];
        proof {
            assert(bytes@.take(i as int + 1).drop_last() =~= bytes@.take(i as int));
        }
        out.push(hex_digit_exec(b / 16));
        out.push(hex_digit_exec(b % 16));
        proof {
            assert(out@ =~= hex_text(bytes@.take(i as int + 1)));
        }
        i = i + 1;
    }
    proof {
        assert(bytes@.take(bytes@.len() as int) =~= bytes@);
    }
    string_of(&out)
}

} // verus!

verus! {

/// Coalescing characters into one of themselves changes nothing: where every
/// character of `from` is `to`, the text is unchanged.
pub proof fn lemma_coalesce_to_itself(text: Seq<char>, from: Seq<char>, to: char)
    requires
        forall|k: int| 0 <= k < from.len() ==> from[k] == to,
    ensures
        coalesced(text, from, to) == text,
{
    assert forall|i: int| 0 <= i < text.len() implies coalesced(text, from, to)[i] == text[i] by {
        if from.contains(text[i]) {
            let k = choose|k: int| 0 <= k < from.len() && from[k] == text[i];
            assert(from[k] == to);
        }
    }
    assert(coalesced(text, from, to) =~= text);
}

/// Coalescing twice with the same characters is coalescing once.
pub proof fn lemma_coalesce_idempotent(text: Seq<char>, from: Seq<char>, to: char)
    ensures
        coalesced(coalesced(text, from, to), from, to) == coalesced(text, from, to),
{
    let once = coalesced(text, from, to);
    assert(coalesced(once, from, to) =~= once);
}

} // verus!
