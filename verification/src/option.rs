//! Command line options: toggles and child command lines.

use vstd::prelude::*;

use crate::text::{chars_of, is_whitespace, lemma_strings_view_push, string_of, strings_view};

verus! {

/// Why an option could not be parsed.
#[derive(Clone, Copy, Debug, PartialEq, Eq, Structural)]
#[non_exhaustive]
pub enum OptionError {
    Parse,
}

impl OptionError {
    /// A description of the error.
    pub fn message(&self) -> (r: &'static str)
        ensures
            r@ == "failed to parse option"@,
    {
        "failed to parse option"
    }
}

/// When a feature is on: always, never, or as the environment suggests.
#[derive(Clone, Copy, Debug, PartialEq, Eq, Structural)]
pub enum Toggle {
    Always,
    Automatic,
    Never,
}

/// The toggle that a word names: `always`, `auto` or `automatic`, `never`.
pub open spec fn toggle_of(text: Seq<char>) -> Option<Toggle> {
    if text == seq!['a', 'l', 'w', 'a', 'y', 's'] {
        Some(Toggle::Always)
    } else if text == seq!['a', 'u', 't', 'o'] || text == seq!['a', 'u', 't', 'o', 'm', 'a', 't', 'i', 'c'] {
        Some(Toggle::Automatic)
    } else if text == seq!['n', 'e', 'v', 'e', 'r'] {
        Some(Toggle::Never)
    } else {
        None
    }
}

fn chars_equal(a: &[char], b: &[char]) -> (r: bool)
    ensures
        r == (a@ == b@),
{
    if a.len() != b.len() {
        return false;
    }
    let mut i: usize = 0;
    while i < a.len()
        invariant
            a@.len() == b@.len(),
            i <= a@.len(),
            forall|k: int| 0 <= k < i ==> a@[k] == b@[k],
        decreases a@.len() - i,
    {
        if a[i] != b[i] {
            return false;
        }
        i = i + 1;
    }
    proof {
        assert(a@ =~= b@);
    }
    true
}

impl Toggle {
    /// Parses a toggle.
    pub fn parse(text: &str) -> (r: Result<Toggle, OptionError>)
        ensures
            match toggle_of(text@) {
                Some(t) => r == Ok::<Toggle, OptionError>(t),
                None => r == Err::<Toggle, OptionError>(OptionError::Parse),
            },
    {
        let cs = chars_of(text);
        let always = ['a', 'l', 'w', 'a', 'y', 's'];
        let auto = ['a', 'u', 't', 'o'];
        let automatic = ['a', 'u', 't', 'o', 'm', 'a', 't', 'i', 'c'];
        let never = ['n', 'e', 'v', 'e', 'r'];
        proof {
            assert(always@ =~= seq!['a', 'l', 'w', 'a', 'y', 's']);
            assert(auto@ =~= seq!['a', 'u', 't', 'o']);
            assert(automatic@ =~= seq!['a', 'u', 't', 'o', 'm', 'a', 't', 'i', 'c']);
            assert(never@ =~= seq!['n', 'e', 'v', 'e', 'r']);
        }
        if chars_equal(cs.as_slice(), &always) {
            Ok(Toggle::Always)
        } else if chars_equal(cs.as_slice(), &auto) || chars_equal(cs.as_slice(), &automatic) {
            Ok(Toggle::Automatic)
        } else if chars_equal(cs.as_slice(), &never) {
            Ok(Toggle::Never)
        } else {
            Err(OptionError::Parse)
        }
    }
}

impl Default for Toggle {
    /// `Automatic`.
    fn default() -> (r: Toggle)
        ensures
            r == Toggle::Automatic,
    {
        Toggle::Automatic
    }
}

impl std::str::FromStr for Toggle {
    type Err = OptionError;

    fn from_str(text: &str) -> (r: Result<Toggle, OptionError>)
        ensures
            match toggle_of(text@) {
                Some(t) => r == Ok::<Toggle, OptionError>(t),
                None => r == Err::<Toggle, OptionError>(OptionError::Parse),
            },
    {
        Toggle::parse(text)
    }
}

/// The words of text from `i`, where `word` holds the characters of the word
/// being read and `acc` the words before it: the maximal runs of characters
/// that are not whitespace, in order.
pub open spec fn words_from(s: Seq<char>, i: int, word: Seq<char>, acc: Seq<Seq<char>>) -> Seq<Seq<char>>
    decreases s.len() - i,
{
    if i < 0 || i >= s.len() {
        if word.len() > 0 {
            acc.push(word)
        } else {
            acc
        }
    } else if is_whitespace(s[i]) {
        words_from(s, i + 1, Seq::empty(), if word.len() > 0 {
            acc.push(word)
        } else {
            acc
        })
    } else {
        words_from(s, i + 1, word.push(s[i]), acc)
    }
}

/// The words of text, separated by whitespace.
pub open spec fn words(s: Seq<char>) -> Seq<Seq<char>> {
    words_from(s, 0, Seq::empty(), Seq::empty())
}

/// Splits text into its words (as `str::split_whitespace` does).
pub fn split_words(text: &str) -> (r: Vec<String>)
    ensures
        strings_view(r@) == words(text@),
{
    let cs = chars_of(text);
    let mut out: Vec<String> = Vec::new();
    let mut word: Vec<char> = Vec::new();
    let mut i: usize = 0;
    proof {
        assert(strings_view(out@) =~= Seq::<Seq<char>>::empty());
    }
    while i < cs.len()
        invariant
            i <= cs@.len(),
            cs@ == text@,
            words_from(cs@, i as int, word@, strings_view(out@)) == words(text@),
        decreases cs@.len() - i,
    {
        let c = cs[i];
        if crate::text::char_is_whitespace(c) {
            if word.len() > 0 {
                let w = string_of(&word);
                proof {
                    lemma_strings_view_push(out@, w);
                }
                out.push(w);
            }
            word = Vec::new();
        } else {
            word.push(c);
        }
        i = i + 1;
    }
    if word.len() > 0 {
        let w = string_of(&word);
        proof {
            lemma_strings_view_push(out@, w);
        }
        out.push(w);
    }
    out
}

/// Splits a command line into the program and its arguments, at whitespace.
/// Fails where the line holds no word.
pub fn split_command(text: &str) -> (r: Result<(String, Vec<String>), OptionError>)
    ensures
        match r {
            Ok((program, arguments)) => words(text@).len() > 0 && program@ == words(text@)[0]
                && strings_view(arguments@) == words(text@).drop_first(),
            Err(e) => words(text@).len() == 0 && e == OptionError::Parse,
        },
{
    let mut ws = split_words(text);
    if ws.len() == 0 {
        return Err(OptionError::Parse);
    }
    let ghost all = ws@;
    let program = ws.remove(0);
    proof {
        assert(ws@ =~= all.drop_first());
        assert(strings_view(ws@) =~= strings_view(all).drop_first());
        assert(strings_view(all)[0] == all[0]@);
    }
    Ok((program, ws))
}

} // verus!
