//! Globs: patterns that match paths and capture parts of them.

pub mod adjacency;
pub mod capture;
pub mod encode;
pub mod matcher;
pub mod read;
pub mod rule;
pub mod token;

use vstd::prelude::*;

use crate::glob::capture::Captures;
use crate::glob::encode::{glob_pattern, pattern_of};
use crate::glob::matcher::{
    compiled, regex_captures, regex_groups, regex_is_match, regex_matches, regex_new,
};
use crate::glob::rule::{RuleError, branch_placed, check, check_spec, lemma_accepted_tokens};
use crate::glob::token::{
    Token, TokenSpec, lemma_optimize_joins_literals, lemma_optimize_merges_wildcards,
    lemma_parsed_not_empty_literal, lemma_tokens_view, literal_path_prefix,
    literal_path_prefix_spec, literals_joined, optimize, optimize_spec, parse_spec, parse_tokens,
    prefix_upper_bound, prefix_upper_bound_exec, tokens_view, wildcards_merged,
};

verus! {

/// Why a glob could not be built.
#[derive(Clone, Copy, Debug, PartialEq, Eq, Structural)]
pub enum GlobError {
    /// The text is not a glob.
    Parse,
    /// The glob breaks a rule.
    Rule(RuleError),
    /// The regular expression of the glob was refused by the regular
    /// expression engine (for example, a class range whose ends are out of
    /// order).
    Compile,
}

impl GlobError {
    /// The description of the error.
    pub open spec fn message_spec(&self) -> Seq<char> {
        match self {
            GlobError::Parse => "failed to parse glob"@,
            GlobError::Rule(e) => e.message_spec(),
            GlobError::Compile => "failed to compile glob"@,
        }
    }

    /// A description of the error.
    pub fn message(&self) -> (r: &'static str)
        ensures
            r@ == self.message_spec(),
    {
        match self {
            GlobError::Parse => "failed to parse glob",
            GlobError::Rule(e) => e.message(),
            GlobError::Compile => "failed to compile glob",
        }
    }
}

/// The bytes of a path, with `/` as the separator.
pub struct BytePath {
    path: Vec<u8>,
}

impl View for BytePath {
    type V = Seq<u8>;

    closed spec fn view(&self) -> Seq<u8> {
        self.path@
    }
}

/// `true` when `normal` is `bytes` with some of its bytes written as `/`: the
/// bytes of a path whose native separators have been replaced by `/`.
pub open spec fn separators_normalized(bytes: Seq<u8>, normal: Seq<u8>) -> bool {
    &&& normal.len() == bytes.len()
    &&& forall|i: int| 0 <= i < bytes.len() ==> #[trigger] normal[i] == bytes[i] || normal[i] == 0x2Fu8
}

/// Calls `std::path::is_separator` on the character of a byte: whether it
/// separates the components of a path on the platform the library is built
/// for. Its documentation shows `/` as a separator; which other characters
/// are separators depends on the platform (on Unix, none), so that is all
/// that is stated.
#[verifier::external_body]
fn is_native_separator(b: u8) -> (r: bool)
    ensures
        b == 0x2Fu8 ==> r,
{
    std::path::is_separator(b as char)
}

/// The bytes with each byte flagged in `separators` written as `/`; bytes
/// without a flag are kept.
pub open spec fn separators_replaced(bytes: Seq<u8>, separators: Seq<bool>) -> Seq<u8> {
    Seq::new(
        bytes.len(),
        |i: int|
            if i < separators.len() && separators[i] && bytes[i] != 0x2Fu8 {
                0x2Fu8
            } else {
                bytes[i]
            },
    )
}

/// Writes as `/` each byte of a path that `separators` flags as a separator of
/// the platform (the flag at the same index), and keeps every other byte.
pub fn normalize_separators(bytes: &Vec<u8>, separators: &Vec<bool>) -> (r: Vec<u8>)
    ensures
        r@ == separators_replaced(bytes@, separators@),
{
    let mut path: Vec<u8> = Vec::new();
    let mut i: usize = 0;
    while i < bytes.len()
        invariant
            i <= bytes.len(),
            path@ == separators_replaced(bytes@, separators@).take(i as int),
        decreases bytes.len() - i,
    {
        let b = bytes[i];
        if i < separators.len() && separators[i] && b != 0x2Fu8 {
            path.push(0x2Fu8);
        } else {
            path.push(b);
        }
        i += 1;
        assert(path@ =~= separators_replaced(bytes@, separators@).take(i as int));
    }
    assert(path@ =~= separators_replaced(bytes@, separators@));
    path
}

impl BytePath {
    /// A path from its bytes, with each native separator of the platform
    /// written as `/` (on Unix, where `/` is the only separator, the bytes as
    /// they are). Which bytes are separators the platform decides: the result
    /// is the bytes with the platform's answers applied, `/` always counting as
    /// one.
    pub fn from_bytes(bytes: Vec<u8>) -> (r: BytePath)
        ensures
            exists|separators: Seq<bool>|
                separators.len() == bytes@.len() && (forall|i: int|
                    0 <= i < bytes@.len() && bytes@[i] == 0x2Fu8 ==> #[trigger] separators[i])
                    && r@ == separators_replaced(bytes@, separators),
            separators_normalized(bytes@, r@),
    {
        let mut separators: Vec<bool> = Vec::new();
        let mut i: usize = 0;
        while i < bytes.len()
            invariant
                i <= bytes.len(),
                separators@.len() == i,
                forall|k: int| 0 <= k < i && bytes@[k] == 0x2Fu8 ==> #[trigger] separators@[k],
            decreases bytes.len() - i,
        {
            separators.push(is_native_separator(bytes[i]));
            i += 1;
        }
        let path = normalize_separators(&bytes, &separators);
        assert(separators_normalized(bytes@, path@));
        BytePath { path }
    }

    /// The bytes of a path given as text (its UTF-8 encoding), with each
    /// native separator written as `/`.
    pub fn from_path(path: &str) -> (r: BytePath)
        ensures
            separators_normalized(vstd::utf8::encode_utf8(path@), r@),
    {
        BytePath::from_bytes(vstd::slice::slice_to_vec(path.as_bytes()))
    }

    /// This path, owning its bytes.
    pub fn into_owned(self) -> (r: BytePath)
        ensures
            r@ == self@,
    {
        self
    }

    /// The native path of these bytes. A path on a Unix system is its bytes,
    /// so every byte path has one, and it holds the same bytes.
    pub fn path(&self) -> (r: Option<Vec<u8>>)
        ensures
            r matches Some(v) && v@ == self@,
    {
        Some(self.path.clone())
    }

    /// The bytes of the path.
    pub fn as_bytes(&self) -> (r: &[u8])
        ensures
            r@ == self@,
    {
        self.path.as_slice()
    }
}

/// The regular expression of a token sequence, when the engine accepts it.
pub open spec fn glob_regex(ts: Seq<TokenSpec>) -> Option<regex::bytes::Regex> {
    compiled(glob_pattern(ts))
}

/// Whether the glob of a token sequence matches the bytes of a path.
pub open spec fn glob_matches(ts: Seq<TokenSpec>, path: Seq<u8>) -> bool {
    match glob_regex(ts) {
        Some(re) => regex_matches(re, path),
        None => false,
    }
}

/// The tokens of the glob of a text, or why there is none: the text must
/// parse, the normalized tokens must obey the rules, and their regular
/// expression must compile.
pub open spec fn glob_spec(text: Seq<char>) -> Result<Seq<TokenSpec>, GlobError> {
    match parse_spec(text) {
        None => Err(GlobError::Parse),
        Some(ts) => {
            let o = optimize_spec(ts);
            match check_spec(o) {
                Some(e) => Err(GlobError::Rule(e)),
                None => if glob_regex(o) is Some {
                    Ok(o)
                } else {
                    Err(GlobError::Compile)
                },
            }
        },
    }
}

/// The invariant prefix and the remaining tokens of the glob of a text: the
/// tokens are checked against the rules in full, then the leading tokens of
/// the prefix are removed.
pub open spec fn partitioned_spec(text: Seq<char>) -> Result<(Seq<char>, Seq<TokenSpec>), GlobError> {
    match parse_spec(text) {
        None => Err(GlobError::Parse),
        Some(ts) => {
            let o = optimize_spec(ts);
            match check_spec(o) {
                Some(e) => Err(GlobError::Rule(e)),
                None => {
                    let prefix = match literal_path_prefix_spec(o) {
                        Some(p) => p,
                        None => Seq::empty(),
                    };
                    let rest = o.subrange(prefix_upper_bound(o), o.len() as int);
                    if glob_regex(rest) is Some {
                        Ok((prefix, rest))
                    } else {
                        Err(GlobError::Compile)
                    }
                },
            }
        },
    }
}

/// A glob: normalized tokens and the regular expression they compile to.
#[derive(Debug)]
pub struct Glob {
    tokens: Vec<Token>,
    regex: regex::bytes::Regex,
}

impl View for Glob {
    type V = Seq<TokenSpec>;

    closed spec fn view(&self) -> Seq<TokenSpec> {
        tokens_view(self.tokens@)
    }
}

impl Glob {
    #[verifier::type_invariant]
    spec fn inv(self) -> bool {
        glob_regex(tokens_view(self.tokens@)) == Some(self.regex)
    }

    /// A glob from tokens whose regular expression compiles.
    fn from_tokens(tokens: Vec<Token>) -> (r: Result<Glob, GlobError>)
        ensures
            match r {
                Ok(g) => g@ == tokens_view(tokens@) && glob_regex(tokens_view(tokens@)) is Some,
                Err(e) => e == GlobError::Compile && glob_regex(tokens_view(tokens@)) is None,
            },
    {
        let pattern = pattern_of(tokens.as_slice());
        match regex_new(pattern.as_str()) {
            Ok(regex) => Ok(Glob { tokens, regex }),
            Err(_) => Err(GlobError::Compile),
        }
    }

    /// Parses a glob: the text is tokenized, the tokens normalized and
    /// checked against the rules, and compiled.
    pub fn new(text: &str) -> (r: Result<Glob, GlobError>)
        ensures
            match r {
                Ok(g) => glob_spec(text@) == Ok::<Seq<TokenSpec>, GlobError>(g@),
                Err(e) => glob_spec(text@) == Err::<Seq<TokenSpec>, GlobError>(e),
            },
    {
        let tokens = match parse_tokens(text) {
            Some(tokens) => tokens,
            None => {
                return Err(GlobError::Parse);
            },
        };
        let tokens = optimize(tokens);
        match check(&tokens) {
            Ok(()) => {},
            Err(e) => {
                return Err(GlobError::Rule(e));
            },
        }
        Glob::from_tokens(tokens)
    }

    /// Parses a glob and splits off its invariant prefix: the path of the
    /// leading literal components, which the returned glob no longer holds.
    /// The prefix is empty when there is none.
    pub fn partitioned(text: &str) -> (r: Result<(String, Glob), GlobError>)
        ensures
            match r {
                Ok((p, g)) => partitioned_spec(text@) == Ok::<(Seq<char>, Seq<TokenSpec>), GlobError>((p@, g@)),
                Err(e) => partitioned_spec(text@) == Err::<(Seq<char>, Seq<TokenSpec>), GlobError>(e),
            },
    {
        let tokens = match parse_tokens(text) {
            Some(tokens) => tokens,
            None => {
                return Err(GlobError::Parse);
            },
        };
        let mut tokens = optimize(tokens);
        match check(&tokens) {
            Ok(()) => {},
            Err(e) => {
                return Err(GlobError::Rule(e));
            },
        }
        let prefix = match literal_path_prefix(&tokens) {
            Some(p) => p,
            None => String::new(),
        };
        let bound = prefix_upper_bound_exec(&tokens);
        let ghost all = tokens@;
        let rest = tokens.split_off(bound);
        proof {
            lemma_tokens_view(all);
            lemma_tokens_view(rest@);
            assert(tokens_view(rest@) =~= tokens_view(all).subrange(bound as int, all.len() as int));
        }
        match Glob::from_tokens(rest) {
            Ok(glob) => Ok((prefix, glob)),
            Err(e) => Err(e),
        }
    }

    /// This glob, owning its text.
    pub fn into_owned(self) -> (r: Glob)
        ensures
            r@ == self@,
    {
        self
    }

    /// The tokens of the glob.
    pub fn tokens(&self) -> (r: &Vec<Token>)
        ensures
            tokens_view(r@) == self@,
    {
        &self.tokens
    }

    /// The invariant path prefix of the glob, if any.
    pub fn literal_path_prefix(&self) -> (r: Option<String>)
        ensures
            match r {
                Some(s) => literal_path_prefix_spec(self@) == Some(s@),
                None => literal_path_prefix_spec(self@).is_none(),
            },
    {
        literal_path_prefix(&self.tokens)
    }

    /// Whether the invariant prefix of the glob is an absolute path (begins
    /// with the root `/`).
    pub fn is_absolute(&self) -> (r: bool)
        ensures
            r == (literal_path_prefix_spec(self@) matches Some(p) && p.len() > 0 && p[0] == '/'),
    {
        self.has_root()
    }

    /// Whether the invariant prefix of the glob begins with the root `/`.
    pub fn has_root(&self) -> (r: bool)
        ensures
            r == (literal_path_prefix_spec(self@) matches Some(p) && p.len() > 0 && p[0] == '/'),
    {
        match literal_path_prefix(&self.tokens) {
            Some(p) => {
                let cs = crate::text::chars_of(p.as_str());
                cs.len() > 0 && cs[0] == '/'
            },
            None => false,
        }
    }

    /// Whether the glob matches a path given as text, its native separators
    /// written as `/`.
    pub fn is_match(&self, path: &str) -> (r: bool)
        ensures
            exists|normal: Seq<u8>|
                separators_normalized(vstd::utf8::encode_utf8(path@), normal) && r == glob_matches(
                    self@,
                    normal,
                ),
    {
        let bytes = BytePath::from_path(path);
        let r = self.is_match_bytes(&bytes);
        assert(separators_normalized(vstd::utf8::encode_utf8(path@), bytes@) && r == glob_matches(self@, bytes@));
        r
    }

    /// Whether the glob matches a path.
    pub fn is_match_bytes(&self, path: &BytePath) -> (r: bool)
        ensures
            r == glob_matches(self@, path@),
    {
        proof {
            use_type_invariant(self);
        }
        regex_is_match(&self.regex, path.as_bytes())
    }

    /// The captures of the glob in a path, when the glob matches it.
    pub fn captures(&self, path: &BytePath) -> (r: Option<Captures>)
        ensures
            r is Some <==> glob_matches(self@, path@),
            match r {
                Some(c) => glob_regex(self@) matches Some(re) && regex_groups(re, path@) == Some(
                    c.groups_spec(),
                ) && c.text_spec() == path@,
                None => glob_regex(self@) matches Some(re) && regex_groups(re, path@) is None,
            },
    {
        proof {
            use_type_invariant(self);
        }
        let bytes = path.as_bytes();
        match regex_captures(&self.regex, bytes) {
            Some(groups) => Some(Captures::from_groups(vstd::slice::slice_to_vec(bytes), groups)),
            None => None,
        }
    }
}

} // verus!

verus! {

impl std::str::FromStr for Glob {
    type Err = GlobError;

    fn from_str(text: &str) -> (r: Result<Glob, GlobError>)
        ensures
            match r {
                Ok(g) => glob_spec(text@) == Ok::<Seq<TokenSpec>, GlobError>(g@),
                Err(e) => glob_spec(text@) == Err::<Seq<TokenSpec>, GlobError>(e),
            },
    {
        Glob::new(text)
    }
}

/// The tokens of every glob obey the rules and are normalized: no empty
/// literal, no two adjacent literals, no two adjacent tree wildcards and no
/// two adjacent zero-or-more wildcards. Every branch of every alternative fits
/// the tokens around its alternative, and no two component boundaries are
/// adjacent.
pub proof fn lemma_glob_tokens_valid(text: Seq<char>)
    ensures
        glob_spec(text) matches Ok(ts) ==> check_spec(ts) is None && literals_joined(ts)
            && wildcards_merged(ts),
        glob_spec(text) matches Ok(ts) ==> forall|i: int, m: int|
            0 <= i < ts.len() && ts[i] is Alternative && 0 <= m < ts[i]->Alternative_0.len()
                ==> #[trigger] branch_placed(ts, i, ts[i]->Alternative_0[m]),
        glob_spec(text) matches Ok(ts) ==> forall|i: int|
            0 <= i && i + 1 < ts.len() ==> !((#[trigger] ts[i] == TokenSpec::Separator || ts[i]
                == TokenSpec::Wildcard(crate::glob::token::Wildcard::Tree)) && (ts[i + 1]
                == TokenSpec::Separator || ts[i + 1] == TokenSpec::Wildcard(
                crate::glob::token::Wildcard::Tree,
            ))),
{
    if let Some(ts) = parse_spec(text) {
        lemma_optimize_joins_literals(ts);
        lemma_parsed_not_empty_literal(text);
        lemma_optimize_merges_wildcards(ts);
        let o = optimize_spec(ts);
        if check_spec(o) is None {
            lemma_accepted_tokens(o);
        }
    }
}

} // verus!

verus! {

/// Partitioning a glob splits off its invariant prefix and nothing else: the
/// prefix is the glob's literal path prefix, and the rest is the glob's
/// tokens after the prefix.
pub proof fn lemma_partition_splits_prefix(text: Seq<char>)
    ensures
        glob_spec(text) matches Ok(all) ==> (partitioned_spec(text) matches Ok((prefix, rest)) ==> {
            &&& rest == all.subrange(prefix_upper_bound(all), all.len() as int)
            &&& prefix == match literal_path_prefix_spec(all) {
                Some(p) => p,
                None => Seq::empty(),
            }
        }),
{
}

} // verus!
