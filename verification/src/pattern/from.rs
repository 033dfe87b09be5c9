//! From-patterns: globs that select source files and capture parts of their
//! paths.

use vstd::prelude::*;

use crate::glob::read::Read;
use crate::glob::token::{Token, TokenSpec, components, components_spec, lemma_tokens_view, tokens_view};
use crate::glob::{Glob, GlobError, partitioned_spec};

verus! {

/// `true` for a component that is exactly the literal `.` or `..`, which name
/// the current and the parent directory rather than a file.
pub open spec fn is_semantic_literal(cts: Seq<TokenSpec>) -> bool {
    cts.len() == 1 && (cts[0] == TokenSpec::Literal(seq!['.']) || cts[0] == TokenSpec::Literal(seq!['.', '.']))
}

/// `true` when some component of the tokens is a semantic literal.
pub open spec fn has_semantic_literals_spec(ts: Seq<TokenSpec>) -> bool {
    exists|m: int|
        0 <= m < components_spec(ts).len() && #[trigger] is_semantic_literal(
            ts.subrange(components_spec(ts)[m].0, components_spec(ts)[m].1),
        )
}

fn is_semantic_literal_exec(part: &[Token]) -> (r: bool)
    ensures
        r == is_semantic_literal(tokens_view(part@)),
{
    proof {
        lemma_tokens_view(part@);
    }
    if part.len() != 1 {
        return false;
    }
    match &part[0] {
        Token::Literal(text) => {
            let cs = crate::text::chars_of(text.as_str());
            proof {
                if cs@.len() == 1 {
                    assert(cs@ =~= seq![cs@[0]]);
                }
                if cs@.len() == 2 {
                    assert(cs@ =~= seq![cs@[0], cs@[1]]);
                }
            }
            (cs.len() == 1 && cs[0] == '.') || (cs.len() == 2 && cs[0] == '.' && cs[1] == '.')
        },
        _ => false,
    }
}

/// A from-pattern: the invariant path prefix of a glob and the glob of the
/// rest.
pub struct FromPattern {
    prefix: String,
    glob: Glob,
}

impl FromPattern {
    pub closed spec fn prefix_spec(&self) -> Seq<char> {
        self.prefix@
    }

    pub closed spec fn glob_spec(&self) -> Seq<TokenSpec> {
        self.glob@
    }

    /// Parses a from-pattern: a glob partitioned into its invariant prefix
    /// and the rest.
    pub fn new(text: &str) -> (r: Result<FromPattern, GlobError>)
        ensures
            match r {
                Ok(p) => partitioned_spec(text@) == Ok::<(Seq<char>, Seq<TokenSpec>), GlobError>((p.prefix_spec(), p.glob_spec())),
                Err(e) => partitioned_spec(text@) == Err::<(Seq<char>, Seq<TokenSpec>), GlobError>(e),
            },
    {
        match Glob::partitioned(text) {
            Ok((prefix, glob)) => Ok(FromPattern { prefix, glob }),
            Err(e) => Err(e),
        }
    }

    /// A from-pattern of a whole glob, without a prefix.
    pub fn from_glob(glob: Glob) -> (r: FromPattern)
        ensures
            r.prefix_spec() == Seq::<char>::empty(),
            r.glob_spec() == glob@,
    {
        FromPattern { prefix: String::new(), glob }
    }

    /// The invariant path prefix (empty where there is none).
    pub fn prefix(&self) -> (r: &String)
        ensures
            r@ == self.prefix_spec(),
    {
        &self.prefix
    }

    /// The glob of the path below the prefix.
    pub fn glob(&self) -> (r: &Glob)
        ensures
            r@ == self.glob_spec(),
    {
        &self.glob
    }

    /// Whether a component of the glob is the literal `.` or `..`, which do
    /// not name files.
    pub fn has_semantic_literals(&self) -> (r: bool)
        ensures
            r == has_semantic_literals_spec(self.glob_spec()),
    {
        let tokens = self.glob.tokens();
        let ghost ts = tokens_view(tokens@);
        proof {
            lemma_tokens_view(tokens@);
        }
        let comps = components(tokens);
        let ghost cv = components_spec(ts);
        let mut m: usize = 0;
        while m < comps.len()
            invariant
                m <= comps@.len(),
                ts == tokens_view(tokens@),
                ts == self.glob_spec(),
                ts.len() == tokens@.len(),
                cv == components_spec(ts),
                comps@.len() == cv.len(),
                forall|k: int| 0 <= k < comps@.len() ==> (#[trigger] comps@[k]).0 as int == cv[k].0 && comps@[k].1 as int == cv[k].1 && comps@[k].0 < comps@[k].1 <= tokens@.len(),
                forall|k: int| 0 <= k < m ==> !#[trigger] is_semantic_literal(ts.subrange(cv[k].0, cv[k].1)),
            decreases comps@.len() - m,
        {
            let (a, b) = comps[m];
            let part = vstd::slice::slice_subrange(tokens.as_slice(), a, b);
            proof {
                lemma_tokens_view(part@);
                lemma_tokens_view(tokens@);
                assert forall|k: int| 0 <= k < part@.len() implies #[trigger] tokens_view(part@)[k] == ts.subrange(a as int, b as int)[k] by {
                    assert(part@[k] == tokens@[a + k]);
                    assert(ts.subrange(a as int, b as int)[k] == ts[a + k]);
                }
                assert(tokens_view(part@) =~= ts.subrange(a as int, b as int));
            }
            if is_semantic_literal_exec(part) {
                return true;
            }
            m = m + 1;
        }
        false
    }

    /// A reader of a directory tree below the prefix, yielding files only.
    pub fn read(&self) -> (r: Read<'_>)
        ensures
            r.glob_spec() == self.glob_spec(),
            r.files_only_spec(),
    {
        Read::new(&self.glob, true)
    }
}

} // verus!
