//! Reading a directory tree with a glob.
//!
//! A walk over a directory tree asks, for each entry, what to do with it:
//! yield it with the glob's captures, skip it, or skip it together with the
//! directory tree below it. Entries are filtered early by the regular
//! expressions of the glob's leading path components, which are matched
//! against the leading components of the entry's path.

use vstd::prelude::*;

use crate::glob::capture::Captures;
use crate::glob::encode::pattern_of;
use crate::glob::matcher::{regex_groups, regex_is_match, regex_matches, regex_new};
use crate::glob::token::{
    TokenSpec, components, components_spec, lemma_tokens_view, tokens_have_boundary,
    tokens_have_boundary_exec, tokens_view,
};
use crate::glob::{BytePath, Glob, glob_matches, glob_regex};

verus! {

/// The regular expressions of the components of `ts` from the `m`-th: up to
/// (not including) the first component that holds a component boundary or
/// whose regular expression does not compile.
pub open spec fn component_regexes_from(ts: Seq<TokenSpec>, comps: Seq<(int, int)>, m: int) -> Seq<regex::bytes::Regex>
    decreases comps.len() - m,
{
    if m < 0 || m >= comps.len() {
        Seq::empty()
    } else {
        let cts = ts.subrange(comps[m].0, comps[m].1);
        if tokens_have_boundary(cts, 0) {
            Seq::empty()
        } else {
            match glob_regex(cts) {
                Some(re) => seq![re] + component_regexes_from(ts, comps, m + 1),
                None => Seq::empty(),
            }
        }
    }
}

/// The regular expressions of the leading components of a glob.
pub open spec fn component_regexes(ts: Seq<TokenSpec>) -> Seq<regex::bytes::Regex> {
    component_regexes_from(ts, components_spec(ts), 0)
}

/// The first position from `k` at which a path component does not match the
/// regular expression of its glob component.
pub open spec fn first_mismatch_from(rs: Seq<regex::bytes::Regex>, cs: Seq<Seq<u8>>, k: int) -> Option<int>
    decreases rs.len() - k,
{
    if k < 0 || k >= rs.len() || k >= cs.len() {
        None
    } else if !regex_matches(rs[k], cs[k]) {
        Some(k)
    } else {
        first_mismatch_from(rs, cs, k + 1)
    }
}

/// What a walk does with an entry.
#[derive(Clone, Copy, Debug, PartialEq, Eq, Structural)]
pub enum Verdict {
    Yield,
    Skip,
    SkipDirectory,
}

/// The verdict for an entry whose path has the components `cs`, given the
/// component expressions `rs` and whether the whole glob matches the path:
/// a component that does not match prunes the entry (and, for a directory,
/// the tree below it); an entry whose leading components match is yielded
/// when the glob matches it, but only where at least one of its components
/// was compared; with `files_only`, only files are yielded.
pub open spec fn verdict(
    rs: Seq<regex::bytes::Regex>,
    cs: Seq<Seq<u8>>,
    matched: bool,
    is_dir: bool,
    is_file: bool,
    files_only: bool,
) -> Verdict {
    let v = match first_mismatch_from(rs, cs, 0) {
        Some(f) => if f > 0 && matched {
            Verdict::Yield
        } else if is_dir {
            Verdict::SkipDirectory
        } else {
            Verdict::Skip
        },
        None => if cs.len() > 0 && matched {
            Verdict::Yield
        } else {
            Verdict::Skip
        },
    };
    if v == Verdict::Yield && files_only && !is_file {
        Verdict::Skip
    } else {
        v
    }
}

/// The components of a path, each by its bytes.
pub open spec fn components_view(cs: Seq<Vec<u8>>) -> Seq<Seq<u8>> {
    cs.map_values(|c: Vec<u8>| c@)
}

/// What to do with an entry of a walk.
pub enum Selection {
    /// The entry matches: its captures.
    Yield(Captures),
    /// The entry does not match.
    Skip,
    /// The entry does not match, nor does anything in the directory tree
    /// below it.
    SkipDirectory,
}

/// A reader of a directory tree with a glob.
pub struct Read<'g> {
    glob: &'g Glob,
    regexes: Vec<regex::bytes::Regex>,
    files_only: bool,
}

impl<'g> Read<'g> {
    #[verifier::type_invariant]
    spec fn inv(self) -> bool {
        self.regexes@ == component_regexes(self.glob@)
    }

    /// The tokens of the glob.
    pub closed spec fn glob_spec(self) -> Seq<TokenSpec> {
        self.glob@
    }

    /// The regular expressions of the glob's leading components.
    pub closed spec fn regexes_spec(self) -> Seq<regex::bytes::Regex> {
        self.regexes@
    }

    /// Whether only files are yielded.
    pub closed spec fn files_only_spec(self) -> bool {
        self.files_only
    }

    /// A reader of a glob.
    pub fn new(glob: &'g Glob, files_only: bool) -> (r: Read<'g>)
        ensures
            r.glob_spec() == glob@,
            r.regexes_spec() == component_regexes(glob@),
            r.files_only_spec() == files_only,
    {
        let tokens = glob.tokens();
        let ghost ts = tokens_view(tokens@);
        proof {
            lemma_tokens_view(tokens@);
        }
        let comps = components(tokens);
        let ghost cv = components_spec(ts);
        let mut regexes: Vec<regex::bytes::Regex> = Vec::new();
        let mut m: usize = 0;
        while m < comps.len()
            invariant
                m <= comps@.len(),
                ts == tokens_view(tokens@),
                ts == glob@,
                ts.len() == tokens@.len(),
                cv == components_spec(ts),
                comps@.len() == cv.len(),
                forall|k: int| 0 <= k < comps@.len() ==> (#[trigger] comps@[k]).0 as int == cv[k].0 && comps@[k].1 as int == cv[k].1 && comps@[k].0 < comps@[k].1 <= tokens@.len(),
                regexes@ + component_regexes_from(ts, cv, m as int) == component_regexes(ts),
            ensures
                regexes@ == component_regexes(glob@),
            decreases comps@.len() - m,
        {
            let (a, b) = comps[m];
            let part = vstd::slice::slice_subrange(tokens.as_slice(), a, b);
            proof {
                lemma_tokens_view(part@);
                lemma_tokens_view(tokens@);
                assert forall|k: int| 0 <= k < part@.len() implies #[trigger] tokens_view(part@)[k] == ts.subrange(a as int, b as int)[k] by {
                    assert(part@[k] == tokens@[a + k]);
                    assert(ts.subrange(a as int, b as int)[k] == ts[a + k]);
                }
                assert(tokens_view(part@) =~= ts.subrange(a as int, b as int));
            }
            if tokens_have_boundary_exec(part) {
                proof {
                    assert(component_regexes_from(ts, cv, m as int) == Seq::<regex::bytes::Regex>::empty());
                    assert(regexes@ + Seq::<regex::bytes::Regex>::empty() =~= regexes@);
                }
                break;
            }
            let pattern = pattern_of(part);
            match regex_new(pattern.as_str()) {
                Ok(re) => {
                    proof {
                        assert(regexes@.push(re) + component_regexes_from(ts, cv, m + 1) =~= regexes@ + (seq![re] + component_regexes_from(ts, cv, m + 1)));
                    }
                    regexes.push(re);
                },
                Err(_) => {
                    proof {
                        assert(regexes@ + Seq::<regex::bytes::Regex>::empty() =~= regexes@);
                    }
                    break;
                },
            }
            m = m + 1;
            proof {
                if m >= comps.len() {
                    assert(regexes@ + Seq::<regex::bytes::Regex>::empty() =~= regexes@);
                }
            }
        }
        Read { glob, regexes, files_only }
    }

    /// What to do with an entry of the walk whose path (relative to the
    /// walk's root) is `path`, with the (normal) components `components`.
    pub fn select(&self, components: &Vec<Vec<u8>>, path: &BytePath, is_dir: bool, is_file: bool) -> (r: Selection)
        ensures
            match verdict(
                self.regexes_spec(),
                components_view(components@),
                glob_matches(self.glob_spec(), path@),
                is_dir,
                is_file,
                self.files_only_spec(),
            ) {
                Verdict::Yield => r matches Selection::Yield(c) && c.text_spec() == path@ && (glob_regex(self.glob_spec()) matches Some(re) && regex_groups(re, path@) == Some(c.groups_spec())),
                Verdict::Skip => r is Skip,
                Verdict::SkipDirectory => r is SkipDirectory,
            },
    {
        let ghost rs = self.regexes@;
        let ghost cs = components_view(components@);
        let c = components.len();
        let n = self.regexes.len();
        let mut k: usize = 0;
        let mut mismatch: Option<usize> = None;
        while k < c && k < n
            invariant_except_break
                mismatch is None,
                first_mismatch_from(rs, cs, 0) == first_mismatch_from(rs, cs, k as int),
            invariant
                c == components@.len(),
                n == rs.len(),
                rs == self.regexes@,
                cs == components_view(components@),
                cs.len() == c,
                k <= c,
                k <= n,
            ensures
                match mismatch {
                    Some(f) => first_mismatch_from(rs, cs, 0) == Some(f as int),
                    None => first_mismatch_from(rs, cs, 0) is None,
                },
            decreases c - k,
        {
            proof {
                assert(cs[k as int] == components@[k as int]@);
            }
            if !regex_is_match(&self.regexes[k], components[k].as_slice()) {
                mismatch = Some(k);
                break;
            }
            k = k + 1;
        }
        let try_yield = match mismatch {
            Some(f) => f > 0,
            None => c > 0,
        };
        if try_yield {
            if let Some(captures) = self.glob.captures(path) {
                if !self.files_only || is_file {
                    return Selection::Yield(captures);
                } else {
                    return Selection::Skip;
                }
            }
        }
        match mismatch {
            Some(_) => if is_dir {
                Selection::SkipDirectory
            } else {
                Selection::Skip
            },
            None => Selection::Skip,
        }
    }
}

impl Glob {
    /// A reader of a directory tree with this glob.
    pub fn read(&self) -> (r: Read<'_>)
        ensures
            r.glob_spec() == self@,
            r.regexes_spec() == component_regexes(self@),
            !r.files_only_spec(),
    {
        Read::new(self, false)
    }
}

} // verus!

verus! {

/// A walk yields only entries that the whole glob matches, and, reading for
/// files only, only files.
pub proof fn lemma_yield_only_matches(
    rs: Seq<regex::bytes::Regex>,
    cs: Seq<Seq<u8>>,
    matched: bool,
    is_dir: bool,
    is_file: bool,
    files_only: bool,
)
    requires
        verdict(rs, cs, matched, is_dir, is_file, files_only) == Verdict::Yield,
    ensures
        matched,
        files_only ==> is_file,
{
}

proof fn lemma_first_mismatch(rs: Seq<regex::bytes::Regex>, cs: Seq<Seq<u8>>, k: int)
    requires
        0 <= k,
    ensures
        first_mismatch_from(rs, cs, k) matches Some(f) ==> k <= f < rs.len() && f < cs.len()
            && !regex_matches(rs[f], cs[f]),
        first_mismatch_from(rs, cs, k) is None ==> forall|j: int|
            k <= j < rs.len() && j < cs.len() ==> #[trigger] regex_matches(rs[j], cs[j]),
    decreases rs.len() - k,
{
    if k < rs.len() && k < cs.len() && regex_matches(rs[k], cs[k]) {
        lemma_first_mismatch(rs, cs, k + 1);
    }
}

/// A walk prunes only directories, and only where one of the compared path
/// components fails the expression of its glob component: nothing below a
/// directory whose compared components all match is ever cut off.
pub proof fn lemma_prune_only_mismatched(
    rs: Seq<regex::bytes::Regex>,
    cs: Seq<Seq<u8>>,
    matched: bool,
    is_dir: bool,
    is_file: bool,
    files_only: bool,
)
    requires
        verdict(rs, cs, matched, is_dir, is_file, files_only) == Verdict::SkipDirectory,
    ensures
        is_dir,
        exists|k: int| 0 <= k < rs.len() && k < cs.len() && !regex_matches(rs[k], cs[k]),
{
    lemma_first_mismatch(rs, cs, 0);
    if let Some(f) = first_mismatch_from(rs, cs, 0) {
        assert(!regex_matches(rs[f], cs[f]));
    }
}

/// An entry whose compared components all match its glob components is not
/// pruned: it is yielded where the glob matches it (and it is a file, when
/// reading for files only), and otherwise only skipped, so that a walk goes
/// on below it.
pub proof fn lemma_descend_where_components_match(
    rs: Seq<regex::bytes::Regex>,
    cs: Seq<Seq<u8>>,
    matched: bool,
    is_dir: bool,
    is_file: bool,
    files_only: bool,
)
    requires
        forall|k: int| 0 <= k < rs.len() && k < cs.len() ==> #[trigger] regex_matches(rs[k], cs[k]),
    ensures
        verdict(rs, cs, matched, is_dir, is_file, files_only) == if cs.len() > 0 && matched && (
        !files_only || is_file) {
            Verdict::Yield
        } else {
            Verdict::Skip
        },
{
    lemma_first_mismatch(rs, cs, 0);
    if let Some(f) = first_mismatch_from(rs, cs, 0) {
        assert(regex_matches(rs[f], cs[f]));
    }
}

/// A directory whose first component already fails its expression is pruned
/// with the tree below it.
pub proof fn lemma_prune_mismatched_directory(
    rs: Seq<regex::bytes::Regex>,
    cs: Seq<Seq<u8>>,
    matched: bool,
    is_file: bool,
    files_only: bool,
)
    requires
        rs.len() > 0,
        cs.len() > 0,
        !regex_matches(rs[0], cs[0]),
    ensures
        verdict(rs, cs, matched, true, is_file, files_only) == Verdict::SkipDirectory,
{
}

} // verus!
