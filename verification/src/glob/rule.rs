//! Rules for token sequences that parsing alone does not enforce.
//!
//! Most rules concern alternatives, whose branches interact with the tokens
//! next to the alternative: a rule rejects a sequence that would compile to a
//! meaningless or surprising pattern.

use vstd::prelude::*;

use crate::glob::token::{Token, TokenSpec, Wildcard, token_view, tokens_view};

verus! {

/// Why a token sequence was rejected.
#[derive(Clone, Copy, Debug, PartialEq, Eq, Structural)]
pub enum RuleError {
    /// A separator `/` at an edge of a branch where the alternative meets a
    /// component boundary or an end of the glob.
    AlternativeSeparator,
    /// A tree wildcard `**` alone in a branch, or at an edge of a branch where
    /// the alternative meets other tokens.
    AlternativeTree,
    /// A zero-or-more wildcard `*` or `$` at an edge of a branch next to a
    /// zero-or-more wildcard outside the alternative.
    AlternativeZeroOrMore,
    /// Two adjacent component boundaries (`/` or `**`).
    BoundaryAdjacent,
}

impl RuleError {
    /// The description of the error.
    pub open spec fn message_spec(&self) -> Seq<char> {
        match self {
            RuleError::AlternativeSeparator => "invalid separator `/` in alternative"@,
            RuleError::AlternativeTree => "invalid tree wildcard `**` in alternative"@,
            RuleError::AlternativeZeroOrMore => "invalid zero-or-more wildcard `*` or `$` in alternative"@,
            RuleError::BoundaryAdjacent => "adjacent component boundaries `/` or `**`"@,
        }
    }

    /// A description of the error.
    pub fn message(&self) -> (r: &'static str)
        ensures
            r@ == self.message_spec(),
    {
        match self {
            RuleError::AlternativeSeparator => "invalid separator `/` in alternative",
            RuleError::AlternativeTree => "invalid tree wildcard `**` in alternative",
            RuleError::AlternativeZeroOrMore => "invalid zero-or-more wildcard `*` or `$` in alternative",
            RuleError::BoundaryAdjacent => "adjacent component boundaries `/` or `**`",
        }
    }
}

/// Separators and tree wildcards delimit the components of a glob.
pub open spec fn is_boundary(t: TokenSpec) -> bool {
    t == TokenSpec::Separator || t == TokenSpec::Wildcard(Wildcard::Tree)
}

pub open spec fn is_zom_spec(t: Option<TokenSpec>) -> bool {
    t matches Some(TokenSpec::Wildcard(Wildcard::ZeroOrMore(_)))
}

/// The check of one branch of an alternative against the tokens `left` and
/// `right` next to the alternative (`None` where the alternative meets a
/// component boundary or an end of the glob).
pub open spec fn terminal_error(branch: Seq<TokenSpec>, left: Option<TokenSpec>, right: Option<TokenSpec>) -> Option<RuleError> {
    if branch.len() == 0 {
        None
    } else if branch.len() == 1 {
        let t = branch[0];
        if t == TokenSpec::Separator && (left is None || right is None) {
            Some(RuleError::AlternativeSeparator)
        } else if t == TokenSpec::Wildcard(Wildcard::Tree) {
            Some(RuleError::AlternativeTree)
        } else if is_zom_spec(Some(t)) && (is_zom_spec(left) || is_zom_spec(right)) {
            Some(RuleError::AlternativeZeroOrMore)
        } else {
            None
        }
    } else {
        let first = branch[0];
        let last = branch.last();
        if first == TokenSpec::Separator && left is None {
            Some(RuleError::AlternativeSeparator)
        } else if last == TokenSpec::Separator && right is None {
            Some(RuleError::AlternativeSeparator)
        } else if first == TokenSpec::Wildcard(Wildcard::Tree) && left is Some {
            Some(RuleError::AlternativeTree)
        } else if last == TokenSpec::Wildcard(Wildcard::Tree) && right is Some {
            Some(RuleError::AlternativeTree)
        } else if is_zom_spec(Some(first)) && is_zom_spec(left) {
            Some(RuleError::AlternativeZeroOrMore)
        } else if is_zom_spec(Some(last)) && is_zom_spec(right) {
            Some(RuleError::AlternativeZeroOrMore)
        } else {
            None
        }
    }
}

/// The neighbor before position `i` within its component, if any.
pub open spec fn left_neighbor(ts: Seq<TokenSpec>, i: int) -> Option<TokenSpec> {
    if 0 < i <= ts.len() && !is_boundary(ts[i - 1]) {
        Some(ts[i - 1])
    } else {
        None
    }
}

/// The neighbor after position `i` within its component, if any.
pub open spec fn right_neighbor(ts: Seq<TokenSpec>, i: int) -> Option<TokenSpec> {
    if 0 <= i && i + 1 < ts.len() && !is_boundary(ts[i + 1]) {
        Some(ts[i + 1])
    } else {
        None
    }
}

/// `a`, or `b` when `a` is `None`.
pub open spec fn or_else(a: Option<TokenSpec>, b: Option<TokenSpec>) -> Option<TokenSpec> {
    if a is Some {
        a
    } else {
        b
    }
}

/// The first alternative rule that the tokens of `ts` from `i` break, given
/// the tokens next to the enclosing alternative (`parent`); tokens are visited
/// in order, and each alternative's branches in order, depth first.
pub open spec fn alternative_error_from(ts: Seq<TokenSpec>, i: int, left: Option<TokenSpec>, right: Option<TokenSpec>) -> Option<RuleError>
    decreases ts, ts.len() - i,
{
    if i < 0 || i >= ts.len() {
        None
    } else {
        let here = match ts[i] {
            TokenSpec::Alternative(branches) => {
                let l = or_else(left_neighbor(ts, i), left);
                let r = or_else(right_neighbor(ts, i), right);
                proof {
                    assert(decreases_to!(ts => ts[i]));
                }
                branches_error_from(branches, 0, l, r)
            },
            _ => None,
        };
        if here is Some {
            here
        } else {
            alternative_error_from(ts, i + 1, left, right)
        }
    }
}

/// The first alternative rule that the branches from `m` break, given the
/// tokens `left` and `right` next to their alternative.
pub open spec fn branches_error_from(branches: Seq<Seq<TokenSpec>>, m: int, left: Option<TokenSpec>, right: Option<TokenSpec>) -> Option<RuleError>
    decreases branches, branches.len() - m,
{
    if m < 0 || m >= branches.len() {
        None
    } else {
        let branch = branches[m];
        let here = if terminal_error(branch, left, right) is Some {
            terminal_error(branch, left, right)
        } else {
            alternative_error_from(branch, 0, left, right)
        };
        if here is Some {
            here
        } else {
            branches_error_from(branches, m + 1, left, right)
        }
    }
}

/// The first pair of adjacent component boundaries from `i`.
pub open spec fn boundary_error_from(ts: Seq<TokenSpec>, i: int) -> bool
    decreases ts.len() - i,
{
    if i < 0 || i + 1 >= ts.len() {
        false
    } else if is_boundary(ts[i]) && is_boundary(ts[i + 1]) {
        true
    } else {
        boundary_error_from(ts, i + 1)
    }
}

/// The rule that a token sequence breaks, if any: alternative rules first,
/// then adjacent boundaries.
pub open spec fn check_spec(ts: Seq<TokenSpec>) -> Option<RuleError> {
    let a = alternative_error_from(ts, 0, None, None);
    if a is Some {
        a
    } else if boundary_error_from(ts, 0) {
        Some(RuleError::BoundaryAdjacent)
    } else {
        None
    }
}

} // verus!

verus! {

fn is_zom_option(t: Option<&Token>) -> (r: bool)
    ensures
        r == is_zom_spec(crate::glob::token::option_view(t)),
{
    match t {
        Some(t) => t.is_zero_or_more(),
        None => false,
    }
}

fn terminal_error_exec(branch: &Vec<Token>, left: Option<&Token>, right: Option<&Token>) -> (r: Option<RuleError>)
    ensures
        r == terminal_error(tokens_view(branch@), crate::glob::token::option_view(left), crate::glob::token::option_view(right)),
{
    proof {
        crate::glob::token::lemma_tokens_view(branch@);
    }
    let n = branch.len();
    if n == 0 {
        None
    } else if n == 1 {
        let t = &branch[0];
        if t.is_separator() && (left.is_none() || right.is_none()) {
            Some(RuleError::AlternativeSeparator)
        } else if t.is_tree() {
            Some(RuleError::AlternativeTree)
        } else if t.is_zero_or_more() && (is_zom_option(left) || is_zom_option(right)) {
            Some(RuleError::AlternativeZeroOrMore)
        } else {
            None
        }
    } else {
        let first = &branch[0];
        let last = &branch[n - 1];
        if first.is_separator() && left.is_none() {
            Some(RuleError::AlternativeSeparator)
        } else if last.is_separator() && right.is_none() {
            Some(RuleError::AlternativeSeparator)
        } else if first.is_tree() && left.is_some() {
            Some(RuleError::AlternativeTree)
        } else if last.is_tree() && right.is_some() {
            Some(RuleError::AlternativeTree)
        } else if first.is_zero_or_more() && is_zom_option(left) {
            Some(RuleError::AlternativeZeroOrMore)
        } else if last.is_zero_or_more() && is_zom_option(right) {
            Some(RuleError::AlternativeZeroOrMore)
        } else {
            None
        }
    }
}

fn alternative_error_exec(ts: &Vec<Token>, left: Option<&Token>, right: Option<&Token>) -> (r: Option<RuleError>)
    ensures
        r == alternative_error_from(tokens_view(ts@), 0, crate::glob::token::option_view(left), crate::glob::token::option_view(right)),
    decreases ts@,
{
    let ghost tv = tokens_view(ts@);
    let ghost lv = crate::glob::token::option_view(left);
    let ghost rv = crate::glob::token::option_view(right);
    proof {
        crate::glob::token::lemma_tokens_view(ts@);
    }
    let n = ts.len();
    let mut i: usize = 0;
    while i < n
        invariant
            i <= n,
            n == ts@.len(),
            tv == tokens_view(ts@),
            tv.len() == n,
            forall|k: int| 0 <= k < n ==> #[trigger] tv[k] == token_view(ts@[k]),
            lv == crate::glob::token::option_view(left),
            rv == crate::glob::token::option_view(right),
            alternative_error_from(tv, 0, lv, rv) == alternative_error_from(tv, i as int, lv, rv),
        decreases n - i,
    {
        match &ts[i] {
            Token::Alternative(alternative) => {
                let l = if i > 0 && !ts[i - 1].is_component_boundary() {
                    Some(&ts[i - 1])
                } else {
                    left
                };
                let r = if i + 1 < n && !ts[i + 1].is_component_boundary() {
                    Some(&ts[i + 1])
                } else {
                    right
                };
                proof {
                    assert(crate::glob::token::option_view(l) == or_else(left_neighbor(tv, i as int), lv));
                    assert(crate::glob::token::option_view(r) == or_else(right_neighbor(tv, i as int), rv));
                }
                let e = branches_error_exec(&alternative.0, l, r);
                if e.is_some() {
                    return e;
                }
            },
            _ => {},
        }
        i = i + 1;
    }
    None
}

fn branches_error_exec(bs: &Vec<Vec<Token>>, left: Option<&Token>, right: Option<&Token>) -> (r: Option<RuleError>)
    ensures
        r == branches_error_from(crate::glob::token::branches_view(bs@), 0, crate::glob::token::option_view(left), crate::glob::token::option_view(right)),
    decreases bs@,
{
    let ghost bv = crate::glob::token::branches_view(bs@);
    let ghost lv = crate::glob::token::option_view(left);
    let ghost rv = crate::glob::token::option_view(right);
    proof {
        crate::glob::token::lemma_branches_view(bs@);
    }
    let n = bs.len();
    let mut m: usize = 0;
    while m < n
        invariant
            m <= n,
            n == bs@.len(),
            bv == crate::glob::token::branches_view(bs@),
            bv.len() == n,
            forall|k: int| 0 <= k < n ==> #[trigger] bv[k] == tokens_view(bs@[k]@),
            lv == crate::glob::token::option_view(left),
            rv == crate::glob::token::option_view(right),
            branches_error_from(bv, 0, lv, rv) == branches_error_from(bv, m as int, lv, rv),
        decreases n - m,
    {
        let branch = &bs[m];
        let e = terminal_error_exec(branch, left, right);
        if e.is_some() {
            return e;
        }
        let e = alternative_error_exec(branch, left, right);
        if e.is_some() {
            return e;
        }
        m = m + 1;
    }
    None
}

/// Checks a token sequence against the rules: first the rules for
/// alternatives (depth first, in order), then that no two component
/// boundaries are adjacent.
pub fn check(tokens: &Vec<Token>) -> (r: Result<(), RuleError>)
    ensures
        match r {
            Ok(()) => check_spec(tokens_view(tokens@)).is_none(),
            Err(e) => check_spec(tokens_view(tokens@)) == Some(e),
        },
{
    let ghost tv = tokens_view(tokens@);
    proof {
        crate::glob::token::lemma_tokens_view(tokens@);
    }
    match alternative_error_exec(tokens, None, None) {
        Some(e) => {
            return Err(e);
        },
        None => {},
    }
    let n = tokens.len();
    let mut i: usize = 0;
    while n > 0 && i < n - 1
        invariant
            i <= n,
            alternative_error_from(tv, 0, None, None).is_none(),
            n == tokens@.len(),
            tv == tokens_view(tokens@),
            tv.len() == n,
            forall|k: int| 0 <= k < n ==> #[trigger] tv[k] == token_view(tokens@[k]),
            boundary_error_from(tv, 0) == boundary_error_from(tv, i as int),
        decreases n - i,
    {
        if tokens[i].is_component_boundary() && tokens[i + 1].is_component_boundary() {
            return Err(RuleError::BoundaryAdjacent);
        }
        i = i + 1;
    }
    Ok(())
}

} // verus!

verus! {

/// `true` when the token at `i` begins its path component: it is the first
/// token, or follows a separator or a tree wildcard.
pub open spec fn begins_component(ts: Seq<TokenSpec>, i: int) -> bool {
    i == 0 || ts[i - 1] == TokenSpec::Separator || ts[i - 1] == TokenSpec::Wildcard(Wildcard::Tree)
}

/// `true` when the token at `i` ends its path component: it is the last
/// token, or precedes a separator or a tree wildcard.
pub open spec fn ends_component(ts: Seq<TokenSpec>, i: int) -> bool {
    i == ts.len() - 1 || ts[i + 1] == TokenSpec::Separator || ts[i + 1] == TokenSpec::Wildcard(
        Wildcard::Tree,
    )
}

proof fn lemma_branches_clear(bs: Seq<Seq<TokenSpec>>, m: int, left: Option<TokenSpec>, right: Option<TokenSpec>)
    requires
        0 <= m,
        branches_error_from(bs, m, left, right) is None,
    ensures
        forall|j: int| m <= j < bs.len() ==> terminal_error(#[trigger] bs[j], left, right) is None,
    decreases bs.len() - m,
{
    if m < bs.len() {
        lemma_branches_clear(bs, m + 1, left, right);
    }
}

proof fn lemma_alternatives_clear(ts: Seq<TokenSpec>, k: int, left: Option<TokenSpec>, right: Option<TokenSpec>)
    requires
        0 <= k,
        alternative_error_from(ts, k, left, right) is None,
    ensures
        forall|i: int|
            k <= i < ts.len() ==> (#[trigger] ts[i] matches TokenSpec::Alternative(bs)
                ==> branches_error_from(
                bs,
                0,
                or_else(left_neighbor(ts, i), left),
                or_else(right_neighbor(ts, i), right),
            ) is None),
    decreases ts.len() - k,
{
    if k < ts.len() {
        lemma_alternatives_clear(ts, k + 1, left, right);
    }
}

proof fn lemma_boundaries_clear(ts: Seq<TokenSpec>, k: int)
    requires
        0 <= k,
        !boundary_error_from(ts, k),
    ensures
        forall|i: int| k <= i && i + 1 < ts.len() ==> !(is_boundary(#[trigger] ts[i]) && is_boundary(ts[i + 1])),
    decreases ts.len() - k,
{
    if k + 1 < ts.len() {
        lemma_boundaries_clear(ts, k + 1);
    }
}

/// `true` when the branch `b` of the alternative at `i` fits the tokens
/// around the alternative: it does not begin with a separator where the
/// alternative begins its component, nor end with one where it ends its
/// component; it is not a tree wildcard alone, and begins (ends) with a tree
/// wildcard only where the alternative begins (ends) its component; it begins
/// (ends) with a zero-or-more wildcard only where no zero-or-more wildcard is
/// right before (after) the alternative.
pub open spec fn branch_placed(ts: Seq<TokenSpec>, i: int, b: Seq<TokenSpec>) -> bool {
    b.len() > 0 ==> {
        &&& begins_component(ts, i) ==> b[0] != TokenSpec::Separator
        &&& ends_component(ts, i) ==> b.last() != TokenSpec::Separator
        &&& b != seq![TokenSpec::Wildcard(Wildcard::Tree)]
        &&& !begins_component(ts, i) ==> b[0] != TokenSpec::Wildcard(Wildcard::Tree)
        &&& !ends_component(ts, i) ==> b.last() != TokenSpec::Wildcard(Wildcard::Tree)
        &&& (i > 0 && is_zom_spec(Some(ts[i - 1]))) ==> !is_zom_spec(Some(b[0]))
        &&& (i + 1 < ts.len() && is_zom_spec(Some(ts[i + 1]))) ==> !is_zom_spec(Some(b.last()))
    }
}

/// Tokens that obey the rules place every branch of every alternative among
/// them properly against the tokens around the alternative (`branch_placed`),
/// and hold no two adjacent separators or tree wildcards.
pub proof fn lemma_accepted_tokens(ts: Seq<TokenSpec>)
    requires
        check_spec(ts) is None,
    ensures
        forall|i: int, m: int|
            0 <= i < ts.len() && ts[i] is Alternative && 0 <= m < ts[i]->Alternative_0.len()
                ==> #[trigger] branch_placed(ts, i, ts[i]->Alternative_0[m]),
        forall|i: int|
            0 <= i && i + 1 < ts.len() ==> !((#[trigger] ts[i] == TokenSpec::Separator || ts[i]
                == TokenSpec::Wildcard(Wildcard::Tree)) && (ts[i + 1] == TokenSpec::Separator
                || ts[i + 1] == TokenSpec::Wildcard(Wildcard::Tree))),
{
    lemma_alternatives_clear(ts, 0, None, None);
    lemma_boundaries_clear(ts, 0);
    assert forall|i: int, m: int|
        0 <= i < ts.len() && ts[i] is Alternative && 0 <= m < ts[i]->Alternative_0.len()
            implies #[trigger] branch_placed(ts, i, ts[i]->Alternative_0[m]) by {
        let bs = ts[i]->Alternative_0;
        let l = or_else(left_neighbor(ts, i), None);
        let r = or_else(right_neighbor(ts, i), None);
        lemma_branches_clear(bs, 0, l, r);
        assert(terminal_error(bs[m], l, r) is None);
        let b = bs[m];
        if b.len() == 1 {
            assert(b.last() == b[0]);
            if b =~= seq![TokenSpec::Wildcard(Wildcard::Tree)] {
                assert(b[0] == TokenSpec::Wildcard(Wildcard::Tree));
            }
        } else if b.len() > 1 {
            assert(b.len() != seq![TokenSpec::Wildcard(Wildcard::Tree)].len());
        }
    }
}

} // verus!
