//! The tokens of globs: their grammar, their normalization, and their
//! components.

use vstd::prelude::*;

verus! {

/// How much text a zero-or-more wildcard matches: as much (`*`) or as little
/// (`$`) as possible.
#[derive(Clone, Copy, Debug, PartialEq, Eq, Structural)]
pub enum Evaluation {
    Eager,
    Lazy,
}

/// A member of a character class: one character or a range of characters.
#[derive(Clone, Copy, Debug, PartialEq, Eq, Structural)]
pub enum Archetype {
    Character(char),
    Range(char, char),
}

/// A wildcard: exactly one character (`?`), zero or more characters (`*` or
/// `$`) within a component, or any number of components (`**`).
#[derive(Clone, Copy, Debug, PartialEq, Eq, Structural)]
pub enum Wildcard {
    One,
    ZeroOrMore(Evaluation),
    Tree,
}

/// An alternative: its branches, each a sequence of tokens.
#[derive(Debug)]
pub struct Alternative(pub Vec<Vec<Token>>);

/// A token of a glob.
#[derive(Debug)]
pub enum Token {
    Alternative(Alternative),
    Class { is_negated: bool, archetypes: Vec<Archetype> },
    Literal(String),
    Separator,
    Wildcard(Wildcard),
}

/// The mathematical model of a token: text as sequences of characters.
pub enum TokenSpec {
    Alternative(Seq<Seq<TokenSpec>>),
    Class(bool, Seq<Archetype>),
    Literal(Seq<char>),
    Separator,
    Wildcard(Wildcard),
}

/// The model of a token.
pub open spec fn token_view(t: Token) -> TokenSpec
    decreases t,
{
    match t {
        Token::Alternative(a) => TokenSpec::Alternative(branches_view(a.0@)),
        Token::Class { is_negated, archetypes } => TokenSpec::Class(is_negated, archetypes@),
        Token::Literal(s) => TokenSpec::Literal(s@),
        Token::Separator => TokenSpec::Separator,
        Token::Wildcard(w) => TokenSpec::Wildcard(w),
    }
}

/// The models of tokens.
pub open spec fn tokens_view(ts: Seq<Token>) -> Seq<TokenSpec>
    decreases ts,
{
    if ts.len() == 0 {
        Seq::empty()
    } else {
        tokens_view(ts.drop_last()).push(token_view(ts.last()))
    }
}

/// The models of the branches of an alternative.
pub open spec fn branches_view(bs: Seq<Vec<Token>>) -> Seq<Seq<TokenSpec>>
    decreases bs,
{
    if bs.len() == 0 {
        Seq::empty()
    } else {
        branches_view(bs.drop_last()).push(tokens_view(bs.last()@))
    }
}

} // verus!

verus! {

// ---------------------------------------------------------------------------
// The glob grammar.
//
// Every parser takes the text `s` and a position `i` and either fails (`None`)
// or yields an output and the position after the text that it consumed.
// Alternatives are tried in order and the first that succeeds is taken;
// sequences of items are as long as possible.
// ---------------------------------------------------------------------------

/// `true` when the tree wildcard text `**` begins at `i`.
pub open spec fn tree_at(s: Seq<char>, i: int) -> bool {
    0 <= i && i + 1 < s.len() && s[i] == '*' && s[i + 1] == '*'
}

/// Characters that end a run of literal text.
pub open spec fn is_glob_meta(c: char) -> bool {
    c == '/' || c == '?' || c == '*' || c == '$' || c == '[' || c == ']' || c == '{' || c == '}'
        || c == ',' || c == '\\'
}

/// Characters that may follow a back slash in literal text: the
/// metacharacters of globs. A back slash itself cannot be escaped, so no
/// literal holds one.
pub open spec fn is_literal_escapable(c: char) -> bool {
    c == '?' || c == '*' || c == '$' || c == '[' || c == ']' || c == '{' || c == '}' || c == ','
}

/// The end of the longest run of non-meta characters that begins at `i`.
pub open spec fn literal_run_end(s: Seq<char>, i: int) -> int
    decreases s.len() - i,
{
    if 0 <= i < s.len() && !is_glob_meta(s[i]) {
        literal_run_end(s, i + 1)
    } else {
        i
    }
}

/// One run of plain literal text: non-empty, and neither preceded nor followed
/// by `**`.
pub open spec fn literal_run_at(s: Seq<char>, i: int) -> Option<(Seq<char>, int)> {
    if tree_at(s, i) {
        None
    } else {
        let j = literal_run_end(s, i);
        if j <= i || tree_at(s, j) {
            None
        } else {
            Some((s.subrange(i, j), j))
        }
    }
}

/// Literal text from `start`, where `i` is the current position and `acc`
/// holds the text read so far: runs of plain text and escaped characters.
pub open spec fn literal_text_from(s: Seq<char>, start: int, i: int, acc: Seq<char>) -> Option<(Seq<char>, int)>
    decreases s.len() - i,
{
    if i < 0 || i >= s.len() {
        Some((acc, i))
    } else {
        match literal_run_at(s, i) {
            Some((text, j)) => if j == s.len() {
                Some((acc + text, j))
            } else if i < j < s.len() {
                literal_text_from(s, start, j, acc + text)
            } else {
                None
            },
            None => if s[i] == '\\' {
                if i + 1 >= s.len() {
                    None
                } else if is_literal_escapable(s[i + 1]) {
                    if i + 2 == s.len() {
                        Some((acc.push(s[i + 1]), i + 2))
                    } else {
                        literal_text_from(s, start, i + 2, acc.push(s[i + 1]))
                    }
                } else {
                    None
                }
            } else if i == start {
                None
            } else {
                Some((acc, i))
            },
        }
    }
}

/// A literal token.
pub open spec fn literal_at(s: Seq<char>, i: int) -> Option<(TokenSpec, int)> {
    match literal_text_from(s, i, i, Seq::empty()) {
        Some((text, j)) => if text.len() > 0 {
            Some((TokenSpec::Literal(text), j))
        } else {
            None
        },
        None => None,
    }
}

/// Characters that must be escaped within a character class.
pub open spec fn is_class_meta(c: char) -> bool {
    c == '[' || c == ']' || c == '-' || c == '\\'
}

/// One (possibly escaped) character of a character class.
pub open spec fn class_char_at(s: Seq<char>, i: int) -> Option<(char, int)> {
    if 0 <= i < s.len() {
        if !is_class_meta(s[i]) {
            Some((s[i], i + 1))
        } else if s[i] == '\\' && i + 1 < s.len() && (s[i + 1] == '[' || s[i + 1] == ']' || s[i
            + 1] == '-') {
            Some((s[i + 1], i + 2))
        } else {
            None
        }
    } else {
        None
    }
}

/// A character or a range of characters within a class.
pub open spec fn archetype_at(s: Seq<char>, i: int) -> Option<(Archetype, int)> {
    match class_char_at(s, i) {
        Some((a, j)) => if 0 <= j < s.len() && s[j] == '-' {
            match class_char_at(s, j + 1) {
                Some((b, k)) => Some((Archetype::Range(a, b), k)),
                None => Some((Archetype::Character(a), j)),
            }
        } else {
            Some((Archetype::Character(a), j))
        },
        None => None,
    }
}

/// Archetypes from `i`, following those in `acc`, as many as there are.
pub open spec fn archetypes_from(s: Seq<char>, i: int, acc: Seq<Archetype>) -> (Seq<Archetype>, int)
    decreases s.len() - i,
{
    match archetype_at(s, i) {
        Some((a, j)) => if i < j <= s.len() {
            archetypes_from(s, j, acc.push(a))
        } else {
            (acc, i)
        },
        None => (acc, i),
    }
}

/// A character class: `[`, an optional `!`, one or more archetypes, `]`.
pub open spec fn class_at(s: Seq<char>, i: int) -> Option<(TokenSpec, int)> {
    if 0 <= i < s.len() && s[i] == '[' {
        let (negated, k) = if i + 1 < s.len() && s[i + 1] == '!' {
            (true, i + 2)
        } else {
            (false, i + 1)
        };
        match archetype_at(s, k) {
            Some((a, j)) => {
                let (archetypes, m) = if k < j <= s.len() {
                    archetypes_from(s, j, seq![a])
                } else {
                    (seq![a], j)
                };
                if 0 <= m < s.len() && s[m] == ']' {
                    Some((TokenSpec::Class(negated, archetypes), m + 1))
                } else {
                    None
                }
            },
            None => None,
        }
    } else {
        None
    }
}

/// `true` when position `k` ends a tree wildcard without consuming text: the
/// end of the text at the top level, or `,` or `}` within an alternative.
pub open spec fn tree_terminated(s: Seq<char>, k: int, nested: bool) -> bool {
    if nested {
        0 <= k < s.len() && (s[k] == ',' || s[k] == '}')
    } else {
        k == s.len()
    }
}

/// A wildcard or a character class. Within an alternative (`nested`) a tree
/// wildcard may also end where its branch ends.
pub open spec fn wildcard_at(s: Seq<char>, i: int, nested: bool) -> Option<(TokenSpec, int)> {
    let n = s.len();
    let k = if 0 <= i < n && s[i] == '/' {
        i + 1
    } else {
        i
    };
    if 0 <= i < n && s[i] == '?' && !tree_at(s, i + 1) {
        Some((TokenSpec::Wildcard(Wildcard::One), i + 1))
    } else if tree_at(s, k) && ((k + 2 < n && s[k + 2] == '/') || tree_terminated(s, k + 2, nested)) {
        if k + 2 < n && s[k + 2] == '/' {
            Some((TokenSpec::Wildcard(Wildcard::Tree), k + 3))
        } else {
            Some((TokenSpec::Wildcard(Wildcard::Tree), k + 2))
        }
    } else if 0 <= i < n && s[i] == '*' && (i + 1 == n || (s[i + 1] != '*' && s[i + 1] != '$')) {
        Some((TokenSpec::Wildcard(Wildcard::ZeroOrMore(Evaluation::Eager)), i + 1))
    } else if 0 <= i < n && s[i] == '$' && (i + 1 == n || (s[i + 1] != '*' && s[i + 1] != '$')) {
        Some((TokenSpec::Wildcard(Wildcard::ZeroOrMore(Evaluation::Lazy)), i + 1))
    } else {
        class_at(s, i)
    }
}

/// A separator `/`.
pub open spec fn separator_at(s: Seq<char>, i: int) -> Option<(TokenSpec, int)> {
    if 0 <= i < s.len() && s[i] == '/' {
        Some((TokenSpec::Separator, i + 1))
    } else {
        None
    }
}

/// Restricts a parser's result to those that consume at least one character.
pub open spec fn advancing<T>(r: Option<(T, int)>, s: Seq<char>, i: int) -> Option<(T, int)> {
    match r {
        Some((t, j)) => if 0 <= i < j <= s.len() {
            Some((t, j))
        } else {
            None
        },
        None => None,
    }
}

/// One token: a literal, an alternative, a wildcard, or a separator (tried
/// in this order).
pub open spec fn token_at(s: Seq<char>, i: int, nested: bool) -> Option<(TokenSpec, int)>
    decreases s.len() - i, 3int,
{
    if i < 0 || i >= s.len() {
        None
    } else {
        match advancing(literal_at(s, i), s, i) {
            Some(r) => Some(r),
            None => match alternative_at(s, i) {
                Some(r) => Some(r),
                None => match advancing(wildcard_at(s, i, nested), s, i) {
                    Some(r) => Some(r),
                    None => separator_at(s, i),
                },
            },
        }
    }
}

/// An alternative: `{`, one or more globs separated by `,`, `}`.
pub open spec fn alternative_at(s: Seq<char>, i: int) -> Option<(TokenSpec, int)>
    decreases s.len() - i, 2int,
{
    if 0 <= i < s.len() && s[i] == '{' {
        match glob_at(s, i + 1, true) {
            Some((branch, j)) => if i < j <= s.len() {
                let (branches, k) = branches_from(s, j, seq![branch]);
                if 0 <= k < s.len() && s[k] == '}' {
                    Some((TokenSpec::Alternative(branches), k + 1))
                } else {
                    None
                }
            } else {
                None
            },
            None => None,
        }
    } else {
        None
    }
}

/// Further branches of an alternative from `j`, following those in `acc`.
pub open spec fn branches_from(s: Seq<char>, j: int, acc: Seq<Seq<TokenSpec>>) -> (Seq<Seq<TokenSpec>>, int)
    decreases s.len() - j, 1int,
{
    if 0 <= j < s.len() && s[j] == ',' {
        match glob_at(s, j + 1, true) {
            Some((branch, k)) => if j < k <= s.len() {
                branches_from(s, k, acc.push(branch))
            } else {
                (acc, j)
            },
            None => (acc, j),
        }
    } else {
        (acc, j)
    }
}

/// A glob: one or more tokens, as many as there are. `nested` holds within
/// the branches of an alternative.
pub open spec fn glob_at(s: Seq<char>, i: int, nested: bool) -> Option<(Seq<TokenSpec>, int)>
    decreases s.len() - i, 5int,
{
    match token_at(s, i, nested) {
        Some((t, j)) => if i < j <= s.len() {
            Some(tokens_from(s, j, seq![t], nested))
        } else {
            None
        },
        None => None,
    }
}

/// Further tokens from `j`, following those in `acc`.
pub open spec fn tokens_from(s: Seq<char>, j: int, acc: Seq<TokenSpec>, nested: bool) -> (Seq<TokenSpec>, int)
    decreases s.len() - j, 4int,
{
    match token_at(s, j, nested) {
        Some((t, k)) => if j < k <= s.len() {
            tokens_from(s, k, acc.push(t), nested)
        } else {
            (acc, j)
        },
        None => (acc, j),
    }
}

/// The tokens of a glob text, when the whole text is a glob.
pub open spec fn parse_spec(s: Seq<char>) -> Option<Seq<TokenSpec>> {
    match glob_at(s, 0, false) {
        Some((tokens, j)) => if j == s.len() {
            Some(tokens)
        } else {
            None
        },
        None => None,
    }
}

} // verus!

verus! {

/// `exec` result `r` agrees with the grammar's result `g`.
pub open spec fn agrees(r: Option<(Token, usize)>, g: Option<(TokenSpec, int)>) -> bool {
    match (r, g) {
        (Some((t, j)), Some((u, k))) => token_view(t) == u && j == k,
        (None, None) => true,
        _ => false,
    }
}

proof fn lemma_tokens_view_push(ts: Seq<Token>, t: Token)
    ensures
        tokens_view(ts.push(t)) == tokens_view(ts).push(token_view(t)),
{
    assert(ts.push(t).drop_last() =~= ts);
}

proof fn lemma_branches_view_push(bs: Seq<Vec<Token>>, b: Vec<Token>)
    ensures
        branches_view(bs.push(b)) == branches_view(bs).push(tokens_view(b@)),
{
    assert(bs.push(b).drop_last() =~= bs);
}

fn is_glob_meta_exec(c: char) -> (r: bool)
    ensures
        r == is_glob_meta(c),
{
    c == '/' || c == '?' || c == '*' || c == '$' || c == '[' || c == ']' || c == '{' || c == '}'
        || c == ',' || c == '\\'
}

fn tree_at_exec(s: &Vec<char>, i: usize) -> (r: bool)
    ensures
        r == tree_at(s@, i as int),
{
    i < s.len() && i + 1 < s.len() && s[i] == '*' && s[i + 1] == '*'
}

fn literal_run_end_exec(s: &Vec<char>, i: usize) -> (r: usize)
    requires
        i <= s@.len(),
    ensures
        r as int == literal_run_end(s@, i as int),
        i <= r <= s@.len(),
{
    let mut j = i;
    while j < s.len() && !is_glob_meta_exec(s[j])
        invariant
            i <= j <= s@.len(),
            literal_run_end(s@, j as int) == literal_run_end(s@, i as int),
        decreases s@.len() - j,
    {
        j = j + 1;
    }
    j
}

fn literal_at_exec(s: &Vec<char>, start: usize) -> (r: Option<(Token, usize)>)
    requires
        start < s@.len(),
    ensures
        agrees(r, literal_at(s@, start as int)),
{
    let n = s.len();
    let mut i = start;
    let mut acc: Vec<char> = Vec::new();
    let ghost target = literal_text_from(s@, start as int, start as int, Seq::empty());
    // Either the text so far is final, or reading continues at `i`.
    let mut done = false;
    while !done
        invariant
            start <= i <= n,
            n == s@.len(),
            target == literal_text_from(s@, start as int, start as int, Seq::empty()),
            !done ==> i < n,
            !done ==> literal_text_from(s@, start as int, i as int, acc@) == target,
            done ==> target == Some((acc@, i as int)),
        decreases n - i, if done { 0int } else { 1int },
    {
        let in_tree = tree_at_exec(s, i);
        let j = if in_tree { i } else { literal_run_end_exec(s, i) };
        if !in_tree && j > i && !tree_at_exec(s, j) {
            let mut k = i;
            let ghost before = acc@;
            while k < j
                invariant
                    i <= k <= j,
                    j <= n,
                    n == s@.len(),
                    acc@ == before + s@.subrange(i as int, k as int),
                decreases j - k,
            {
                acc.push(s[k]);
                proof {
                    assert(before + s@.subrange(i as int, k as int + 1) =~= (before + s@.subrange(i as int, k as int)).push(s@[k as int]));
                }
                k = k + 1;
            }
            i = j;
            if j == n {
                done = true;
            }
        } else if s[i] == '\\' {
            proof {
                assert(literal_run_at(s@, i as int).is_none());
            }
            if i + 1 >= n {
                assert(literal_text_from(s@, start as int, i as int, acc@).is_none());
                return None;
            }
            let c = s[i + 1];
            if c == '?' || c == '*' || c == '$' || c == '[' || c == ']' || c == '{' || c == '}'
                || c == ',' {
                acc.push(c);
                i = i + 2;
                if i == n {
                    done = true;
                }
            } else {
                return None;
            }
        } else if i == start {
            return None;
        } else {
            done = true;
        }
    }
    if acc.len() > 0 {
        let text = crate::text::string_of(&acc);
        Some((Token::Literal(text), i))
    } else {
        None
    }
}

fn class_char_at_exec(s: &Vec<char>, i: usize) -> (r: Option<(char, usize)>)
    ensures
        match (r, class_char_at(s@, i as int)) {
            (Some((c, j)), Some((d, k))) => c == d && j == k,
            (None, None) => true,
            _ => false,
        },
{
    if i < s.len() {
        let c = s[i];
        if !(c == '[' || c == ']' || c == '-' || c == '\\') {
            Some((c, i + 1))
        } else if c == '\\' && i + 1 < s.len() && (s[i + 1] == '[' || s[i + 1] == ']' || s[i + 1]
            == '-') {
            Some((s[i + 1], i + 2))
        } else {
            None
        }
    } else {
        None
    }
}

fn archetype_at_exec(s: &Vec<char>, i: usize) -> (r: Option<(Archetype, usize)>)
    ensures
        match (r, archetype_at(s@, i as int)) {
            (Some((a, j)), Some((b, k))) => a == b && j == k,
            (None, None) => true,
            _ => false,
        },
        r matches Some((_, j)) ==> i < j <= s@.len(),
{
    match class_char_at_exec(s, i) {
        Some((a, j)) => if j < s.len() && s[j] == '-' {
            match class_char_at_exec(s, j + 1) {
                Some((b, k)) => Some((Archetype::Range(a, b), k)),
                None => Some((Archetype::Character(a), j)),
            }
        } else {
            Some((Archetype::Character(a), j))
        },
        None => None,
    }
}

fn class_at_exec(s: &Vec<char>, i: usize) -> (r: Option<(Token, usize)>)
    ensures
        agrees(r, class_at(s@, i as int)),
{
    if i < s.len() && s[i] == '[' {
        let (negated, k) = if i + 1 < s.len() && s[i + 1] == '!' {
            (true, i + 2)
        } else {
            (false, i + 1)
        };
        match archetype_at_exec(s, k) {
            Some((a, j)) => {
                let mut archetypes: Vec<Archetype> = Vec::new();
                archetypes.push(a);
                let mut m = j;
                let ghost target = archetypes_from(s@, j as int, seq![a]);
                proof {
                    assert(archetypes@ =~= seq![a]);
                }
                loop
                    invariant
                        m <= s@.len(),
                        target == archetypes_from(s@, j as int, seq![a]),
                        archetypes_from(s@, m as int, archetypes@) == target,
                    ensures
                        m <= s@.len(),
                        target == (archetypes@, m as int),
                    decreases s@.len() - m,
                {
                    match archetype_at_exec(s, m) {
                        Some((b, q)) => {
                            archetypes.push(b);
                            m = q;
                        },
                        None => {
                            break ;
                        },
                    }
                }
                if m < s.len() && s[m] == ']' {
                    Some((Token::Class { is_negated: negated, archetypes }, m + 1))
                } else {
                    None
                }
            },
            None => None,
        }
    } else {
        None
    }
}

fn wildcard_at_exec(s: &Vec<char>, i: usize, nested: bool) -> (r: Option<(Token, usize)>)
    requires
        i < s@.len(),
    ensures
        agrees(r, wildcard_at(s@, i as int, nested)),
{
    let n = s.len();
    let k = if s[i] == '/' { i + 1 } else { i };
    if s[i] == '?' && !tree_at_exec(s, i + 1) {
        Some((Token::Wildcard(Wildcard::One), i + 1))
    } else if tree_at_exec(s, k) && ((k + 2 < n && s[k + 2] == '/') || (if nested {
        k + 2 < n && (s[k + 2] == ',' || s[k + 2] == '}')
    } else {
        k + 2 == n
    })) {
        if k + 2 < n && s[k + 2] == '/' {
            Some((Token::Wildcard(Wildcard::Tree), k + 3))
        } else {
            Some((Token::Wildcard(Wildcard::Tree), k + 2))
        }
    } else if s[i] == '*' && (i + 1 == n || (s[i + 1] != '*' && s[i + 1] != '$')) {
        Some((Token::Wildcard(Wildcard::ZeroOrMore(Evaluation::Eager)), i + 1))
    } else if s[i] == '$' && (i + 1 == n || (s[i + 1] != '*' && s[i + 1] != '$')) {
        Some((Token::Wildcard(Wildcard::ZeroOrMore(Evaluation::Lazy)), i + 1))
    } else {
        class_at_exec(s, i)
    }
}

fn token_at_exec(s: &Vec<char>, i: usize, nested: bool) -> (r: Option<(Token, usize)>)
    requires
        i <= s@.len(),
    ensures
        agrees(r, token_at(s@, i as int, nested)),
    decreases s@.len() - i, 3int,
{
    if i >= s.len() {
        return None;
    }
    match literal_at_exec(s, i) {
        Some((t, j)) => if i < j && j <= s.len() {
            return Some((t, j));
        },
        None => {},
    }
    match alternative_at_exec(s, i) {
        Some(r) => {
            return Some(r);
        },
        None => {},
    }
    match wildcard_at_exec(s, i, nested) {
        Some((t, j)) => if i < j && j <= s.len() {
            return Some((t, j));
        },
        None => {},
    }
    if s[i] == '/' {
        Some((Token::Separator, i + 1))
    } else {
        None
    }
}

fn alternative_at_exec(s: &Vec<char>, i: usize) -> (r: Option<(Token, usize)>)
    requires
        i <= s@.len(),
    ensures
        agrees(r, alternative_at(s@, i as int)),
    decreases s@.len() - i, 2int,
{
    if i < s.len() && s[i] == '{' {
        match glob_at_exec(s, i + 1, true) {
            Some((branch, j)) => if i < j && j <= s.len() {
                let mut branches: Vec<Vec<Token>> = Vec::new();
                let ghost first = tokens_view(branch@);
                branches.push(branch);
                proof {
                    lemma_branches_view_push(Seq::empty(), branches@[0]);
                    assert(branches@ =~= Seq::<Vec<Token>>::empty().push(branches@[0]));
                    assert(branches_view(branches@) =~= seq![first]);
                }
                let mut k = j;
                let ghost target = branches_from(s@, j as int, seq![first]);
                loop
                    invariant
                        i < k <= s@.len(),
                        target == branches_from(s@, j as int, seq![first]),
                        branches_from(s@, k as int, branches_view(branches@)) == target,
                    ensures
                        i < k <= s@.len(),
                        target == (branches_view(branches@), k as int),
                    decreases s@.len() - k,
                {
                    if k < s.len() && s[k] == ',' {
                        match glob_at_exec(s, k + 1, true) {
                            Some((b, q)) => if k < q && q <= s.len() {
                                proof {
                                    lemma_branches_view_push(branches@, b);
                                }
                                branches.push(b);
                                k = q;
                            } else {
                                break ;
                            },
                            None => {
                                break ;
                            },
                        }
                    } else {
                        break ;
                    }
                }
                if k < s.len() && s[k] == '}' {
                    Some((Token::Alternative(Alternative(branches)), k + 1))
                } else {
                    None
                }
            } else {
                None
            },
            None => None,
        }
    } else {
        None
    }
}

fn glob_at_exec(s: &Vec<char>, i: usize, nested: bool) -> (r: Option<(Vec<Token>, usize)>)
    requires
        i <= s@.len(),
    ensures
        match (r, glob_at(s@, i as int, nested)) {
            (Some((ts, j)), Some((us, k))) => tokens_view(ts@) == us && j == k && j <= s@.len(),
            (None, None) => true,
            _ => false,
        },
    decreases s@.len() - i, 5int,
{
    match token_at_exec(s, i, nested) {
        Some((t, j)) => if i < j && j <= s.len() {
            let mut tokens: Vec<Token> = Vec::new();
            let ghost first = token_view(t);
            proof {
                lemma_tokens_view_push(Seq::empty(), t);
            }
            tokens.push(t);
            proof {
                assert(tokens@ =~= Seq::<Token>::empty().push(t));
                assert(tokens_view(tokens@) =~= seq![first]);
            }
            let mut k = j;
            let ghost target = tokens_from(s@, j as int, seq![first], nested);
            loop
                invariant
                    i < k <= s@.len(),
                    target == tokens_from(s@, j as int, seq![first], nested),
                    tokens_from(s@, k as int, tokens_view(tokens@), nested) == target,
                ensures
                    i < k <= s@.len(),
                    target == (tokens_view(tokens@), k as int),
                decreases s@.len() - k,
            {
                match token_at_exec(s, k, nested) {
                    Some((u, q)) => if k < q && q <= s.len() {
                        proof {
                            lemma_tokens_view_push(tokens@, u);
                        }
                        tokens.push(u);
                        k = q;
                    } else {
                        break ;
                    },
                    None => {
                        break ;
                    },
                }
            }
            Some((tokens, k))
        } else {
            None
        },
        None => None,
    }
}

} // verus!

verus! {

/// The tokens of a glob text.
pub fn parse_tokens(text: &str) -> (r: Option<Vec<Token>>)
    ensures
        match r {
            Some(ts) => parse_spec(text@) == Some(tokens_view(ts@)),
            None => parse_spec(text@).is_none(),
        },
{
    let s = crate::text::chars_of(text);
    match glob_at_exec(&s, 0, false) {
        Some((tokens, j)) => if j == s.len() {
            Some(tokens)
        } else {
            None
        },
        None => None,
    }
}

// ---------------------------------------------------------------------------
// Normalization of token sequences.
// ---------------------------------------------------------------------------

/// One normalizing pass over a token sequence. Each pass merges a token into
/// the token before it (the result of earlier merges) when the two are
/// mergeable.
#[derive(Clone, Copy, Debug, PartialEq, Eq, Structural)]
pub enum Pass {
    /// Adjacent tree wildcards become one.
    DedupTree,
    /// Adjacent eager zero-or-more wildcards become one.
    DedupEager,
    /// Adjacent lazy zero-or-more wildcards become one.
    DedupLazy,
    /// Adjacent zero-or-more wildcards, one of them eager, become one eager
    /// wildcard.
    MergeZeroOrMore,
    /// Adjacent literals become one literal with the concatenated text.
    JoinLiterals,
}

pub open spec fn is_zom(t: TokenSpec) -> bool {
    t matches TokenSpec::Wildcard(Wildcard::ZeroOrMore(_))
}

pub open spec fn mergeable(p: Pass, a: TokenSpec, b: TokenSpec) -> bool {
    match p {
        Pass::DedupTree => a == TokenSpec::Wildcard(Wildcard::Tree) && b == TokenSpec::Wildcard(
            Wildcard::Tree,
        ),
        Pass::DedupEager => a == TokenSpec::Wildcard(Wildcard::ZeroOrMore(Evaluation::Eager)) && b
            == TokenSpec::Wildcard(Wildcard::ZeroOrMore(Evaluation::Eager)),
        Pass::DedupLazy => a == TokenSpec::Wildcard(Wildcard::ZeroOrMore(Evaluation::Lazy)) && b
            == TokenSpec::Wildcard(Wildcard::ZeroOrMore(Evaluation::Lazy)),
        Pass::MergeZeroOrMore => is_zom(a) && is_zom(b) && (a == TokenSpec::Wildcard(
            Wildcard::ZeroOrMore(Evaluation::Eager),
        ) || b == TokenSpec::Wildcard(Wildcard::ZeroOrMore(Evaluation::Eager))),
        Pass::JoinLiterals => a is Literal && b is Literal,
    }
}

pub open spec fn merged(p: Pass, a: TokenSpec, b: TokenSpec) -> TokenSpec {
    match p {
        Pass::MergeZeroOrMore => TokenSpec::Wildcard(Wildcard::ZeroOrMore(Evaluation::Eager)),
        Pass::JoinLiterals => match (a, b) {
            (TokenSpec::Literal(x), TokenSpec::Literal(y)) => TokenSpec::Literal(x + y),
            _ => a,
        },
        _ => a,
    }
}

/// Adds `t` after the tokens `acc`, merging it into the last of them when the
/// pass allows.
pub open spec fn pass_step(p: Pass, acc: Seq<TokenSpec>, t: TokenSpec) -> Seq<TokenSpec> {
    if acc.len() > 0 && mergeable(p, acc.last(), t) {
        acc.drop_last().push(merged(p, acc.last(), t))
    } else {
        acc.push(t)
    }
}

/// The result of one pass over a whole token sequence, from left to right.
pub open spec fn pass_spec(p: Pass, ts: Seq<TokenSpec>) -> Seq<TokenSpec>
    decreases ts.len(),
{
    if ts.len() == 0 {
        Seq::empty()
    } else {
        pass_step(p, pass_spec(p, ts.drop_last()), ts.last())
    }
}

/// `true` for a literal token with empty text.
pub open spec fn is_empty_literal(t: TokenSpec) -> bool {
    t matches TokenSpec::Literal(text) && text.len() == 0
}

/// The tokens other than empty literals, in order.
pub open spec fn drop_empty_spec(ts: Seq<TokenSpec>) -> Seq<TokenSpec>
    decreases ts.len(),
{
    if ts.len() == 0 {
        Seq::empty()
    } else if is_empty_literal(ts.last()) {
        drop_empty_spec(ts.drop_last())
    } else {
        drop_empty_spec(ts.drop_last()).push(ts.last())
    }
}

/// Normalized tokens: adjacent tree wildcards and adjacent zero-or-more
/// wildcards merged, empty literals removed, and adjacent literals joined.
pub open spec fn optimize_spec(ts: Seq<TokenSpec>) -> Seq<TokenSpec> {
    pass_spec(
        Pass::JoinLiterals,
        drop_empty_spec(
            pass_spec(
                Pass::MergeZeroOrMore,
                pass_spec(
                    Pass::DedupLazy,
                    pass_spec(Pass::DedupEager, pass_spec(Pass::DedupTree, ts)),
                ),
            ),
        ),
    )
}

fn is_eager(t: &Token) -> (r: bool)
    ensures
        r == (token_view(*t) == TokenSpec::Wildcard(Wildcard::ZeroOrMore(Evaluation::Eager))),
{
    match t {
        Token::Wildcard(Wildcard::ZeroOrMore(Evaluation::Eager)) => true,
        _ => false,
    }
}

fn is_lazy(t: &Token) -> (r: bool)
    ensures
        r == (token_view(*t) == TokenSpec::Wildcard(Wildcard::ZeroOrMore(Evaluation::Lazy))),
{
    match t {
        Token::Wildcard(Wildcard::ZeroOrMore(Evaluation::Lazy)) => true,
        _ => false,
    }
}

fn is_tree(t: &Token) -> (r: bool)
    ensures
        r == (token_view(*t) == TokenSpec::Wildcard(Wildcard::Tree)),
{
    match t {
        Token::Wildcard(Wildcard::Tree) => true,
        _ => false,
    }
}

fn is_literal(t: &Token) -> (r: bool)
    ensures
        r == (token_view(*t) is Literal),
{
    match t {
        Token::Literal(_) => true,
        _ => false,
    }
}

fn mergeable_exec(p: Pass, a: &Token, b: &Token) -> (r: bool)
    ensures
        r == mergeable(p, token_view(*a), token_view(*b)),
{
    match p {
        Pass::DedupTree => is_tree(a) && is_tree(b),
        Pass::DedupEager => is_eager(a) && is_eager(b),
        Pass::DedupLazy => is_lazy(a) && is_lazy(b),
        Pass::MergeZeroOrMore => (is_eager(a) || is_lazy(a)) && (is_eager(b) || is_lazy(b)) && (
        is_eager(a) || is_eager(b)),
        Pass::JoinLiterals => is_literal(a) && is_literal(b),
    }
}

fn merge_exec(p: Pass, a: Token, b: Token) -> (r: Token)
    requires
        mergeable(p, token_view(a), token_view(b)),
    ensures
        token_view(r) == merged(p, token_view(a), token_view(b)),
{
    match p {
        Pass::MergeZeroOrMore => Token::Wildcard(Wildcard::ZeroOrMore(Evaluation::Eager)),
        Pass::JoinLiterals => match (a, b) {
            (Token::Literal(x), Token::Literal(y)) => {
                let mut text = x;
                crate::text::push_str(&mut text, y.as_str());
                Token::Literal(text)
            },
            (a, _) => a,
        },
        _ => a,
    }
}

fn pass_exec(p: Pass, ts: Vec<Token>) -> (r: Vec<Token>)
    ensures
        tokens_view(r@) == pass_spec(p, tokens_view(ts@)),
{
    let ghost input = ts@;
    proof {
        assert(input.len() == ts.len());
    }
    let mut rest = ts;
    let mut out: Vec<Token> = Vec::new();
    let mut i: usize = 0;
    proof {
        assert(input.take(0) =~= Seq::<Token>::empty());
    }
    while rest.len() > 0
        invariant
            i + rest@.len() == input.len(),
            input.len() <= usize::MAX,
            rest@ == input.skip(i as int),
            tokens_view(out@) == pass_spec(p, tokens_view(input.take(i as int))),
        decreases rest@.len(),
    {
        let t = rest.remove(0);
        proof {
            assert(input.take(i as int + 1).drop_last() =~= input.take(i as int));
            assert(input.take(i as int + 1).last() == t);
            lemma_tokens_view_last(input.take(i as int + 1));
        }
        let merge = match out.last() {
            Some(last) => mergeable_exec(p, last, &t),
            None => false,
        };
        if merge {
            let last = out.pop().unwrap();
            proof {
                lemma_tokens_view_push(out@, last);
            }
            let m = merge_exec(p, last, t);
            proof {
                lemma_tokens_view_push(out@, m);
            }
            out.push(m);
        } else {
            proof {
                lemma_tokens_view_push(out@, t);
            }
            out.push(t);
        }
        i = i + 1;
        proof {
            assert(rest@ =~= input.skip(i as int));
        }
    }
    proof {
        assert(input.take(i as int) =~= input);
    }
    out
}

proof fn lemma_tokens_view_last(ts: Seq<Token>)
    requires
        ts.len() > 0,
    ensures
        tokens_view(ts) == tokens_view(ts.drop_last()).push(token_view(ts.last())),
        tokens_view(ts).drop_last() == tokens_view(ts.drop_last()),
        tokens_view(ts).last() == token_view(ts.last()),
{
}

} // verus!

verus! {

fn drop_empty_exec(ts: Vec<Token>) -> (r: Vec<Token>)
    ensures
        tokens_view(r@) == drop_empty_spec(tokens_view(ts@)),
{
    let ghost input = ts@;
    proof {
        assert(input.len() == ts.len());
        assert(input.take(0) =~= Seq::<Token>::empty());
    }
    let mut rest = ts;
    let mut out: Vec<Token> = Vec::new();
    let mut i: usize = 0;
    while rest.len() > 0
        invariant
            i + rest@.len() == input.len(),
            input.len() <= usize::MAX,
            rest@ == input.skip(i as int),
            tokens_view(out@) == drop_empty_spec(tokens_view(input.take(i as int))),
        decreases rest@.len(),
    {
        let t = rest.remove(0);
        proof {
            assert(input.take(i as int + 1).drop_last() =~= input.take(i as int));
            assert(input.take(i as int + 1).last() == t);
            lemma_tokens_view_last(input.take(i as int + 1));
        }
        let empty = match &t {
            Token::Literal(text) => text.as_str().is_empty(),
            _ => false,
        };
        if !empty {
            proof {
                lemma_tokens_view_push(out@, t);
            }
            out.push(t);
        }
        i = i + 1;
        proof {
            assert(rest@ =~= input.skip(i as int));
        }
    }
    proof {
        assert(input.take(i as int) =~= input);
    }
    out
}

/// Normalizes a token sequence: adjacent tree wildcards become one; adjacent
/// zero-or-more wildcards become one (eager if either is eager); empty
/// literals are removed; adjacent literals are joined.
pub fn optimize(tokens: Vec<Token>) -> (r: Vec<Token>)
    ensures
        tokens_view(r@) == optimize_spec(tokens_view(tokens@)),
{
    let ts = pass_exec(Pass::DedupTree, tokens);
    let ts = pass_exec(Pass::DedupEager, ts);
    let ts = pass_exec(Pass::DedupLazy, ts);
    let ts = pass_exec(Pass::MergeZeroOrMore, ts);
    let ts = drop_empty_exec(ts);
    pass_exec(Pass::JoinLiterals, ts)
}

} // verus!

verus! {

/// The view of a token sequence has the views of its tokens, in order.
pub proof fn lemma_tokens_view(ts: Seq<Token>)
    ensures
        tokens_view(ts).len() == ts.len(),
        forall|i: int| 0 <= i < ts.len() ==> #[trigger] tokens_view(ts)[i] == token_view(ts[i]),
    decreases ts.len(),
{
    if ts.len() > 0 {
        lemma_tokens_view(ts.drop_last());
        assert forall|i: int| 0 <= i < ts.len() implies #[trigger] tokens_view(ts)[i] == token_view(ts[i]) by {
            if i < ts.len() - 1 {
                assert(ts.drop_last()[i] == ts[i]);
            }
        }
    }
}

/// The view of the branches of an alternative has the views of its branches,
/// in order.
pub proof fn lemma_branches_view(bs: Seq<Vec<Token>>)
    ensures
        branches_view(bs).len() == bs.len(),
        forall|i: int| 0 <= i < bs.len() ==> #[trigger] branches_view(bs)[i] == tokens_view(bs[i]@),
    decreases bs.len(),
{
    if bs.len() > 0 {
        lemma_branches_view(bs.drop_last());
        assert forall|i: int| 0 <= i < bs.len() implies #[trigger] branches_view(bs)[i] == tokens_view(bs[i]@) by {
            if i < bs.len() - 1 {
                assert(bs.drop_last()[i] == bs[i]);
            }
        }
    }
}

/// The view of an optional token.
pub open spec fn option_view(t: Option<&Token>) -> Option<TokenSpec> {
    match t {
        Some(t) => Some(token_view(*t)),
        None => None,
    }
}

impl Token {
    pub fn is_separator(&self) -> (r: bool)
        ensures
            r == (token_view(*self) == TokenSpec::Separator),
    {
        match self {
            Token::Separator => true,
            _ => false,
        }
    }

    pub fn is_tree(&self) -> (r: bool)
        ensures
            r == (token_view(*self) == TokenSpec::Wildcard(Wildcard::Tree)),
    {
        match self {
            Token::Wildcard(Wildcard::Tree) => true,
            _ => false,
        }
    }

    pub fn is_zero_or_more(&self) -> (r: bool)
        ensures
            r == (token_view(*self) matches TokenSpec::Wildcard(Wildcard::ZeroOrMore(_))),
    {
        match self {
            Token::Wildcard(Wildcard::ZeroOrMore(_)) => true,
            _ => false,
        }
    }

    /// `true` for separators and tree wildcards, which delimit components.
    pub fn is_component_boundary(&self) -> (r: bool)
        ensures
            r == (token_view(*self) == TokenSpec::Separator || token_view(*self) == TokenSpec::Wildcard(Wildcard::Tree)),
    {
        self.is_separator() || self.is_tree()
    }
}

} // verus!

verus! {

// ---------------------------------------------------------------------------
// Components: the parts of a token sequence between component boundaries.
// ---------------------------------------------------------------------------

/// Separators and tree wildcards delimit components.
pub open spec fn is_boundary_spec(t: TokenSpec) -> bool {
    t == TokenSpec::Separator || t == TokenSpec::Wildcard(Wildcard::Tree)
}

/// The first position from `k` that holds a component boundary, or the end.
pub open spec fn next_boundary(ts: Seq<TokenSpec>, k: int) -> int
    decreases ts.len() - k,
{
    if k < 0 || k >= ts.len() {
        if k < 0 { 0 } else { k }
    } else if is_boundary_spec(ts[k]) {
        k
    } else {
        next_boundary(ts, k + 1)
    }
}

/// The components of `ts` from position `i`, as ranges of positions:
/// separators are skipped, a tree wildcard is a component of its own, and
/// other tokens form components up to the next boundary.
pub open spec fn components_from(ts: Seq<TokenSpec>, i: int) -> Seq<(int, int)>
    decreases ts.len() - i,
{
    if i < 0 || i >= ts.len() {
        Seq::empty()
    } else if ts[i] == TokenSpec::Separator {
        components_from(ts, i + 1)
    } else if ts[i] == TokenSpec::Wildcard(Wildcard::Tree) {
        seq![(i, i + 1)] + components_from(ts, i + 1)
    } else {
        let j = next_boundary(ts, i + 1);
        if i < j <= ts.len() {
            seq![(i, j)] + components_from(ts, j)
        } else {
            Seq::empty()
        }
    }
}

/// The components of a token sequence.
pub open spec fn components_spec(ts: Seq<TokenSpec>) -> Seq<(int, int)> {
    components_from(ts, 0)
}

/// The text of the tokens from `a` to `b` when all of them are literals.
pub open spec fn literal_text(ts: Seq<TokenSpec>, a: int, b: int) -> Option<Seq<char>>
    decreases b - a,
{
    if a >= b {
        Some(Seq::empty())
    } else {
        match ts[b - 1] {
            TokenSpec::Literal(text) => match literal_text(ts, a, b - 1) {
                Some(before) => Some(before + text),
                None => None,
            },
            _ => None,
        }
    }
}

/// The texts of the leading components that consist of literals only, from
/// component `m` on.
pub open spec fn literal_components_from(ts: Seq<TokenSpec>, comps: Seq<(int, int)>, m: int) -> Seq<Seq<char>>
    decreases comps.len() - m,
{
    if m < 0 || m >= comps.len() {
        Seq::empty()
    } else {
        match literal_text(ts, comps[m].0, comps[m].1) {
            Some(text) => seq![text] + literal_components_from(ts, comps, m + 1),
            None => Seq::empty(),
        }
    }
}

/// Texts joined by `/`.
pub open spec fn joined(parts: Seq<Seq<char>>) -> Seq<char>
    decreases parts.len(),
{
    if parts.len() == 0 {
        Seq::empty()
    } else if parts.len() == 1 {
        parts[0]
    } else {
        joined(parts.drop_last()) + seq!['/'] + parts.last()
    }
}

/// The invariant path prefix of a token sequence: a leading root separator,
/// then the leading components that are literal, joined by separators; `None`
/// when that is empty.
pub open spec fn literal_path_prefix_spec(ts: Seq<TokenSpec>) -> Option<Seq<char>> {
    let root: Seq<char> = if ts.len() > 0 && ts[0] == TokenSpec::Separator {
        seq!['/']
    } else {
        Seq::empty()
    };
    let prefix = root + joined(literal_components_from(ts, components_spec(ts), 0));
    if prefix.len() == 0 {
        None
    } else {
        Some(prefix)
    }
}

/// The number of leading tokens that the invariant prefix of a glob takes:
/// up to a tree wildcard, or up to and including the last separator before
/// the first token that is neither a literal nor a separator, or all tokens.
pub open spec fn prefix_upper_bound_from(ts: Seq<TokenSpec>, n: int, index: int) -> int
    decreases ts.len() - n,
{
    if n < 0 || n >= ts.len() {
        ts.len() as int
    } else {
        match ts[n] {
            TokenSpec::Separator => prefix_upper_bound_from(ts, n + 1, n),
            TokenSpec::Literal(_) => prefix_upper_bound_from(ts, n + 1, index),
            TokenSpec::Wildcard(Wildcard::Tree) => n,
            _ => if index == 0 {
                index
            } else {
                index + 1
            },
        }
    }
}

pub open spec fn prefix_upper_bound(ts: Seq<TokenSpec>) -> int {
    prefix_upper_bound_from(ts, 0, 0)
}

/// Whether a token is or holds (within an alternative, at any depth) a
/// component boundary.
pub open spec fn has_component_boundary(t: TokenSpec) -> bool
    decreases t, 0int,
{
    match t {
        TokenSpec::Alternative(branches) => branches_have_boundary(branches, 0),
        t => is_boundary_spec(t),
    }
}

pub open spec fn tokens_have_boundary(ts: Seq<TokenSpec>, i: int) -> bool
    decreases ts, 1int, ts.len() - i,
{
    if i < 0 || i >= ts.len() {
        false
    } else {
        proof {
            assert(decreases_to!(ts => ts[i]));
        }
        has_component_boundary(ts[i]) || tokens_have_boundary(ts, i + 1)
    }
}

pub open spec fn branches_have_boundary(bs: Seq<Seq<TokenSpec>>, m: int) -> bool
    decreases bs, 1int, bs.len() - m,
{
    if m < 0 || m >= bs.len() {
        false
    } else {
        tokens_have_boundary(bs[m], 0) || branches_have_boundary(bs, m + 1)
    }
}

} // verus!

verus! {

fn next_boundary_exec(ts: &Vec<Token>, k: usize) -> (r: usize)
    requires
        k <= ts@.len(),
        tokens_view(ts@).len() == ts@.len(),
        forall|i: int| 0 <= i < ts@.len() ==> #[trigger] tokens_view(ts@)[i] == token_view(ts@[i]),
    ensures
        r as int == next_boundary(tokens_view(ts@), k as int),
        k <= r <= ts@.len(),
{
    let ghost tv = tokens_view(ts@);
    let mut j = k;
    while j < ts.len() && !ts[j].is_component_boundary()
        invariant
            k <= j <= ts@.len(),
            tv == tokens_view(ts@),
            tv.len() == ts@.len(),
            forall|i: int| 0 <= i < ts@.len() ==> #[trigger] tv[i] == token_view(ts@[i]),
            next_boundary(tv, j as int) == next_boundary(tv, k as int),
        decreases ts@.len() - j,
    {
        j = j + 1;
    }
    j
}

/// The components of a token sequence, as ranges of positions.
pub fn components(ts: &Vec<Token>) -> (r: Vec<(usize, usize)>)
    ensures
        r@.len() == components_spec(tokens_view(ts@)).len(),
        forall|m: int| 0 <= m < r@.len() ==> (#[trigger] r@[m]).0 as int == components_spec(tokens_view(ts@))[m].0
            && r@[m].1 as int == components_spec(tokens_view(ts@))[m].1 && r@[m].0 < r@[m].1 <= ts@.len(),
{
    let ghost tv = tokens_view(ts@);
    proof {
        lemma_tokens_view(ts@);
    }
    let n = ts.len();
    let mut out: Vec<(usize, usize)> = Vec::new();
    let mut i: usize = 0;
    let ghost whole = components_from(tv, 0);
    while i < n
        invariant
            i <= n,
            n == ts@.len(),
            tv == tokens_view(ts@),
            tv.len() == n,
            forall|k: int| 0 <= k < n ==> #[trigger] tv[k] == token_view(ts@[k]),
            whole == components_from(tv, 0),
            out@.len() + components_from(tv, i as int).len() == whole.len(),
            forall|m: int| 0 <= m < out@.len() ==> (#[trigger] out@[m]).0 as int == whole[m].0 && out@[m].1 as int == whole[m].1 && out@[m].0 < out@[m].1 <= n,
            forall|m: int| 0 <= m < components_from(tv, i as int).len() ==> #[trigger] components_from(tv, i as int)[m] == whole[out@.len() + m],
        decreases n - i,
    {
        if ts[i].is_separator() {
            i = i + 1;
        } else if ts[i].is_tree() {
            proof {
                assert(components_from(tv, i as int) == seq![(i as int, i as int + 1)] + components_from(tv, i as int + 1));
                assert(components_from(tv, i as int)[0] == (i as int, i as int + 1));
            }
            out.push((i, i + 1));
            proof {
                assert forall|m: int| 0 <= m < components_from(tv, i as int + 1).len() implies #[trigger] components_from(tv, i as int + 1)[m] == whole[out@.len() + m] by {
                    assert(components_from(tv, i as int)[m + 1] == components_from(tv, i as int + 1)[m]);
                }
            }
            i = i + 1;
        } else {
            let j = next_boundary_exec(ts, i + 1);
            proof {
                assert(components_from(tv, i as int) == seq![(i as int, j as int)] + components_from(tv, j as int));
                assert(components_from(tv, i as int)[0] == (i as int, j as int));
            }
            out.push((i, j));
            proof {
                assert forall|m: int| 0 <= m < components_from(tv, j as int).len() implies #[trigger] components_from(tv, j as int)[m] == whole[out@.len() + m] by {
                    assert(components_from(tv, i as int)[m + 1] == components_from(tv, j as int)[m]);
                }
            }
            i = j;
        }
    }
    out
}

} // verus!

verus! {

fn literal_text_exec(ts: &Vec<Token>, a: usize, b: usize) -> (r: Option<Vec<char>>)
    requires
        a <= b <= ts@.len(),
        tokens_view(ts@).len() == ts@.len(),
        forall|i: int| 0 <= i < ts@.len() ==> #[trigger] tokens_view(ts@)[i] == token_view(ts@[i]),
    ensures
        match r {
            Some(v) => literal_text(tokens_view(ts@), a as int, b as int) == Some(v@),
            None => literal_text(tokens_view(ts@), a as int, b as int).is_none(),
        },
{
    let ghost tv = tokens_view(ts@);
    let mut acc: Vec<char> = Vec::new();
    let mut k = a;
    proof {
        assert(literal_text(tv, a as int, a as int) == Some(Seq::<char>::empty()));
    }
    while k < b
        invariant
            a <= k <= b,
            b <= ts@.len(),
            tv == tokens_view(ts@),
            tv.len() == ts@.len(),
            forall|i: int| 0 <= i < ts@.len() ==> #[trigger] tv[i] == token_view(ts@[i]),
            literal_text(tv, a as int, k as int) == Some(acc@),
        decreases b - k,
    {
        match &ts[k] {
            Token::Literal(text) => {
                let cs = crate::text::chars_of(text.as_str());
                let mut q: usize = 0;
                let ghost before = acc@;
                while q < cs.len()
                    invariant
                        q <= cs@.len(),
                        acc@ == before + cs@.take(q as int),
                    decreases cs@.len() - q,
                {
                    acc.push(cs[q]);
                    proof {
                        assert(before + cs@.take(q as int + 1) =~= (before + cs@.take(q as int)).push(cs@[q as int]));
                    }
                    q = q + 1;
                }
                proof {
                    assert(cs@.take(cs@.len() as int) =~= cs@);
                }
            },
            _ => {
                proof {
                    assert(literal_text(tv, a as int, k as int + 1).is_none());
                    lemma_literal_text_none(tv, a as int, k as int + 1, b as int);
                }
                return None;
            },
        }
        k = k + 1;
    }
    Some(acc)
}

proof fn lemma_literal_text_none(ts: Seq<TokenSpec>, a: int, k: int, b: int)
    requires
        a <= k <= b,
        literal_text(ts, a, k).is_none(),
    ensures
        literal_text(ts, a, b).is_none(),
    decreases b - k,
{
    if k < b {
        lemma_literal_text_none(ts, a, k, b - 1);
    }
}

/// The invariant path prefix of a token sequence: a leading root separator,
/// then the leading components that are literal, joined by separators; `None`
/// when that is empty.
pub fn literal_path_prefix(ts: &Vec<Token>) -> (r: Option<String>)
    ensures
        match r {
            Some(s) => literal_path_prefix_spec(tokens_view(ts@)) == Some(s@),
            None => literal_path_prefix_spec(tokens_view(ts@)).is_none(),
        },
{
    let ghost tv = tokens_view(ts@);
    proof {
        lemma_tokens_view(ts@);
    }
    let comps = components(ts);
    let ghost cs = components_spec(tv);
    let mut out: Vec<char> = Vec::new();
    if ts.len() > 0 && ts[0].is_separator() {
        out.push('/');
    }
    let ghost root = out@;
    let ghost taken: Seq<Seq<char>> = Seq::empty();
    let mut m: usize = 0;
    let mut stop = false;
    while m < comps.len() && !stop
        invariant
            m <= comps@.len(),
            comps@.len() == cs.len(),
            cs == components_spec(tv),
            tv == tokens_view(ts@),
            tv.len() == ts@.len(),
            forall|i: int| 0 <= i < ts@.len() ==> #[trigger] tv[i] == token_view(ts@[i]),
            forall|k: int| 0 <= k < comps@.len() ==> (#[trigger] comps@[k]).0 as int == cs[k].0 && comps@[k].1 as int == cs[k].1 && comps@[k].0 < comps@[k].1 <= ts@.len(),
            taken.len() == m,
            stop ==> literal_components_from(tv, cs, 0) == taken,
            !stop ==> literal_components_from(tv, cs, 0) == taken + literal_components_from(tv, cs, m as int),
            out@ == root + joined(taken),
        decreases comps@.len() - m, if stop { 0int } else { 1int },
    {
        let (a, b) = comps[m];
        match literal_text_exec(ts, a, b) {
            Some(text) => {
                if m > 0 {
                    out.push('/');
                }
                let mut q: usize = 0;
                let ghost before = out@;
                while q < text.len()
                    invariant
                        q <= text@.len(),
                        out@ == before + text@.take(q as int),
                    decreases text@.len() - q,
                {
                    out.push(text[q]);
                    proof {
                        assert(before + text@.take(q as int + 1) =~= (before + text@.take(q as int)).push(text@[q as int]));
                    }
                    q = q + 1;
                }
                proof {
                    assert(text@.take(text@.len() as int) =~= text@);
                    let next = taken.push(text@);
                    assert(next.drop_last() =~= taken);
                    if m > 0 {
                        assert(out@ =~= root + joined(next));
                    } else {
                        assert(taken =~= Seq::<Seq<char>>::empty());
                        assert(out@ =~= root + joined(next));
                    }
                    assert(literal_components_from(tv, cs, m as int) == seq![text@] + literal_components_from(tv, cs, m as int + 1));
                    assert(taken + literal_components_from(tv, cs, m as int) =~= next + literal_components_from(tv, cs, m as int + 1));
                    taken = next;
                }
                m = m + 1;
            },
            None => {
                proof {
                    assert(literal_components_from(tv, cs, m as int) =~= Seq::<Seq<char>>::empty());
                    assert(taken + Seq::<Seq<char>>::empty() =~= taken);
                }
                stop = true;
            },
        }
    }
    proof {
        if !stop {
            assert(literal_components_from(tv, cs, m as int) =~= Seq::<Seq<char>>::empty());
            assert(taken + Seq::<Seq<char>>::empty() =~= taken);
        }
    }
    if out.len() == 0 {
        None
    } else {
        Some(crate::text::string_of(&out))
    }
}

/// The number of leading tokens that make up the invariant prefix of a glob.
pub fn prefix_upper_bound_exec(ts: &Vec<Token>) -> (r: usize)
    ensures
        r as int == prefix_upper_bound(tokens_view(ts@)),
        r <= ts@.len(),
{
    let ghost tv = tokens_view(ts@);
    proof {
        lemma_tokens_view(ts@);
    }
    let mut index: usize = 0;
    let mut n: usize = 0;
    while n < ts.len()
        invariant
            n <= ts@.len(),
            index <= n,
            tv == tokens_view(ts@),
            tv.len() == ts@.len(),
            forall|i: int| 0 <= i < ts@.len() ==> #[trigger] tv[i] == token_view(ts@[i]),
            prefix_upper_bound_from(tv, n as int, index as int) == prefix_upper_bound(tv),
        decreases ts@.len() - n,
    {
        match &ts[n] {
            Token::Separator => {
                index = n;
            },
            Token::Literal(_) => {},
            Token::Wildcard(Wildcard::Tree) => {
                return n;
            },
            _ => {
                return if index == 0 { index } else { index + 1 };
            },
        }
        n = n + 1;
    }
    ts.len()
}

impl Token {
    /// Whether this token is, or holds within an alternative at any depth, a
    /// component boundary.
    pub fn has_component_boundary(&self) -> (r: bool)
        ensures
            r == has_component_boundary(token_view(*self)),
        decreases *self, 0int, 0int,
    {
        match self {
            Token::Alternative(alternative) => alternative.has_component_boundary(),
            t => t.is_component_boundary(),
        }
    }
}

impl Alternative {
    /// The branches of the alternative.
    pub fn branches(&self) -> (r: &Vec<Vec<Token>>)
        ensures
            r == &self.0,
    {
        &self.0
    }

    /// Whether any branch holds a component boundary.
    pub fn has_component_boundary(&self) -> (r: bool)
        ensures
            r == branches_have_boundary(branches_view(self.0@), 0),
        decreases self.0@, 1int, 0int,
    {
        let bs = &self.0;
        let ghost bv = branches_view(bs@);
        proof {
            lemma_branches_view(bs@);
        }
        let mut m: usize = 0;
        while m < bs.len()
            invariant
                m <= bs@.len(),
                bs@ == self.0@,
                bv == branches_view(bs@),
                bv.len() == bs@.len(),
                forall|k: int| 0 <= k < bs@.len() ==> #[trigger] bv[k] == tokens_view(bs@[k]@),
                branches_have_boundary(bv, 0) == branches_have_boundary(bv, m as int),
            decreases bs@.len() - m,
        {
            proof {
                assert(decreases_to!(self.0@ => self.0@[m as int]));
                assert(decreases_to!(self.0@[m as int] => self.0@[m as int]@));
            }
            let found = tokens_have_boundary_exec(&bs[m]);
            proof {
                assert(branches_have_boundary(bv, m as int) == (tokens_have_boundary(bv[m as int], 0) || branches_have_boundary(bv, m + 1)));
            }
            if found {
                return true;
            }
            m = m + 1;
        }
        false
    }
}

pub(crate) fn tokens_have_boundary_exec(ts: &[Token]) -> (r: bool)
    ensures
        r == tokens_have_boundary(tokens_view(ts@), 0),
    decreases ts@, 1int, 1int,
{
    let ghost tv = tokens_view(ts@);
    proof {
        lemma_tokens_view(ts@);
    }
    let mut i: usize = 0;
    while i < ts.len()
        invariant
            i <= ts@.len(),
            tv == tokens_view(ts@),
            tv.len() == ts@.len(),
            forall|k: int| 0 <= k < ts@.len() ==> #[trigger] tv[k] == token_view(ts@[k]),
            tokens_have_boundary(tv, 0) == tokens_have_boundary(tv, i as int),
        decreases ts@.len() - i,
    {
        if ts[i].has_component_boundary() {
            return true;
        }
        i = i + 1;
    }
    false
}

} // verus!

verus! {

/// `true` when no literal is empty and no two literals are adjacent.
pub open spec fn literals_joined(ts: Seq<TokenSpec>) -> bool {
    &&& forall|i: int| 0 <= i < ts.len() ==> !is_empty_literal(#[trigger] ts[i])
    &&& forall|i: int| 0 < i < ts.len() ==> !(ts[i - 1] is Literal && #[trigger] ts[i] is Literal)
}

proof fn lemma_drop_empty_no_empty(ts: Seq<TokenSpec>)
    ensures
        forall|i: int| 0 <= i < drop_empty_spec(ts).len() ==> !is_empty_literal(#[trigger] drop_empty_spec(ts)[i]),
    decreases ts.len(),
{
    if ts.len() > 0 {
        let rest = ts.drop_last();
        lemma_drop_empty_no_empty(rest);
        let d = drop_empty_spec(rest);
        if !is_empty_literal(ts.last()) {
            let e = d.push(ts.last());
            assert forall|i: int| 0 <= i < e.len() implies !is_empty_literal(#[trigger] e[i]) by {
                if i < d.len() {
                    assert(e[i] == d[i]);
                }
            }
        }
    }
}

proof fn lemma_join_pass(ts: Seq<TokenSpec>)
    requires
        forall|i: int| 0 <= i < ts.len() ==> !is_empty_literal(#[trigger] ts[i]),
    ensures
        literals_joined(pass_spec(Pass::JoinLiterals, ts)),
    decreases ts.len(),
{
    if ts.len() > 0 {
        let rest = ts.drop_last();
        assert forall|i: int| 0 <= i < rest.len() implies !is_empty_literal(#[trigger] rest[i]) by {
            assert(rest[i] == ts[i]);
        }
        lemma_join_pass(rest);
        let acc = pass_spec(Pass::JoinLiterals, rest);
        let t = ts.last();
        assert(!is_empty_literal(ts[ts.len() - 1]));
        let r = pass_step(Pass::JoinLiterals, acc, t);
        if acc.len() > 0 && mergeable(Pass::JoinLiterals, acc.last(), t) {
            let m = merged(Pass::JoinLiterals, acc.last(), t);
            assert(!is_empty_literal(acc[acc.len() - 1]));
            assert(!is_empty_literal(m));
            assert(r == acc.drop_last().push(m));
            assert forall|i: int| 0 <= i < r.len() implies !is_empty_literal(#[trigger] r[i]) by {
                if i < r.len() - 1 {
                    assert(r[i] == acc[i]);
                }
            }
            assert forall|i: int| 0 < i < r.len() implies !(r[i - 1] is Literal && #[trigger] r[i] is Literal) by {
                if i < r.len() - 1 {
                    assert(r[i] == acc[i] && r[i - 1] == acc[i - 1]);
                } else {
                    assert(r[i - 1] == acc[i - 1]);
                    assert(!(acc[i - 1] is Literal && acc[i] is Literal));
                }
            }
        } else {
            assert(r == acc.push(t));
            assert forall|i: int| 0 <= i < r.len() implies !is_empty_literal(#[trigger] r[i]) by {
                if i < r.len() - 1 {
                    assert(r[i] == acc[i]);
                }
            }
            assert forall|i: int| 0 < i < r.len() implies !(r[i - 1] is Literal && #[trigger] r[i] is Literal) by {
                if i < r.len() - 1 {
                    assert(r[i] == acc[i] && r[i - 1] == acc[i - 1]);
                } else {
                    assert(r[i - 1] == acc.last());
                }
            }
        }
    }
}

/// Normalized tokens hold no empty literal and no two adjacent literals.
pub proof fn lemma_optimize_joins_literals(ts: Seq<TokenSpec>)
    ensures
        literals_joined(optimize_spec(ts)),
{
    let before = pass_spec(
        Pass::MergeZeroOrMore,
        pass_spec(Pass::DedupLazy, pass_spec(Pass::DedupEager, pass_spec(Pass::DedupTree, ts))),
    );
    lemma_drop_empty_no_empty(before);
    lemma_join_pass(drop_empty_spec(before));
}

/// `true` when no two adjacent tokens both satisfy `q`.
pub open spec fn no_adjacent(ts: Seq<TokenSpec>, q: spec_fn(TokenSpec) -> bool) -> bool {
    forall|i: int| 0 < i < ts.len() ==> !(q(ts[i - 1]) && #[trigger] q(ts[i]))
}

/// `true` for a tree wildcard.
pub open spec fn is_tree_wildcard(t: TokenSpec) -> bool {
    t == TokenSpec::Wildcard(Wildcard::Tree)
}

/// `true` for a lazy zero-or-more wildcard.
pub open spec fn is_lazy_wildcard(t: TokenSpec) -> bool {
    t == TokenSpec::Wildcard(Wildcard::ZeroOrMore(Evaluation::Lazy))
}

/// `true` when no two tree wildcards are adjacent and no two zero-or-more
/// wildcards are adjacent.
pub open spec fn wildcards_merged(ts: Seq<TokenSpec>) -> bool {
    &&& no_adjacent(ts, |t: TokenSpec| is_tree_wildcard(t))
    &&& no_adjacent(ts, |t: TokenSpec| is_zom(t))
}

/// A pass leaves no two adjacent tokens that satisfy `q`, given that the
/// tokens that satisfy `q` and that the pass leaves unmerged side by side
/// satisfy `apart`, which the input never holds twice in a row and the pass
/// does not create. The last output token satisfies `apart` only where the
/// last input token does.
proof fn lemma_pass_separates(
    p: Pass,
    q: spec_fn(TokenSpec) -> bool,
    apart: spec_fn(TokenSpec) -> bool,
    ts: Seq<TokenSpec>,
)
    requires
        no_adjacent(ts, apart),
        forall|a: TokenSpec, b: TokenSpec| #[trigger] mergeable(p, a, b) && apart(merged(p, a, b)) ==> apart(a) && apart(b),
        forall|a: TokenSpec, b: TokenSpec| #[trigger] mergeable(p, a, b) && q(merged(p, a, b)) ==> q(a),
        forall|a: TokenSpec, b: TokenSpec| q(a) && q(b) && !#[trigger] mergeable(p, a, b) ==> apart(a) && apart(b),
    ensures
        no_adjacent(pass_spec(p, ts), q),
        no_adjacent(pass_spec(p, ts), apart),
        pass_spec(p, ts).len() > 0 ==> ts.len() > 0,
        pass_spec(p, ts).len() > 0 && apart(pass_spec(p, ts).last()) ==> apart(ts.last()),
    decreases ts.len(),
{
    if ts.len() > 0 {
        let rest = ts.drop_last();
        assert forall|i: int| 0 < i < rest.len() implies !(apart(rest[i - 1]) && #[trigger] apart(rest[i])) by {
            assert(rest[i] == ts[i] && rest[i - 1] == ts[i - 1]);
        }
        lemma_pass_separates(p, q, apart, rest);
        let acc = pass_spec(p, rest);
        let t = ts.last();
        let r = pass_spec(p, ts);
        assert(r == pass_step(p, acc, t));
        let n = acc.len();
        if n > 0 && mergeable(p, acc.last(), t) {
            let m = merged(p, acc.last(), t);
            assert(r == acc.drop_last().push(m));
            assert forall|i: int| 0 < i < r.len() implies !(q(r[i - 1]) && #[trigger] q(r[i])) by {
                assert(r[i - 1] == acc[i - 1]);
                if i < r.len() - 1 {
                    assert(r[i] == acc[i]);
                } else {
                    assert(q(acc[i - 1]) ==> !q(acc[i]));
                }
            }
            assert forall|i: int| 0 < i < r.len() implies !(apart(r[i - 1]) && #[trigger] apart(r[i])) by {
                assert(r[i - 1] == acc[i - 1]);
                if i < r.len() - 1 {
                    assert(r[i] == acc[i]);
                } else {
                    assert(apart(acc[i - 1]) ==> !apart(acc[i]));
                }
            }
        } else {
            assert(r == acc.push(t));
            assert forall|i: int| 0 < i < r.len() implies !(q(r[i - 1]) && #[trigger] q(r[i])) by {
                assert(r[i - 1] == acc[i - 1]);
                if i < r.len() - 1 {
                    assert(r[i] == acc[i]);
                } else if q(acc.last()) && q(t) {
                    assert(apart(acc.last()) && apart(t));
                    assert(apart(rest.last()));
                    assert(rest.last() == ts[ts.len() - 2]);
                    assert(apart(ts[ts.len() - 1]));
                }
            }
            assert forall|i: int| 0 < i < r.len() implies !(apart(r[i - 1]) && #[trigger] apart(r[i])) by {
                assert(r[i - 1] == acc[i - 1]);
                if i < r.len() - 1 {
                    assert(r[i] == acc[i]);
                } else if apart(acc.last()) && apart(t) {
                    assert(apart(rest.last()));
                    assert(rest.last() == ts[ts.len() - 2]);
                    assert(apart(ts[ts.len() - 1]));
                }
            }
        }
    }
}

/// A pass keeps a property that every token holds, when merging two tokens
/// that hold it gives a token that holds it.
proof fn lemma_pass_keeps(p: Pass, q: spec_fn(TokenSpec) -> bool, ts: Seq<TokenSpec>)
    requires
        forall|i: int| 0 <= i < ts.len() ==> #[trigger] q(ts[i]),
        forall|a: TokenSpec, b: TokenSpec| #[trigger] mergeable(p, a, b) && q(a) && q(b) ==> q(merged(p, a, b)),
    ensures
        forall|i: int| 0 <= i < pass_spec(p, ts).len() ==> #[trigger] q(pass_spec(p, ts)[i]),
    decreases ts.len(),
{
    if ts.len() > 0 {
        let rest = ts.drop_last();
        assert forall|i: int| 0 <= i < rest.len() implies #[trigger] q(rest[i]) by {
            assert(rest[i] == ts[i]);
        }
        lemma_pass_keeps(p, q, rest);
        let acc = pass_spec(p, rest);
        let t = ts.last();
        assert(q(ts[ts.len() - 1]));
        let r = pass_spec(p, ts);
        if acc.len() > 0 && mergeable(p, acc.last(), t) {
            assert(q(acc[acc.len() - 1]));
            assert(r == acc.drop_last().push(merged(p, acc.last(), t)));
            assert forall|i: int| 0 <= i < r.len() implies #[trigger] q(r[i]) by {
                if i < r.len() - 1 {
                    assert(r[i] == acc[i]);
                }
            }
        } else {
            assert(r == acc.push(t));
            assert forall|i: int| 0 <= i < r.len() implies #[trigger] q(r[i]) by {
                if i < r.len() - 1 {
                    assert(r[i] == acc[i]);
                }
            }
        }
    }
}

proof fn lemma_drop_empty_none_empty(ts: Seq<TokenSpec>)
    requires
        forall|i: int| 0 <= i < ts.len() ==> !is_empty_literal(#[trigger] ts[i]),
    ensures
        drop_empty_spec(ts) == ts,
    decreases ts.len(),
{
    if ts.len() > 0 {
        let rest = ts.drop_last();
        assert forall|i: int| 0 <= i < rest.len() implies !is_empty_literal(#[trigger] rest[i]) by {
            assert(rest[i] == ts[i]);
        }
        lemma_drop_empty_none_empty(rest);
        assert(!is_empty_literal(ts[ts.len() - 1]));
        assert(rest.push(ts.last()) =~= ts);
    }
}

proof fn lemma_token_at_not_empty_literal(s: Seq<char>, i: int, nested: bool)
    ensures
        token_at(s, i, nested) matches Some((t, _)) ==> !is_empty_literal(t),
{
}

proof fn lemma_tokens_from_not_empty_literal(s: Seq<char>, j: int, acc: Seq<TokenSpec>, nested: bool)
    requires
        forall|i: int| 0 <= i < acc.len() ==> !is_empty_literal(#[trigger] acc[i]),
    ensures
        forall|i: int| 0 <= i < tokens_from(s, j, acc, nested).0.len() ==> !is_empty_literal(
            #[trigger] tokens_from(s, j, acc, nested).0[i],
        ),
    decreases s.len() - j,
{
    lemma_token_at_not_empty_literal(s, j, nested);
    match token_at(s, j, nested) {
        Some((t, k)) => {
            if j < k <= s.len() {
                let next = acc.push(t);
                assert forall|i: int| 0 <= i < next.len() implies !is_empty_literal(#[trigger] next[i]) by {
                    if i < acc.len() {
                        assert(next[i] == acc[i]);
                    }
                }
                lemma_tokens_from_not_empty_literal(s, k, next, nested);
                assert(tokens_from(s, j, acc, nested) == tokens_from(s, k, next, nested));
            } else {
                assert(tokens_from(s, j, acc, nested) == (acc, j));
            }
        },
        None => {
            assert(tokens_from(s, j, acc, nested) == (acc, j));
        },
    }
}

/// The tokens of a parsed glob hold no empty literal.
pub proof fn lemma_parsed_not_empty_literal(s: Seq<char>)
    ensures
        parse_spec(s) matches Some(ts) ==> forall|i: int| 0 <= i < ts.len() ==> !is_empty_literal(#[trigger] ts[i]),
{
    lemma_token_at_not_empty_literal(s, 0, false);
    if let Some((t, j)) = token_at(s, 0, false) {
        if 0 < j <= s.len() {
            let first = seq![t];
            assert forall|i: int| 0 <= i < first.len() implies !is_empty_literal(#[trigger] first[i]) by {
                assert(first[i] == t);
            }
            lemma_tokens_from_not_empty_literal(s, j, first, false);
            assert(glob_at(s, 0, false) == Some(tokens_from(s, j, first, false)));
        }
    }
}

/// The zero-or-more wildcard that a run of them becomes: eager when the run
/// holds an eager one, else lazy.
pub open spec fn run_wildcard(ts: Seq<TokenSpec>) -> TokenSpec {
    if ts.contains(TokenSpec::Wildcard(Wildcard::ZeroOrMore(Evaluation::Eager))) {
        TokenSpec::Wildcard(Wildcard::ZeroOrMore(Evaluation::Eager))
    } else {
        TokenSpec::Wildcard(Wildcard::ZeroOrMore(Evaluation::Lazy))
    }
}

/// A pass leaves tokens as they are when no two adjacent tokens are
/// mergeable.
proof fn lemma_pass_unmerged(p: Pass, ts: Seq<TokenSpec>)
    requires
        forall|i: int| 0 < i < ts.len() ==> !mergeable(p, ts[i - 1], #[trigger] ts[i]),
    ensures
        pass_spec(p, ts) == ts,
    decreases ts.len(),
{
    if ts.len() > 0 {
        let rest = ts.drop_last();
        assert forall|i: int| 0 < i < rest.len() implies !mergeable(p, rest[i - 1], #[trigger] rest[i]) by {
            assert(rest[i] == ts[i] && rest[i - 1] == ts[i - 1]);
        }
        lemma_pass_unmerged(p, rest);
        if rest.len() > 0 {
            assert(rest.last() == ts[ts.len() - 2]);
            assert(!mergeable(p, ts[ts.len() - 2], ts[ts.len() - 1]));
        }
        assert(rest.push(ts.last()) =~= ts);
    }
}

/// A pass that only merges equal tokens into the first of them keeps which
/// tokens occur.
proof fn lemma_dedup_keeps_tokens(p: Pass, ts: Seq<TokenSpec>)
    requires
        forall|a: TokenSpec, b: TokenSpec| #[trigger] mergeable(p, a, b) ==> a == b && merged(p, a, b) == a,
    ensures
        forall|x: TokenSpec| #[trigger] pass_spec(p, ts).contains(x) == ts.contains(x),
        ts.len() > 0 ==> pass_spec(p, ts).len() > 0,
    decreases ts.len(),
{
    if ts.len() > 0 {
        let rest = ts.drop_last();
        lemma_dedup_keeps_tokens(p, rest);
        let acc = pass_spec(p, rest);
        let t = ts.last();
        let r = pass_spec(p, ts);
        assert(ts =~= rest.push(t));
        if acc.len() > 0 && mergeable(p, acc.last(), t) {
            assert(r =~= acc);
            assert(acc.contains(t)) by {
                assert(acc[acc.len() - 1] == t);
            }
            assert forall|x: TokenSpec| #[trigger] r.contains(x) == ts.contains(x) by {
                if ts.contains(x) {
                    let j = choose|j: int| 0 <= j < ts.len() && ts[j] == x;
                    if j < rest.len() {
                        assert(rest[j] == x);
                        assert(rest.contains(x));
                    }
                }
                if rest.contains(x) {
                    let j = choose|j: int| 0 <= j < rest.len() && rest[j] == x;
                    assert(ts[j] == x);
                }
            }
        } else {
            assert(r =~= acc.push(t));
            assert forall|x: TokenSpec| #[trigger] r.contains(x) == ts.contains(x) by {
                if ts.contains(x) {
                    let j = choose|j: int| 0 <= j < ts.len() && ts[j] == x;
                    if j < rest.len() {
                        assert(rest[j] == x);
                        assert(acc.contains(x));
                        let k = choose|k: int| 0 <= k < acc.len() && acc[k] == x;
                        assert(r[k] == x);
                    } else {
                        assert(r[r.len() - 1] == x);
                    }
                }
                if r.contains(x) {
                    let k = choose|k: int| 0 <= k < r.len() && r[k] == x;
                    if k < acc.len() {
                        assert(acc[k] == x);
                        assert(acc.contains(x));
                        assert(rest.contains(x));
                        let j = choose|j: int| 0 <= j < rest.len() && rest[j] == x;
                        assert(ts[j] == x);
                    } else {
                        assert(ts[ts.len() - 1] == x);
                    }
                }
            }
        }
    }
}

/// Merging a run of zero-or-more wildcards, no two lazy ones adjacent, gives
/// one wildcard: eager when the run holds an eager one.
proof fn lemma_merge_run(ts: Seq<TokenSpec>)
    requires
        ts.len() > 0,
        forall|i: int| 0 <= i < ts.len() ==> is_zom(#[trigger] ts[i]),
        no_adjacent(ts, |t: TokenSpec| is_lazy_wildcard(t)),
    ensures
        pass_spec(Pass::MergeZeroOrMore, ts) == seq![run_wildcard(ts)],
    decreases ts.len(),
{
    let eager = TokenSpec::Wildcard(Wildcard::ZeroOrMore(Evaluation::Eager));
    let lazy = TokenSpec::Wildcard(Wildcard::ZeroOrMore(Evaluation::Lazy));
    let rest = ts.drop_last();
    let t = ts.last();
    assert(is_zom(ts[ts.len() - 1]));
    assert(t == eager || t == lazy);
    if rest.len() == 0 {
        assert(ts =~= seq![t]);
        if t == eager {
            assert(ts[0] == eager);
        } else {
            assert(!ts.contains(eager));
        }
        assert(pass_spec(Pass::MergeZeroOrMore, rest) =~= Seq::<TokenSpec>::empty());
    } else {
        assert forall|i: int| 0 <= i < rest.len() implies is_zom(#[trigger] rest[i]) by {
            assert(rest[i] == ts[i]);
        }
        assert forall|i: int| 0 < i < rest.len() implies !(is_lazy_wildcard(rest[i - 1])
            && #[trigger] is_lazy_wildcard(rest[i])) by {
            assert(rest[i] == ts[i] && rest[i - 1] == ts[i - 1]);
            assert(!((|t: TokenSpec| is_lazy_wildcard(t))(ts[i - 1]) && (|t: TokenSpec| is_lazy_wildcard(t))(ts[i])));
        }
        lemma_merge_run(rest);
        let x = run_wildcard(rest);
        assert(x == eager || t == eager) by {
            if x != eager && t != eager {
                assert(!rest.contains(eager));
                assert forall|j: int| 0 <= j < rest.len() implies rest[j] == lazy by {
                    assert(is_zom(rest[j]));
                }
                assert(rest[rest.len() - 1] == lazy);
                assert(rest[rest.len() - 1] == ts[ts.len() - 2]);
                let n = ts.len() - 1;
                assert(!((|t: TokenSpec| is_lazy_wildcard(t))(ts[n - 1]) && (|t: TokenSpec| is_lazy_wildcard(t))(ts[n])));
            }
        }
        assert(ts.contains(eager)) by {
            if x == eager {
                let j = choose|j: int| 0 <= j < rest.len() && rest[j] == eager;
                assert(ts[j] == eager);
            } else {
                assert(ts[ts.len() - 1] == eager);
            }
        }
        assert(mergeable(Pass::MergeZeroOrMore, x, t));
    }
}

/// Normalization turns a run of zero-or-more wildcards into one wildcard,
/// eager when the run holds an eager one and lazy otherwise.
pub proof fn lemma_optimize_merges_zero_or_more_run(ts: Seq<TokenSpec>)
    requires
        ts.len() > 0,
        forall|i: int| 0 <= i < ts.len() ==> is_zom(#[trigger] ts[i]),
    ensures
        optimize_spec(ts) == seq![run_wildcard(ts)],
{
    let eager = TokenSpec::Wildcard(Wildcard::ZeroOrMore(Evaluation::Eager));
    let lazy = |t: TokenSpec| is_lazy_wildcard(t);
    let never = |t: TokenSpec| false;
    lemma_pass_unmerged(Pass::DedupTree, ts);
    let t2 = pass_spec(Pass::DedupEager, ts);
    lemma_dedup_keeps_tokens(Pass::DedupEager, ts);
    let t3 = pass_spec(Pass::DedupLazy, t2);
    lemma_dedup_keeps_tokens(Pass::DedupLazy, t2);
    assert forall|i: int| 0 <= i < t3.len() implies is_zom(#[trigger] t3[i]) by {
        assert(t3.contains(t3[i]));
        assert(ts.contains(t3[i]));
    }
    lemma_pass_separates(Pass::DedupLazy, lazy, never, t2);
    lemma_merge_run(t3);
    assert(t3.contains(eager) == ts.contains(eager));
    let t4 = pass_spec(Pass::MergeZeroOrMore, t3);
    assert(t4 == seq![run_wildcard(ts)]);
    lemma_drop_empty_none_empty(t4);
    lemma_pass_unmerged(Pass::JoinLiterals, t4);
}

/// Normalization turns a run of tree wildcards into one tree wildcard.
pub proof fn lemma_optimize_merges_tree_run(ts: Seq<TokenSpec>)
    requires
        ts.len() > 0,
        forall|i: int| 0 <= i < ts.len() ==> is_tree_wildcard(#[trigger] ts[i]),
    ensures
        optimize_spec(ts) == seq![TokenSpec::Wildcard(Wildcard::Tree)],
{
    let tree = TokenSpec::Wildcard(Wildcard::Tree);
    lemma_dedup_keeps_tokens(Pass::DedupTree, ts);
    let t1 = pass_spec(Pass::DedupTree, ts);
    lemma_pass_separates(Pass::DedupTree, |t: TokenSpec| is_tree_wildcard(t), |t: TokenSpec| false, ts);
    assert forall|i: int| 0 <= i < t1.len() implies #[trigger] t1[i] == tree by {
        assert(t1.contains(t1[i]));
        assert(ts.contains(t1[i]));
    }
    if t1.len() > 1 {
        assert(!((|t: TokenSpec| is_tree_wildcard(t))(t1[0]) && (|t: TokenSpec| is_tree_wildcard(t))(t1[1])));
    }
    assert(t1 =~= seq![tree]);
    lemma_pass_unmerged(Pass::DedupEager, t1);
    lemma_pass_unmerged(Pass::DedupLazy, t1);
    lemma_pass_unmerged(Pass::MergeZeroOrMore, t1);
    lemma_drop_empty_none_empty(t1);
    lemma_pass_unmerged(Pass::JoinLiterals, t1);
}

/// The texts of literal tokens, concatenated in order.
pub open spec fn literals_text(ts: Seq<TokenSpec>) -> Seq<char>
    decreases ts.len(),
{
    if ts.len() == 0 {
        Seq::empty()
    } else {
        literals_text(ts.drop_last()) + match ts.last() {
            TokenSpec::Literal(text) => text,
            _ => Seq::empty(),
        }
    }
}

proof fn lemma_join_run(ts: Seq<TokenSpec>)
    requires
        ts.len() > 0,
        forall|i: int| 0 <= i < ts.len() ==> #[trigger] ts[i] is Literal,
    ensures
        pass_spec(Pass::JoinLiterals, ts) == seq![TokenSpec::Literal(literals_text(ts))],
    decreases ts.len(),
{
    let rest = ts.drop_last();
    assert(ts[ts.len() - 1] is Literal);
    if rest.len() == 0 {
        assert(pass_spec(Pass::JoinLiterals, rest) =~= Seq::<TokenSpec>::empty());
        assert(literals_text(rest) =~= Seq::<char>::empty());
        assert(literals_text(ts) =~= ts.last()->Literal_0);
    } else {
        assert forall|i: int| 0 <= i < rest.len() implies #[trigger] rest[i] is Literal by {
            assert(rest[i] == ts[i]);
        }
        lemma_join_run(rest);
    }
}

/// Normalization turns a run of non-empty literals into one literal whose
/// text is their texts concatenated.
pub proof fn lemma_optimize_joins_literal_run(ts: Seq<TokenSpec>)
    requires
        ts.len() > 0,
        forall|i: int| 0 <= i < ts.len() ==> #[trigger] ts[i] is Literal,
        forall|i: int| 0 <= i < ts.len() ==> !is_empty_literal(#[trigger] ts[i]),
    ensures
        optimize_spec(ts) == seq![TokenSpec::Literal(literals_text(ts))],
{
    lemma_pass_unmerged(Pass::DedupTree, ts);
    lemma_pass_unmerged(Pass::DedupEager, ts);
    lemma_pass_unmerged(Pass::DedupLazy, ts);
    lemma_pass_unmerged(Pass::MergeZeroOrMore, ts);
    lemma_drop_empty_none_empty(ts);
    lemma_join_run(ts);
}

/// Normalization merges runs of wildcards: in the normalized tokens no two
/// tree wildcards are adjacent and no two zero-or-more wildcards are
/// adjacent, for tokens without empty literals (such as those of a parsed
/// glob).
pub proof fn lemma_optimize_merges_wildcards(ts: Seq<TokenSpec>)
    requires
        forall|i: int| 0 <= i < ts.len() ==> !is_empty_literal(#[trigger] ts[i]),
    ensures
        wildcards_merged(optimize_spec(ts)),
{
    let tree = |t: TokenSpec| is_tree_wildcard(t);
    let zom = |t: TokenSpec| is_zom(t);
    let lazy = |t: TokenSpec| is_lazy_wildcard(t);
    let never = |t: TokenSpec| false;
    let filled = |t: TokenSpec| !is_empty_literal(t);
    let t1 = pass_spec(Pass::DedupTree, ts);
    let t2 = pass_spec(Pass::DedupEager, t1);
    let t3 = pass_spec(Pass::DedupLazy, t2);
    let t4 = pass_spec(Pass::MergeZeroOrMore, t3);
    assert forall|i: int| 0 <= i < ts.len() implies #[trigger] filled(ts[i]) by {}
    lemma_pass_keeps(Pass::DedupTree, filled, ts);
    lemma_pass_keeps(Pass::DedupEager, filled, t1);
    lemma_pass_keeps(Pass::DedupLazy, filled, t2);
    lemma_pass_keeps(Pass::MergeZeroOrMore, filled, t3);
    assert forall|i: int| 0 <= i < t4.len() implies !is_empty_literal(#[trigger] t4[i]) by {
        assert(filled(t4[i]));
    }
    lemma_drop_empty_none_empty(t4);
    lemma_pass_separates(Pass::DedupTree, tree, never, ts);
    lemma_pass_separates(Pass::DedupEager, tree, tree, t1);
    lemma_pass_separates(Pass::DedupLazy, tree, tree, t2);
    lemma_pass_separates(Pass::MergeZeroOrMore, tree, tree, t3);
    lemma_pass_separates(Pass::JoinLiterals, tree, tree, t4);
    lemma_pass_separates(Pass::DedupLazy, lazy, never, t2);
    lemma_pass_separates(Pass::MergeZeroOrMore, zom, lazy, t3);
    lemma_pass_separates(Pass::JoinLiterals, zom, zom, t4);
}

} // verus!

verus! {

proof fn lemma_literal_run(s: Seq<char>, i: int)
    requires
        0 <= i <= s.len(),
    ensures
        i <= literal_run_end(s, i) <= s.len(),
        forall|k: int| i <= k < literal_run_end(s, i) ==> !is_glob_meta(#[trigger] s[k]),
    decreases s.len() - i,
{
    if i < s.len() && !is_glob_meta(s[i]) {
        lemma_literal_run(s, i + 1);
    }
}

proof fn lemma_literal_text_no_back_slash(s: Seq<char>, start: int, i: int, acc: Seq<char>)
    requires
        !acc.contains('\\'),
    ensures
        literal_text_from(s, start, i, acc) matches Some((t, _)) ==> !t.contains('\\'),
    decreases s.len() - i,
{
    if 0 <= i < s.len() {
        match literal_run_at(s, i) {
            Some((text, j)) => {
                lemma_literal_run(s, i);
                assert(!text.contains('\\')) by {
                    if text.contains('\\') {
                        let k = choose|k: int| 0 <= k < text.len() && text[k] == '\\';
                        assert(s[i + k] == '\\');
                    }
                }
                assert(!(acc + text).contains('\\')) by {
                    if (acc + text).contains('\\') {
                        let k = choose|k: int| 0 <= k < (acc + text).len() && (acc + text)[k] == '\\';
                        if k < acc.len() {
                            assert(acc[k] == '\\');
                        } else {
                            assert(text[k - acc.len()] == '\\');
                        }
                    }
                }
                if j != s.len() && i < j < s.len() {
                    lemma_literal_text_no_back_slash(s, start, j, acc + text);
                }
            },
            None => {
                if s[i] == '\\' && i + 1 < s.len() && is_literal_escapable(s[i + 1]) {
                    let next = acc.push(s[i + 1]);
                    assert(!next.contains('\\')) by {
                        if next.contains('\\') {
                            let k = choose|k: int| 0 <= k < next.len() && next[k] == '\\';
                            if k < acc.len() {
                                assert(acc[k] == '\\');
                            }
                        }
                    }
                    if i + 2 != s.len() {
                        lemma_literal_text_no_back_slash(s, start, i + 2, next);
                    }
                }
            },
        }
    }
}

/// Back slashes only escape metacharacters: no literal token of a glob holds
/// a back slash.
pub proof fn lemma_literal_has_no_back_slash(s: Seq<char>, i: int)
    ensures
        literal_at(s, i) matches Some((TokenSpec::Literal(t), _)) ==> !t.contains('\\'),
{
    assert(!Seq::<char>::empty().contains('\\'));
    lemma_literal_text_no_back_slash(s, i, i, Seq::empty());
}

} // verus!
