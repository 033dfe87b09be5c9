//! The grammar of to-patterns.
//!
//! A to-pattern is a non-empty sequence of tokens: literal text, capture
//! substitutions `{...}` and property substitutions `{!...}`.
//!
//! Every parser below takes the text `s` and a position `i` and either fails
//! (`None`) or yields its output and the position after the text it consumed.
//! Alternatives are tried in order and the first that succeeds is taken.

use vstd::prelude::*;

use crate::pattern::to::token::{
    Capture, Condition, ConditionView, DateTimeFormat, DigestFormat, EmptyCase, Identifier,
    IdentifierView, NonEmptyCase, NonEmptyCaseView, Property, PropertyView, Subject, SubjectView,
    Substitution, TextFormatter, TextFormatterView, Token, TokenView, default_date_time_format, formatters_view, tokens_view,
};
use crate::text::Alignment;

verus! {

/// Where escaped text stands: literal text between substitutions, or an
/// argument between square brackets.
#[derive(Clone, Copy, PartialEq, Eq, Structural)]
pub enum Context {
    Literal,
    Argument,
}

/// Characters that stand for themselves in escaped text of the context.
pub open spec fn is_plain(ctx: Context, c: char) -> bool {
    c != '\\' && match ctx {
        Context::Literal => c != '{' && c != '}',
        Context::Argument => c != '[' && c != ']',
    }
}

/// Characters that may follow a back slash in escaped text.
pub open spec fn is_escapable(c: char) -> bool {
    c == '[' || c == ']' || c == '{' || c == '}' || c == '\\'
}

/// Escaped text from `start`, where `k` is the current position and `acc`
/// holds the text read so far.
pub open spec fn escaped_from(ctx: Context, s: Seq<char>, start: int, k: int, acc: Seq<char>) -> Option<(Seq<char>, int)>
    decreases s.len() - k,
{
    if k < 0 || k >= s.len() {
        Some((acc, k))
    } else if is_plain(ctx, s[k]) {
        escaped_from(ctx, s, start, k + 1, acc.push(s[k]))
    } else if s[k] == '\\' {
        if k + 1 >= s.len() {
            None
        } else if is_escapable(s[k + 1]) {
            escaped_from(ctx, s, start, k + 2, acc.push(s[k + 1]))
        } else {
            None
        }
    } else if k == start {
        None
    } else {
        Some((acc, k))
    }
}

/// Non-empty escaped text.
pub open spec fn escaped_at(ctx: Context, s: Seq<char>, i: int) -> Option<(Seq<char>, int)> {
    match escaped_from(ctx, s, i, i, Seq::empty()) {
        Some((t, j)) => if t.len() > 0 {
            Some((t, j))
        } else {
            None
        },
        None => None,
    }
}

/// `true` when `c` is at `i`.
pub open spec fn char_at(s: Seq<char>, i: int, c: char) -> bool {
    0 <= i < s.len() && s[i] == c
}

/// An argument: escaped text, possibly empty, between square brackets.
pub open spec fn argument_at(s: Seq<char>, i: int) -> Option<(Seq<char>, int)> {
    if char_at(s, i, '[') {
        let (t, j) = match escaped_at(Context::Argument, s, i + 1) {
            Some((t, j)) => (t, j),
            None => (Seq::empty(), i + 1),
        };
        if char_at(s, j, ']') {
            Some((t, j + 1))
        } else {
            None
        }
    } else {
        None
    }
}

/// `true` when `c` is an ASCII decimal digit.
pub open spec fn is_digit(c: char) -> bool {
    '0' <= c <= '9'
}

/// The end of the run of decimal digits that begins at `i`.
pub open spec fn digits_end(s: Seq<char>, i: int) -> int
    decreases s.len() - i,
{
    if 0 <= i < s.len() && is_digit(s[i]) {
        digits_end(s, i + 1)
    } else {
        i
    }
}

/// The value of a run of decimal digits.
pub open spec fn decimal(d: Seq<char>) -> nat
    decreases d.len(),
{
    if d.len() == 0 {
        0
    } else {
        decimal(d.drop_last()) * 10 + (d.last() as nat - '0' as nat) as nat
    }
}

/// A non-empty run of decimal digits whose value fits in `usize`.
pub open spec fn number_at(s: Seq<char>, i: int) -> Option<(usize, int)> {
    let e = digits_end(s, i);
    if e > i && decimal(s.subrange(i, e)) <= usize::MAX {
        Some((decimal(s.subrange(i, e)) as usize, e))
    } else {
        None
    }
}

/// The end of the run of spaces and tabs that begins at `i`.
pub open spec fn spaces_end(s: Seq<char>, i: int) -> int
    decreases s.len() - i,
{
    if 0 <= i < s.len() && (s[i] == ' ' || s[i] == '\t') {
        spaces_end(s, i + 1)
    } else {
        i
    }
}

/// The identifier of a capture: `#` and an index, `@` and a name in an
/// argument, or otherwise (after optional spaces) the whole match.
pub open spec fn identifier_at(s: Seq<char>, i: int) -> (IdentifierView, int) {
    if char_at(s, i, '#') && number_at(s, i + 1) is Some {
        let (v, j) = number_at(s, i + 1)->0;
        (IdentifierView::Index(v), j)
    } else if char_at(s, i, '@') && argument_at(s, i + 1) is Some {
        let (t, j) = argument_at(s, i + 1)->0;
        (IdentifierView::Name(t), j)
    } else {
        (IdentifierView::Index(0), spaces_end(s, i))
    }
}

/// The case of a condition for non-empty text: two arguments separated by a
/// comma (a prefix and a postfix) or one argument (a literal).
pub open spec fn non_empty_at(s: Seq<char>, i: int) -> Option<(NonEmptyCaseView, int)> {
    match argument_at(s, i) {
        Some((p, j)) => if char_at(s, j, ',') && argument_at(s, j + 1) is Some {
            let (q, k) = argument_at(s, j + 1)->0;
            Some((NonEmptyCaseView::Surround(p, q), k))
        } else {
            Some((NonEmptyCaseView::Literal(p), j))
        },
        None => None,
    }
}

/// A condition: `?`, an optional non-empty case, `:` and an optional empty
/// case.
pub open spec fn condition_at(s: Seq<char>, i: int) -> Option<(ConditionView, int)> {
    if char_at(s, i, '?') {
        let (ne, j) = match non_empty_at(s, i + 1) {
            Some((n, j)) => (Some(n), j),
            None => (None, i + 1),
        };
        if char_at(s, j, ':') {
            let (e, k) = match argument_at(s, j + 1) {
                Some((t, k)) => (Some(t), k),
                None => (None, j + 1),
            };
            Some((ConditionView { non_empty: ne, empty: e }, k))
        } else {
            None
        }
    } else {
        None
    }
}

/// A single character between square brackets, where `[`, `]` and `\` are
/// escaped with a back slash.
pub open spec fn shim_at(s: Seq<char>, i: int) -> Option<(char, int)> {
    if char_at(s, i, '[') && i + 1 < s.len() {
        let c = s[i + 1];
        if c != '[' && c != ']' && c != '\\' {
            if char_at(s, i + 2, ']') {
                Some((c, i + 3))
            } else {
                None
            }
        } else if c == '\\' && i + 2 < s.len() && (s[i + 2] == '[' || s[i + 2] == ']' || s[i + 2]
            == '\\') {
            if char_at(s, i + 3, ']') {
                Some((s[i + 2], i + 4))
            } else {
                None
            }
        } else {
            None
        }
    } else {
        None
    }
}

/// `true` when `c` is the ASCII letter `lower` in either case.
pub open spec fn letter_matches(c: char, lower: char) -> bool {
    c == lower || ('a' <= lower <= 'z' && c as int == lower as int - 32)
}

/// `true` when the word `w` (ASCII lower case letters and digits) begins at
/// `i`, with letters in either case.
pub open spec fn word_at(s: Seq<char>, i: int, w: Seq<char>) -> bool {
    0 <= i && i + w.len() <= s.len() && forall|k: int|
        0 <= k < w.len() ==> #[trigger] letter_matches(s[i + k], w[k])
}

/// The alignment character of a pad formatter.
pub open spec fn alignment_of(c: char) -> Option<Alignment> {
    if c == '<' {
        Some(Alignment::Left)
    } else if c == '^' {
        Some(Alignment::Center)
    } else if c == '>' {
        Some(Alignment::Right)
    } else {
        None
    }
}

/// One text formatter.
pub open spec fn formatter_at(s: Seq<char>, i: int) -> Option<(TextFormatterView, int)> {
    if char_at(s, i, '%') {
        match argument_at(s, i + 1) {
            Some((from, j)) => match shim_at(s, j) {
                Some((to, k)) => Some((TextFormatterView::Coalesce(from, to), k)),
                None => None,
            },
            None => None,
        }
    } else if 0 <= i < s.len() && alignment_of(s[i]) is Some {
        match number_at(s, i + 1) {
            Some((width, j)) => match shim_at(s, j) {
                Some((shim, k)) => Some((TextFormatterView::Pad(shim, alignment_of(s[i])->0, width), k)),
                None => None,
            },
            None => None,
        }
    } else if word_at(s, i, seq!['l', 'o', 'w', 'e', 'r']) {
        Some((TextFormatterView::Lower, i + 5))
    } else if word_at(s, i, seq!['t', 'i', 't', 'l', 'e']) {
        Some((TextFormatterView::Title, i + 5))
    } else if word_at(s, i, seq!['u', 'p', 'p', 'e', 'r']) {
        Some((TextFormatterView::Upper, i + 5))
    } else if word_at(s, i, seq!['l']) {
        Some((TextFormatterView::Lower, i + 1))
    } else if word_at(s, i, seq!['u']) {
        Some((TextFormatterView::Upper, i + 1))
    } else {
        None
    }
}

/// Further formatters, each after a comma, from `j`, where `acc` holds those
/// read so far.
pub open spec fn more_formatters(s: Seq<char>, j: int, acc: Seq<TextFormatterView>) -> (Seq<TextFormatterView>, int)
    decreases s.len() - j,
{
    if char_at(s, j, ',') {
        match formatter_at(s, j + 1) {
            Some((f, k)) => if j < k <= s.len() {
                more_formatters(s, k, acc.push(f))
            } else {
                (acc, j)
            },
            None => (acc, j),
        }
    } else {
        (acc, j)
    }
}

/// The formatters of a substitution: `|` and a comma-separated list, possibly
/// empty; or none at all.
pub open spec fn formatters_at(s: Seq<char>, i: int) -> (Seq<TextFormatterView>, int) {
    if char_at(s, i, '|') {
        match formatter_at(s, i + 1) {
            Some((f, j)) => more_formatters(s, j, seq![f]),
            None => (Seq::empty(), i + 1),
        }
    } else {
        (Seq::empty(), i)
    }
}

/// A capture substitution: `{`, an identifier, an optional condition,
/// formatters and `}`.
pub open spec fn capture_at(s: Seq<char>, i: int) -> Option<(TokenView, int)> {
    if char_at(s, i, '{') {
        let (id, j) = identifier_at(s, i + 1);
        let (cond, k) = match condition_at(s, j) {
            Some((c, k)) => (Some(c), k),
            None => (None, j),
        };
        let (fs, m) = formatters_at(s, k);
        if char_at(s, m, '}') {
            Some((TokenView::Substitution(SubjectView::Capture(id, cond), fs), m + 1))
        } else {
            None
        }
    } else {
        None
    }
}

/// The format of a time property: `:` and an argument, or the default.
pub open spec fn time_format_at(s: Seq<char>, i: int) -> (Seq<char>, int) {
    if char_at(s, i, ':') && argument_at(s, i + 1) is Some {
        argument_at(s, i + 1)->0
    } else {
        (default_date_time_format(), i)
    }
}

/// The name of a property and its format.
pub open spec fn property_name_at(s: Seq<char>, i: int) -> Option<(PropertyView, int)> {
    if word_at(s, i, seq!['b', '3', 's', 'u', 'm']) {
        Some((PropertyView::B3Sum, i + 5))
    } else if word_at(s, i, seq!['c', 't', 'i', 'm', 'e']) {
        let (f, j) = time_format_at(s, i + 5);
        Some((PropertyView::CTime(f), j))
    } else if word_at(s, i, seq!['m', 'd', '5', 's', 'u', 'm']) {
        Some((PropertyView::Md5Sum, i + 6))
    } else if word_at(s, i, seq!['m', 't', 'i', 'm', 'e']) {
        let (f, j) = time_format_at(s, i + 5);
        Some((PropertyView::MTime(f), j))
    } else {
        None
    }
}

/// The name by which a property is written in a pattern.
pub open spec fn property_keyword(p: PropertyView) -> Seq<char> {
    match p {
        PropertyView::B3Sum => seq!['b', '3', 's', 'u', 'm'],
        PropertyView::CTime(_) => seq!['c', 't', 'i', 'm', 'e'],
        PropertyView::Md5Sum => seq!['m', 'd', '5', 's', 'u', 'm'],
        PropertyView::MTime(_) => seq!['m', 't', 'i', 'm', 'e'],
    }
}

proof fn lemma_property_name_words(s: Seq<char>, i: int)
    ensures
        property_name_at(s, i) matches Some((p, _)) ==> word_at(s, i, property_keyword(p)),
        property_name_at(s, i) matches Some((PropertyView::B3Sum, j)) ==> j == i + 5,
        property_name_at(s, i) matches Some((PropertyView::Md5Sum, j)) ==> j == i + 6,
        word_at(s, i, property_keyword(PropertyView::B3Sum)) ==> property_name_at(s, i) == Some(
            (PropertyView::B3Sum, i + 5),
        ),
        word_at(s, i, property_keyword(PropertyView::Md5Sum)) ==> property_name_at(s, i) == Some(
            (PropertyView::Md5Sum, i + 6),
        ),
        word_at(s, i, property_keyword(PropertyView::CTime(Seq::empty()))) ==> property_name_at(
            s,
            i,
        ) matches Some((PropertyView::CTime(_), _)),
        word_at(s, i, property_keyword(PropertyView::MTime(Seq::empty()))) ==> property_name_at(
            s,
            i,
        ) matches Some((PropertyView::MTime(_), _)),
{
    let b3sum = seq!['b', '3', 's', 'u', 'm'];
    let ctime = seq!['c', 't', 'i', 'm', 'e'];
    let md5sum = seq!['m', 'd', '5', 's', 'u', 'm'];
    let mtime = seq!['m', 't', 'i', 'm', 'e'];
    if word_at(s, i, b3sum) {
        assert(letter_matches(s[i + 0], b3sum[0]));
    }
    if word_at(s, i, ctime) {
        assert(letter_matches(s[i + 0], ctime[0]));
    }
    if word_at(s, i, md5sum) {
        assert(letter_matches(s[i + 0], md5sum[0]));
        assert(letter_matches(s[i + 1], md5sum[1]));
    }
    if word_at(s, i, mtime) {
        assert(letter_matches(s[i + 0], mtime[0]));
        assert(letter_matches(s[i + 1], mtime[1]));
    }
}

/// Each property name reads as its own property: the property read at `i` is
/// the one whose name is written there (in either case), and where a
/// property's name is written, that property is read; a digest property ends
/// with its name. A property substitution `{!name...}` holds the property of
/// that name.
pub proof fn lemma_property_names(s: Seq<char>, i: int)
    ensures
        property_name_at(s, i) matches Some((p, _)) ==> word_at(s, i, property_keyword(p)),
        property_name_at(s, i) matches Some((PropertyView::B3Sum, j)) ==> j == i + 5,
        property_name_at(s, i) matches Some((PropertyView::Md5Sum, j)) ==> j == i + 6,
        word_at(s, i, property_keyword(PropertyView::B3Sum)) ==> property_name_at(s, i) == Some(
            (PropertyView::B3Sum, i + 5),
        ),
        word_at(s, i, property_keyword(PropertyView::Md5Sum)) ==> property_name_at(s, i) == Some(
            (PropertyView::Md5Sum, i + 6),
        ),
        word_at(s, i, property_keyword(PropertyView::CTime(Seq::empty()))) ==> property_name_at(
            s,
            i,
        ) matches Some((PropertyView::CTime(_), _)),
        word_at(s, i, property_keyword(PropertyView::MTime(Seq::empty()))) ==> property_name_at(
            s,
            i,
        ) matches Some((PropertyView::MTime(_), _)),
        property_at(s, i) matches Some((TokenView::Substitution(SubjectView::Property(p), _), _))
            ==> word_at(s, i + 2, property_keyword(p)),
{
    lemma_property_name_words(s, i);
    lemma_property_name_words(s, i + 2);
}

/// A property substitution: `{!`, a property, formatters and `}`.
pub open spec fn property_at(s: Seq<char>, i: int) -> Option<(TokenView, int)> {
    if char_at(s, i, '{') && char_at(s, i + 1, '!') {
        match property_name_at(s, i + 2) {
            Some((p, j)) => {
                let (fs, m) = formatters_at(s, j);
                if char_at(s, m, '}') {
                    Some((TokenView::Substitution(SubjectView::Property(p), fs), m + 1))
                } else {
                    None
                }
            },
            None => None,
        }
    } else {
        None
    }
}

/// One token: literal text, a capture or a property.
pub open spec fn token_at(s: Seq<char>, i: int) -> Option<(TokenView, int)> {
    match escaped_at(Context::Literal, s, i) {
        Some((t, j)) => Some((TokenView::Literal(t), j)),
        None => match capture_at(s, i) {
            Some(r) => Some(r),
            None => property_at(s, i),
        },
    }
}

/// The tokens from `i` to the end of the text, where `acc` holds those read
/// so far; `None` where some text is not a token.
pub open spec fn tokens_from(s: Seq<char>, i: int, acc: Seq<TokenView>) -> Option<Seq<TokenView>>
    decreases s.len() - i,
{
    if i < 0 || i >= s.len() {
        Some(acc)
    } else {
        match token_at(s, i) {
            Some((t, j)) => if i < j <= s.len() {
                tokens_from(s, j, acc.push(t))
            } else {
                None
            },
            None => None,
        }
    }
}

/// The tokens of a to-pattern: `None` where the text is empty or is not a
/// sequence of tokens.
pub open spec fn parse_spec(s: Seq<char>) -> Option<Seq<TokenView>> {
    if s.len() == 0 {
        None
    } else {
        tokens_from(s, 0, Seq::empty())
    }
}

} // verus!

verus! {

/// An `exec` result `r` of text agrees with the grammar's result `g`.
pub open spec fn text_agrees(r: Option<(Vec<char>, usize)>, g: Option<(Seq<char>, int)>) -> bool {
    match (r, g) {
        (Some((t, j)), Some((u, k))) => t@ == u && j as int == k,
        (None, None) => true,
        _ => false,
    }
}

fn is_plain_exec(ctx: Context, c: char) -> (r: bool)
    ensures
        r == is_plain(ctx, c),
{
    c != '\\' && match ctx {
        Context::Literal => c != '{' && c != '}',
        Context::Argument => c != '[' && c != ']',
    }
}

pub(crate) fn char_at_exec(s: &Vec<char>, i: usize, c: char) -> (r: bool)
    ensures
        r == char_at(s@, i as int, c),
{
    i < s.len() && s[i] == c
}

fn escaped_at_exec(ctx: Context, s: &Vec<char>, start: usize) -> (r: Option<(Vec<char>, usize)>)
    requires
        start <= s@.len(),
    ensures
        text_agrees(r, escaped_at(ctx, s@, start as int)),
        r matches Some((_, j)) ==> start < j <= s@.len(),
{
    let n = s.len();
    let mut k = start;
    let mut acc: Vec<char> = Vec::new();
    let ghost target = escaped_from(ctx, s@, start as int, start as int, Seq::empty());
    loop
        invariant
            start <= k <= n,
            n == s@.len(),
            target == escaped_from(ctx, s@, start as int, start as int, Seq::empty()),
            escaped_from(ctx, s@, start as int, k as int, acc@) == target,
            (acc@.len() == 0) == (k == start),
        ensures
            start <= k <= n,
            target == Some((acc@, k as int)),
            (acc@.len() == 0) == (k == start),
        decreases n - k,
    {
        if k >= n {
            break;
        }
        let c = s[k];
        if is_plain_exec(ctx, c) {
            acc.push(c);
            k = k + 1;
        } else if c == '\\' {
            if k + 1 >= n {
                return None;
            }
            let d = s[k + 1];
            if d == '[' || d == ']' || d == '{' || d == '}' || d == '\\' {
                acc.push(d);
                k = k + 2;
            } else {
                return None;
            }
        } else if k == start {
            return None;
        } else {
            break;
        }
    }
    if acc.len() > 0 {
        Some((acc, k))
    } else {
        None
    }
}

fn argument_at_exec(s: &Vec<char>, i: usize) -> (r: Option<(Vec<char>, usize)>)
    requires
        i <= s@.len(),
    ensures
        text_agrees(r, argument_at(s@, i as int)),
        r matches Some((_, j)) ==> i < j <= s@.len(),
{
    if !char_at_exec(s, i, '[') {
        return None;
    }
    let n = s.len();
    assert(i < n);
    let (t, j) = match escaped_at_exec(Context::Argument, s, i + 1) {
        Some((t, j)) => (t, j),
        None => (Vec::new(), i + 1),
    };
    if char_at_exec(s, j, ']') {
        assert(j < n);
        Some((t, j + 1))
    } else {
        None
    }
}

proof fn lemma_digits_end(s: Seq<char>, i: int)
    requires
        0 <= i <= s.len(),
    ensures
        i <= digits_end(s, i) <= s.len(),
        forall|k: int| i <= k < digits_end(s, i) ==> is_digit(#[trigger] s[k]),
    decreases s.len() - i,
{
    if i < s.len() && is_digit(s[i]) {
        lemma_digits_end(s, i + 1);
    }
}

proof fn lemma_decimal_prefix(d: Seq<char>, m: int)
    requires
        0 <= m <= d.len(),
        forall|k: int| 0 <= k < d.len() ==> is_digit(#[trigger] d[k]),
    ensures
        decimal(d.take(m)) <= decimal(d),
    decreases d.len(),
{
    if m < d.len() {
        assert(d.drop_last().take(m) =~= d.take(m));
        lemma_decimal_prefix(d.drop_last(), m);
    } else {
        assert(d.take(m) =~= d);
    }
}

/// The value of `s[i..j + 1]` is too large once that of a prefix is.
proof fn lemma_number_overflow(s: Seq<char>, i: int, j: int)
    requires
        0 <= i <= j < s.len(),
        forall|k: int| i <= k <= j ==> is_digit(#[trigger] s[k]),
        decimal(s.subrange(i, j + 1)) > usize::MAX,
    ensures
        number_at(s, i) is None,
{
    let e = digits_end(s, i);
    lemma_digits_end(s, i);
    if e > j {
        let d = s.subrange(i, e);
        assert(d.take(j + 1 - i) =~= s.subrange(i, j + 1));
        lemma_decimal_prefix(d, j + 1 - i);
    } else {
        lemma_digits_end_covers(s, i, j);
    }
}

proof fn lemma_digits_end_covers(s: Seq<char>, i: int, j: int)
    requires
        0 <= i <= j < s.len(),
        forall|k: int| i <= k <= j ==> is_digit(#[trigger] s[k]),
    ensures
        digits_end(s, i) > j,
    decreases j - i,
{
    assert(is_digit(s[i]));
    if i < j {
        lemma_digits_end_covers(s, i + 1, j);
    } else {
        lemma_digits_end(s, i + 1);
    }
}

pub(crate) fn number_at_exec(s: &Vec<char>, i: usize) -> (r: Option<(usize, usize)>)
    requires
        i <= s@.len(),
    ensures
        match (r, number_at(s@, i as int)) {
            (Some((v, j)), Some((w, k))) => v == w && j as int == k,
            (None, None) => true,
            _ => false,
        },
        r matches Some((_, j)) ==> i < j <= s@.len(),
{
    let n = s.len();
    let mut j = i;
    let mut v: usize = 0;
    while j < n && '0' <= s[j] && s[j] <= '9'
        invariant
            i <= j <= n,
            n == s@.len(),
            digits_end(s@, j as int) == digits_end(s@, i as int),
            forall|k: int| i <= k < j ==> is_digit(#[trigger] s@[k]),
            v as nat == decimal(s@.subrange(i as int, j as int)),
        decreases n - j,
    {
        let c = s[j];
        let d: usize = (c as u32 - '0' as u32) as usize;
        proof {
            assert(s@.subrange(i as int, j as int + 1).drop_last() =~= s@.subrange(i as int, j as int));
        }
        match v.checked_mul(10) {
            Some(m) => match m.checked_add(d) {
                Some(w) => {
                    v = w;
                },
                None => {
                    proof {
                        lemma_number_overflow(s@, i as int, j as int);
                    }
                    return None;
                },
            },
            None => {
                proof {
                    lemma_number_overflow(s@, i as int, j as int);
                }
                return None;
            },
        }
        j = j + 1;
    }
    if j > i {
        Some((v, j))
    } else {
        None
    }
}

pub(crate) fn spaces_end_exec(s: &Vec<char>, i: usize) -> (r: usize)
    requires
        i <= s@.len(),
    ensures
        r as int == spaces_end(s@, i as int),
        i <= r <= s@.len(),
{
    let mut j = i;
    while j < s.len() && (s[j] == ' ' || s[j] == '\t')
        invariant
            i <= j <= s@.len(),
            spaces_end(s@, j as int) == spaces_end(s@, i as int),
        decreases s@.len() - j,
    {
        j = j + 1;
    }
    j
}

} // verus!

verus! {

fn identifier_at_exec(s: &Vec<char>, i: usize) -> (r: (Identifier, usize))
    requires
        i <= s@.len(),
    ensures
        r.0@ == identifier_at(s@, i as int).0,
        r.1 as int == identifier_at(s@, i as int).1,
        i <= r.1 <= s@.len(),
{
    let n = s.len();
    if char_at_exec(s, i, '#') {
        assert(i < n);
        if let Some((v, j)) = number_at_exec(s, i + 1) {
            return (Identifier::Index(v), j);
        }
    }
    if char_at_exec(s, i, '@') {
        assert(i < n);
        if let Some((t, j)) = argument_at_exec(s, i + 1) {
            let name = crate::text::string_of(&t);
            return (Identifier::Name(name), j);
        }
    }
    (Identifier::Index(0), spaces_end_exec(s, i))
}

fn non_empty_at_exec(s: &Vec<char>, i: usize) -> (r: Option<(NonEmptyCase, usize)>)
    requires
        i <= s@.len(),
    ensures
        match (r, non_empty_at(s@, i as int)) {
            (Some((c, j)), Some((d, k))) => c@ == d && j as int == k,
            (None, None) => true,
            _ => false,
        },
        r matches Some((_, j)) ==> i < j <= s@.len(),
{
    let n = s.len();
    match argument_at_exec(s, i) {
        Some((p, j)) => {
            if char_at_exec(s, j, ',') {
                assert(j < n);
                if let Some((q, k)) = argument_at_exec(s, j + 1) {
                    let prefix = crate::text::string_of(&p);
                    let postfix = crate::text::string_of(&q);
                    return Some((NonEmptyCase::Surround { prefix, postfix }, k));
                }
            }
            Some((NonEmptyCase::Literal(crate::text::string_of(&p)), j))
        },
        None => None,
    }
}

fn condition_at_exec(s: &Vec<char>, i: usize) -> (r: Option<(Condition, usize)>)
    requires
        i <= s@.len(),
    ensures
        match (r, condition_at(s@, i as int)) {
            (Some((c, j)), Some((d, k))) => c@ == d && j as int == k,
            (None, None) => true,
            _ => false,
        },
        r matches Some((_, j)) ==> i < j <= s@.len(),
{
    let n = s.len();
    if !char_at_exec(s, i, '?') {
        return None;
    }
    assert(i < n);
    let (non_empty, j) = match non_empty_at_exec(s, i + 1) {
        Some((c, j)) => (Some(c), j),
        None => (None, i + 1),
    };
    if !char_at_exec(s, j, ':') {
        return None;
    }
    assert(j < n);
    let (empty, k) = match argument_at_exec(s, j + 1) {
        Some((t, k)) => (Some(EmptyCase(crate::text::string_of(&t))), k),
        None => (None, j + 1),
    };
    Some((Condition { non_empty, empty }, k))
}

fn shim_at_exec(s: &Vec<char>, i: usize) -> (r: Option<(char, usize)>)
    requires
        i <= s@.len(),
    ensures
        match (r, shim_at(s@, i as int)) {
            (Some((c, j)), Some((d, k))) => c == d && j as int == k,
            (None, None) => true,
            _ => false,
        },
        r matches Some((_, j)) ==> i < j <= s@.len(),
{
    let n = s.len();
    if !(char_at_exec(s, i, '[') && i + 1 < n) {
        return None;
    }
    let c = s[i + 1];
    if c != '[' && c != ']' && c != '\\' {
        if char_at_exec(s, i + 2, ']') {
            Some((c, i + 3))
        } else {
            None
        }
    } else if c == '\\' && i + 2 < n && (s[i + 2] == '[' || s[i + 2] == ']' || s[i + 2] == '\\') {
        if char_at_exec(s, i + 3, ']') {
            Some((s[i + 2], i + 4))
        } else {
            None
        }
    } else {
        None
    }
}

fn letter_matches_exec(c: char, lower: char) -> (r: bool)
    ensures
        r == letter_matches(c, lower),
{
    c == lower || ('a' <= lower && lower <= 'z' && (c as u32) + 32 == lower as u32)
}

fn word_at_exec(s: &Vec<char>, i: usize, w: &[char]) -> (r: bool)
    ensures
        r == word_at(s@, i as int, w@),
{
    let n = s.len();
    if w.len() > n || i > n - w.len() {
        return false;
    }
    let mut k: usize = 0;
    while k < w.len()
        invariant
            i + w@.len() <= n,
            n == s@.len(),
            k <= w@.len(),
            forall|m: int| 0 <= m < k ==> #[trigger] letter_matches(s@[i + m], w@[m]),
        decreases w@.len() - k,
    {
        if !letter_matches_exec(s[i + k], w[k]) {
            assert(!letter_matches(s@[i + k as int], w@[k as int]));
            return false;
        }
        k = k + 1;
    }
    true
}

fn alignment_of_exec(c: char) -> (r: Option<Alignment>)
    ensures
        r == alignment_of(c),
{
    if c == '<' {
        Some(Alignment::Left)
    } else if c == '^' {
        Some(Alignment::Center)
    } else if c == '>' {
        Some(Alignment::Right)
    } else {
        None
    }
}

fn formatter_at_exec(s: &Vec<char>, i: usize) -> (r: Option<(TextFormatter, usize)>)
    requires
        i <= s@.len(),
    ensures
        match (r, formatter_at(s@, i as int)) {
            (Some((f, j)), Some((g, k))) => f@ == g && j as int == k,
            (None, None) => true,
            _ => false,
        },
        r matches Some((_, j)) ==> i < j <= s@.len(),
{
    let n = s.len();
    if char_at_exec(s, i, '%') {
        assert(i < n);
        return match argument_at_exec(s, i + 1) {
            Some((from, j)) => match shim_at_exec(s, j) {
                Some((to, k)) => Some((TextFormatter::Coalesce { from, to }, k)),
                None => None,
            },
            None => None,
        };
    }
    if i < n {
        if let Some(alignment) = alignment_of_exec(s[i]) {
            return match number_at_exec(s, i + 1) {
                Some((width, j)) => match shim_at_exec(s, j) {
                    Some((shim, k)) => Some((TextFormatter::Pad { shim, alignment, width }, k)),
                    None => None,
                },
                None => None,
            };
        }
    }
    let lower = ['l', 'o', 'w', 'e', 'r'];
    let title = ['t', 'i', 't', 'l', 'e'];
    let upper = ['u', 'p', 'p', 'e', 'r'];
    let l = ['l'];
    let u = ['u'];
    proof {
        assert(lower@ =~= seq!['l', 'o', 'w', 'e', 'r']);
        assert(title@ =~= seq!['t', 'i', 't', 'l', 'e']);
        assert(upper@ =~= seq!['u', 'p', 'p', 'e', 'r']);
        assert(l@ =~= seq!['l']);
        assert(u@ =~= seq!['u']);
    }
    if word_at_exec(s, i, &lower) {
        Some((TextFormatter::Lower, i + 5))
    } else if word_at_exec(s, i, &title) {
        Some((TextFormatter::Title, i + 5))
    } else if word_at_exec(s, i, &upper) {
        Some((TextFormatter::Upper, i + 5))
    } else if word_at_exec(s, i, &l) {
        Some((TextFormatter::Lower, i + 1))
    } else if word_at_exec(s, i, &u) {
        Some((TextFormatter::Upper, i + 1))
    } else {
        None
    }
}

proof fn lemma_formatters_view_push(fs: Seq<TextFormatter>, f: TextFormatter)
    ensures
        formatters_view(fs.push(f)) == formatters_view(fs).push(f@),
{
    assert(formatters_view(fs.push(f)) =~= formatters_view(fs).push(f@));
}

fn formatters_at_exec(s: &Vec<char>, i: usize) -> (r: (Vec<TextFormatter>, usize))
    requires
        i <= s@.len(),
    ensures
        formatters_view(r.0@) == formatters_at(s@, i as int).0,
        r.1 as int == formatters_at(s@, i as int).1,
        i <= r.1 <= s@.len(),
{
    let n = s.len();
    let mut fs: Vec<TextFormatter> = Vec::new();
    if !char_at_exec(s, i, '|') {
        return (fs, i);
    }
    assert(i < n);
    let mut j = match formatter_at_exec(s, i + 1) {
        Some((f, j)) => {
            proof {
                assert(formatters_view(seq![f]) =~= seq![f@]);
            }
            fs.push(f);
            proof {
                assert(fs@ =~= seq![f]);
            }
            j
        },
        None => {
            proof {
                assert(formatters_view(fs@) =~= Seq::empty());
            }
            return (fs, i + 1);
        },
    };
    let ghost target = formatters_at(s@, i as int);
    assert(more_formatters(s@, j as int, formatters_view(fs@)) == target);
    loop
        invariant
            i < j <= n,
            n == s@.len(),
            more_formatters(s@, j as int, formatters_view(fs@)) == target,
        ensures
            i < j <= n,
            target == (formatters_view(fs@), j as int),
        decreases n - j,
    {
        if !char_at_exec(s, j, ',') {
            break;
        }
        assert(j < n);
        match formatter_at_exec(s, j + 1) {
            Some((f, k)) => {
                proof {
                    lemma_formatters_view_push(fs@, f);
                }
                fs.push(f);
                j = k;
            },
            None => {
                break;
            },
        }
    }
    (fs, j)
}

} // verus!

verus! {

/// An `exec` token result `r` agrees with the grammar's result `g`.
pub open spec fn token_agrees(r: Option<(Token, usize)>, g: Option<(TokenView, int)>) -> bool {
    match (r, g) {
        (Some((t, j)), Some((u, k))) => t@ == u && j as int == k,
        (None, None) => true,
        _ => false,
    }
}

fn capture_at_exec(s: &Vec<char>, i: usize) -> (r: Option<(Token, usize)>)
    requires
        i <= s@.len(),
    ensures
        token_agrees(r, capture_at(s@, i as int)),
        r matches Some((_, j)) ==> i < j <= s@.len(),
{
    let n = s.len();
    if !char_at_exec(s, i, '{') {
        return None;
    }
    assert(i < n);
    let (identifier, j) = identifier_at_exec(s, i + 1);
    let (condition, k) = match condition_at_exec(s, j) {
        Some((c, k)) => (Some(c), k),
        None => (None, j),
    };
    let (formatters, m) = formatters_at_exec(s, k);
    if !char_at_exec(s, m, '}') {
        return None;
    }
    assert(m < n);
    let capture = Capture { identifier, condition };
    let token = Token::Substitution(Substitution { subject: Subject::Capture(capture), formatters });
    Some((token, m + 1))
}

fn time_format_at_exec(s: &Vec<char>, i: usize) -> (r: (DateTimeFormat, usize))
    requires
        i <= s@.len(),
    ensures
        r.0.fmt@ == time_format_at(s@, i as int).0,
        r.1 as int == time_format_at(s@, i as int).1,
        i <= r.1 <= s@.len(),
{
    let n = s.len();
    if char_at_exec(s, i, ':') {
        assert(i < n);
        if let Some((t, j)) = argument_at_exec(s, i + 1) {
            return (DateTimeFormat { fmt: crate::text::string_of(&t) }, j);
        }
    }
    (DateTimeFormat::default(), i)
}

fn property_name_at_exec(s: &Vec<char>, i: usize) -> (r: Option<(Property, usize)>)
    requires
        i <= s@.len(),
    ensures
        match (r, property_name_at(s@, i as int)) {
            (Some((p, j)), Some((q, k))) => p@ == q && j as int == k,
            (None, None) => true,
            _ => false,
        },
        r matches Some((_, j)) ==> i < j <= s@.len(),
{
    let n = s.len();
    let b3sum = ['b', '3', 's', 'u', 'm'];
    let ctime = ['c', 't', 'i', 'm', 'e'];
    let md5sum = ['m', 'd', '5', 's', 'u', 'm'];
    let mtime = ['m', 't', 'i', 'm', 'e'];
    proof {
        assert(b3sum@ =~= seq!['b', '3', 's', 'u', 'm']);
        assert(ctime@ =~= seq!['c', 't', 'i', 'm', 'e']);
        assert(md5sum@ =~= seq!['m', 'd', '5', 's', 'u', 'm']);
        assert(mtime@ =~= seq!['m', 't', 'i', 'm', 'e']);
    }
    if word_at_exec(s, i, &b3sum) {
        assert(i + 5 <= n);
        Some((Property::B3Sum(DigestFormat::default()), i + 5))
    } else if word_at_exec(s, i, &ctime) {
        assert(i + 5 <= n);
        let (f, j) = time_format_at_exec(s, i + 5);
        Some((Property::CTime(f), j))
    } else if word_at_exec(s, i, &md5sum) {
        assert(i + 6 <= n);
        Some((Property::Md5Sum(DigestFormat::default()), i + 6))
    } else if word_at_exec(s, i, &mtime) {
        assert(i + 5 <= n);
        let (f, j) = time_format_at_exec(s, i + 5);
        Some((Property::MTime(f), j))
    } else {
        None
    }
}

fn property_at_exec(s: &Vec<char>, i: usize) -> (r: Option<(Token, usize)>)
    requires
        i <= s@.len(),
    ensures
        token_agrees(r, property_at(s@, i as int)),
        r matches Some((_, j)) ==> i < j <= s@.len(),
{
    let n = s.len();
    if !(char_at_exec(s, i, '{') && i + 1 < n && char_at_exec(s, i + 1, '!')) {
        return None;
    }
    match property_name_at_exec(s, i + 2) {
        Some((property, j)) => {
            let (formatters, m) = formatters_at_exec(s, j);
            if !char_at_exec(s, m, '}') {
                return None;
            }
            assert(m < n);
            let token = Token::Substitution(Substitution { subject: Subject::Property(property), formatters });
            Some((token, m + 1))
        },
        None => None,
    }
}

fn token_at_exec(s: &Vec<char>, i: usize) -> (r: Option<(Token, usize)>)
    requires
        i <= s@.len(),
    ensures
        token_agrees(r, token_at(s@, i as int)),
        r matches Some((_, j)) ==> i < j <= s@.len(),
{
    match escaped_at_exec(Context::Literal, s, i) {
        Some((t, j)) => Some((Token::Literal(crate::text::string_of(&t)), j)),
        None => match capture_at_exec(s, i) {
            Some(r) => Some(r),
            None => property_at_exec(s, i),
        },
    }
}

proof fn lemma_tokens_view_push(ts: Seq<Token>, t: Token)
    ensures
        tokens_view(ts.push(t)) == tokens_view(ts).push(t@),
{
    assert(tokens_view(ts.push(t)) =~= tokens_view(ts).push(t@));
}

/// Parses the text of a to-pattern into its tokens; `None` where the text is
/// empty or is not a sequence of tokens.
pub fn parse_tokens(text: &str) -> (r: Option<Vec<Token>>)
    ensures
        match r {
            Some(ts) => parse_spec(text@) == Some(tokens_view(ts@)),
            None => parse_spec(text@) is None,
        },
{
    let s = crate::text::chars_of(text);
    let n = s.len();
    if n == 0 {
        return None;
    }
    let mut tokens: Vec<Token> = Vec::new();
    let mut i: usize = 0;
    proof {
        assert(tokens_view(tokens@) =~= Seq::empty());
    }
    while i < n
        invariant
            i <= n,
            n == s@.len(),
            s@ == text@,
            n > 0,
            tokens_from(s@, i as int, tokens_view(tokens@)) == parse_spec(text@),
        decreases n - i,
    {
        match token_at_exec(&s, i) {
            Some((t, j)) => {
                proof {
                    lemma_tokens_view_push(tokens@, t);
                }
                tokens.push(t);
                i = j;
            },
            None => {
                return None;
            },
        }
    }
    Some(tokens)
}

} // verus!
