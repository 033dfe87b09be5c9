//! The regular expression that a glob compiles to.
//!
//! A glob matches a path when the regular expression built here matches the
//! bytes of the path. Wildcards, classes, and alternatives become capturing
//! groups at the top level of the glob, in order; within alternatives the
//! groups do not capture.

use vstd::prelude::*;

use crate::text::{hex_digit, hex_digit_exec};
use crate::glob::token::{
    Archetype, Evaluation, Token, TokenSpec, Wildcard, branches_view, lemma_branches_view,
    lemma_tokens_view, token_view, tokens_view,
};

verus! {

/// Characters with a special meaning in regular expressions, as the `regex`
/// crate defines them.
pub open spec fn is_regex_meta(c: char) -> bool {
    c == '\\' || c == '.' || c == '+' || c == '*' || c == '?' || c == '(' || c == ')' || c == '|'
        || c == '[' || c == ']' || c == '{' || c == '}' || c == '^' || c == '$' || c == '#' || c
        == '&' || c == '-' || c == '~'
}

/// `text` with a back slash before each meta character.
pub open spec fn regex_escaped(text: Seq<char>) -> Seq<char>
    decreases text.len(),
{
    if text.len() == 0 {
        Seq::empty()
    } else {
        regex_escaped(text.drop_last()) + if is_regex_meta(text.last()) {
            seq!['\\', text.last()]
        } else {
            seq![text.last()]
        }
    }
}

/// `regex::escape`: the text with a back slash inserted before every regular
/// expression meta character (`\ . + * ? ( ) | [ ] { } ^ $ # & - ~`), as
/// `regex_syntax::escape_into` does.
#[verifier::external_body]
fn regex_escape(text: &str) -> (r: String)
    ensures
        r@ == regex_escaped(text@),
{
    regex::escape(text)
}

/// Whether a group captures.
#[derive(Clone, Copy, Debug, PartialEq, Eq, Structural)]
pub enum Grouping {
    Capture,
    NonCapture,
}

/// The place of a token among its siblings.
#[derive(Clone, Copy, Debug, PartialEq, Eq, Structural)]
pub enum Position {
    First,
    Middle,
    Last,
    Only,
}

pub open spec fn position_of(i: int, n: int) -> Position {
    if n == 1 {
        Position::Only
    } else if i == 0 {
        Position::First
    } else if i == n - 1 {
        Position::Last
    } else {
        Position::Middle
    }
}

pub open spec fn grouped(g: Grouping, text: Seq<char>) -> Seq<char> {
    match g {
        Grouping::Capture => seq!['('] + text + seq![')'],
        Grouping::NonCapture => seq!['(', '?', ':'] + text + seq![')'],
    }
}

/// The pattern text for one byte of a literal: the escaped ASCII character,
/// or `\x` and two lowercase hexadecimal digits.
pub open spec fn byte_pattern(b: u8) -> Seq<char> {
    if b <= 0x7F {
        regex_escaped(seq![b as char])
    } else {
        seq!['\\', 'x', hex_digit(b / 16), hex_digit(b % 16)]
    }
}

pub open spec fn bytes_pattern(bytes: Seq<u8>) -> Seq<char>
    decreases bytes.len(),
{
    if bytes.len() == 0 {
        Seq::empty()
    } else {
        bytes_pattern(bytes.drop_last()) + byte_pattern(bytes.last())
    }
}

/// The UTF-8 encoding of a character in a four-byte buffer, the unused bytes
/// zero.
pub open spec fn char_buffer(c: char) -> Seq<u8> {
    let e = vstd::utf8::encode_scalar(c as u32);
    e + Seq::new((4 - e.len()) as nat, |i: int| 0u8)
}

pub open spec fn archetype_pattern(a: Archetype) -> Seq<char> {
    match a {
        Archetype::Character(c) => bytes_pattern(char_buffer(c)),
        Archetype::Range(l, r) => seq![l, '-', r],
    }
}

pub open spec fn archetypes_pattern(archetypes: Seq<Archetype>) -> Seq<char>
    decreases archetypes.len(),
{
    if archetypes.len() == 0 {
        Seq::empty()
    } else {
        archetypes_pattern(archetypes.drop_last()) + archetype_pattern(archetypes.last())
    }
}

/// A class: the archetypes, negated if asked, intersected with all bytes but
/// `/`.
pub open spec fn class_pattern(negated: bool, archetypes: Seq<Archetype>) -> Seq<char> {
    seq!['['] + (if negated {
        seq!['^']
    } else {
        Seq::empty()
    }) + archetypes_pattern(archetypes) + seq!['&', '&', '[', '^', '/', ']', ']']
}

/// The pattern of a wildcard other than a tree wildcard.
pub open spec fn wildcard_body(w: Wildcard) -> Seq<char> {
    match w {
        Wildcard::One => seq!['[', '^', '/', ']'],
        Wildcard::ZeroOrMore(Evaluation::Eager) => seq!['[', '^', '/', ']', '*'],
        Wildcard::ZeroOrMore(Evaluation::Lazy) => seq!['[', '^', '/', ']', '*', '?'],
        Wildcard::Tree => seq!['.', '*'],
    }
}

/// The pattern of a tree wildcard, which depends on its place: it may match
/// nothing, and it carries the separators at its edges.
pub open spec fn tree_pattern(g: Grouping, p: Position) -> Seq<char> {
    match p {
        Position::First => seq!['(', '?', ':', '/', '?', '|'] + grouped(g, seq!['.', '*', '/'])
            + seq![')'],
        Position::Middle => seq!['(', '?', ':', '/', '|', '/'] + grouped(g, seq!['.', '*', '/'])
            + seq![')'],
        Position::Last => seq!['(', '?', ':', '/', '?', '|', '/'] + grouped(g, seq!['.', '*'])
            + seq![')'],
        Position::Only => grouped(g, seq!['.', '*']),
    }
}

/// The pattern of one token at place `p` among its siblings.
pub open spec fn token_pattern(g: Grouping, t: TokenSpec, p: Position) -> Seq<char>
    decreases t, 0int, 0int,
{
    match t {
        TokenSpec::Literal(text) => bytes_pattern(vstd::utf8::encode_utf8(text)),
        TokenSpec::Separator => byte_pattern(0x2Fu8),
        TokenSpec::Alternative(branches) => grouped(g, branches_pattern_from(branches, 0)),
        TokenSpec::Class(negated, archetypes) => grouped(g, class_pattern(negated, archetypes)),
        TokenSpec::Wildcard(Wildcard::Tree) => tree_pattern(g, p),
        TokenSpec::Wildcard(w) => grouped(g, wildcard_body(w)),
    }
}

/// The pattern of the tokens of `ts` from `i` on.
pub open spec fn tokens_pattern_from(g: Grouping, ts: Seq<TokenSpec>, i: int) -> Seq<char>
    decreases ts, 1int, ts.len() - i,
{
    if i < 0 || i >= ts.len() {
        Seq::empty()
    } else {
        proof {
            assert(decreases_to!(ts => ts[i]));
        }
        token_pattern(g, ts[i], position_of(i, ts.len() as int)) + tokens_pattern_from(g, ts, i + 1)
    }
}

/// The branches from `m` on, each a non-capturing group, separated by `|`.
pub open spec fn branches_pattern_from(branches: Seq<Seq<TokenSpec>>, m: int) -> Seq<char>
    decreases branches, 1int, branches.len() - m,
{
    if m < 0 || m >= branches.len() {
        Seq::empty()
    } else {
        (if m > 0 {
            seq!['|']
        } else {
            Seq::empty()
        }) + seq!['(', '?', ':'] + tokens_pattern_from(Grouping::NonCapture, branches[m], 0)
            + seq![')'] + branches_pattern_from(branches, m + 1)
    }
}

/// The regular expression of a glob: bytes mode without Unicode, anchored at
/// both ends.
pub open spec fn glob_pattern(ts: Seq<TokenSpec>) -> Seq<char> {
    seq!['(', '?', '-', 'u', ')', '^'] + tokens_pattern_from(Grouping::Capture, ts, 0) + seq!['$']
}

/// Negating a class puts `^` right after its opening bracket, so that the
/// regular expression class holds every byte that the class does not list
/// (and never `/`): the pattern of `[!...]` is the pattern of `[...]` with `^`
/// inserted after `[`. A glob that is one negated class compiles to that
/// negated class alone, as its one capturing group, anchored at both ends.
pub proof fn lemma_negated_class_pattern(archetypes: Seq<Archetype>)
    ensures
        class_pattern(true, archetypes).take(2) == seq!['[', '^'],
        class_pattern(true, archetypes) == seq!['[', '^'] + class_pattern(false, archetypes).skip(1),
        class_pattern(false, archetypes) == seq!['['] + archetypes_pattern(archetypes) + seq![
            '&',
            '&',
            '[',
            '^',
            '/',
            ']',
            ']',
        ],
        glob_pattern(seq![TokenSpec::Class(true, archetypes)]) == seq![
            '(',
            '?',
            '-',
            'u',
            ')',
            '^',
            '(',
            '[',
            '^',
        ] + archetypes_pattern(archetypes) + seq!['&', '&', '[', '^', '/', ']', ']', ')', '$'],
{
    let a = archetypes_pattern(archetypes);
    let tail = seq!['&', '&', '[', '^', '/', ']', ']'];
    assert(class_pattern(false, archetypes) =~= seq!['['] + a + tail);
    assert(class_pattern(true, archetypes) =~= seq!['[', '^'] + a + tail);
    assert(class_pattern(false, archetypes).skip(1) =~= a + tail);
    assert(class_pattern(true, archetypes) =~= seq!['[', '^'] + class_pattern(false, archetypes).skip(1));
    assert(class_pattern(true, archetypes).take(2) =~= seq!['[', '^']);
    let ts = seq![TokenSpec::Class(true, archetypes)];
    assert(position_of(0, 1) == Position::Only);
    assert(tokens_pattern_from(Grouping::Capture, ts, 1) =~= Seq::<char>::empty());
    assert(ts[0] == TokenSpec::Class(true, archetypes));
    assert(token_pattern(Grouping::Capture, ts[0], Position::Only) == grouped(Grouping::Capture, class_pattern(true, archetypes)));
    assert(tokens_pattern_from(Grouping::Capture, ts, 0) == token_pattern(Grouping::Capture, ts[0], position_of(0, 1))
        + tokens_pattern_from(Grouping::Capture, ts, 1));
    assert(tokens_pattern_from(Grouping::Capture, ts, 0) =~= grouped(Grouping::Capture, class_pattern(true, archetypes)));
    assert(glob_pattern(ts) =~= seq!['(', '?', '-', 'u', ')', '^', '(', '[', '^'] + a + seq![
        '&',
        '&',
        '[',
        '^',
        '/',
        ']',
        ']',
        ')',
        '$',
    ]);
}

} // verus!

verus! {

fn push_chars(out: &mut Vec<char>, cs: &[char])
    ensures
        final(out)@ == old(out)@ + cs@,
{
    let ghost start = out@;
    let mut i: usize = 0;
    while i < cs.len()
        invariant
            i <= cs@.len(),
            out@ == start + cs@.take(i as int),
        decreases cs@.len() - i,
    {
        out.push(cs[i]);
        proof {
            assert(start + cs@.take(i as int + 1) =~= (start + cs@.take(i as int)).push(cs@[i as int]));
        }
        i = i + 1;
    }
    proof {
        assert(cs@.take(cs@.len() as int) =~= cs@);
    }
}

fn push_byte_pattern(out: &mut Vec<char>, b: u8)
    ensures
        final(out)@ == old(out)@ + byte_pattern(b),
{
    if b <= 0x7F {
        let c = b as char;
        let one = crate::text::string_of(&[c]);
        proof {
            assert(one@ =~= seq![c]);
        }
        let e = regex_escape(one.as_str());
        let cs = crate::text::chars_of(e.as_str());
        push_chars(out, cs.as_slice());
    } else {
        let cs = [ '\\', 'x', hex_digit_exec(b / 16), hex_digit_exec(b % 16) ];
        proof {
            assert(cs@ =~= seq!['\\', 'x', hex_digit(b / 16), hex_digit(b % 16)]);
        }
        push_chars(out, &cs);
    }
}

fn push_bytes_pattern(out: &mut Vec<char>, bytes: &[u8])
    ensures
        final(out)@ == old(out)@ + bytes_pattern(bytes@),
{
    let ghost start = out@;
    let mut i: usize = 0;
    while i < bytes.len()
        invariant
            i <= bytes@.len(),
            out@ == start + bytes_pattern(bytes@.take(i as int)),
        decreases bytes@.len() - i,
    {
        proof {
            assert(bytes@.take(i as int + 1).drop_last() =~= bytes@.take(i as int));
        }
        push_byte_pattern(out, bytes[i]);
        i = i + 1;
    }
    proof {
        assert(bytes@.take(bytes@.len() as int) =~= bytes@);
    }
}

/// The UTF-8 encoding of a character in a four-byte buffer.
fn char_buffer_exec(c: char) -> (r: [u8; 4])
    ensures
        r@ == char_buffer(c),
{
    let v = c as u32;
    let r: [u8; 4] = if v <= 0x7F {
        [(v & 0x7F) as u8, 0, 0, 0]
    } else if v <= 0x7FF {
        [0xC0 | ((v >> 6) & 0x1F) as u8, 0x80 | (v & 0x3F) as u8, 0, 0]
    } else if v <= 0xFFFF {
        [0xE0 | ((v >> 12) & 0x0F) as u8, 0x80 | ((v >> 6) & 0x3F) as u8, 0x80 | (v & 0x3F) as u8, 0]
    } else {
        [0xF0 | ((v >> 18) & 0x7) as u8, 0x80 | ((v >> 12) & 0x3F) as u8, 0x80 | ((v >> 6) & 0x3F) as u8, 0x80 | (v & 0x3F) as u8]
    };
    proof {
        assert(r@ =~= char_buffer(c));
    }
    r
}

fn push_archetypes_pattern(out: &mut Vec<char>, archetypes: &Vec<Archetype>)
    ensures
        final(out)@ == old(out)@ + archetypes_pattern(archetypes@),
{
    let ghost start = out@;
    let mut i: usize = 0;
    while i < archetypes.len()
        invariant
            i <= archetypes@.len(),
            out@ == start + archetypes_pattern(archetypes@.take(i as int)),
        decreases archetypes@.len() - i,
    {
        proof {
            assert(archetypes@.take(i as int + 1).drop_last() =~= archetypes@.take(i as int));
        }
        match archetypes[i] {
            Archetype::Character(c) => {
                let buffer = char_buffer_exec(c);
                push_bytes_pattern(out, &buffer);
            },
            Archetype::Range(l, r) => {
                let cs = [l, '-', r];
                proof {
                    assert(cs@ =~= seq![l, '-', r]);
                }
                push_chars(out, &cs);
            },
        }
        i = i + 1;
    }
    proof {
        assert(archetypes@.take(archetypes@.len() as int) =~= archetypes@);
    }
}

fn open_group(out: &mut Vec<char>, g: Grouping)
    ensures
        final(out)@ == old(out)@ + match g {
            Grouping::Capture => seq!['('],
            Grouping::NonCapture => seq!['(', '?', ':'],
        },
{
    match g {
        Grouping::Capture => {
            out.push('(');
            proof {
                assert(out@ =~= old(out)@ + seq!['(']);
            }
        },
        Grouping::NonCapture => {
            let cs = ['(', '?', ':'];
            proof {
                assert(cs@ =~= seq!['(', '?', ':']);
            }
            push_chars(out, &cs);
        },
    }
}

fn push_class_pattern(out: &mut Vec<char>, g: Grouping, is_negated: bool, archetypes: &Vec<Archetype>)
    ensures
        final(out)@ == old(out)@ + grouped(g, class_pattern(is_negated, archetypes@)),
{
    let ghost start = out@;
    open_group(out, g);
    out.push('[');
    if is_negated {
        out.push('^');
    }
    push_archetypes_pattern(out, archetypes);
    let cs = ['&', '&', '[', '^', '/', ']', ']', ')'];
    push_chars(out, &cs);
    proof {
        assert(out@ =~= start + grouped(g, class_pattern(is_negated, archetypes@)));
    }
}

fn push_tree_pattern(out: &mut Vec<char>, g: Grouping, p: Position)
    ensures
        final(out)@ == old(out)@ + tree_pattern(g, p),
{
    let ghost start = out@;
    match p {
        Position::First => {
            let cs = ['(', '?', ':', '/', '?', '|'];
            push_chars(out, &cs);
            open_group(out, g);
            let cs = ['.', '*', '/', ')', ')'];
            push_chars(out, &cs);
        },
        Position::Middle => {
            let cs = ['(', '?', ':', '/', '|', '/'];
            push_chars(out, &cs);
            open_group(out, g);
            let cs = ['.', '*', '/', ')', ')'];
            push_chars(out, &cs);
        },
        Position::Last => {
            let cs = ['(', '?', ':', '/', '?', '|', '/'];
            push_chars(out, &cs);
            open_group(out, g);
            let cs = ['.', '*', ')', ')'];
            push_chars(out, &cs);
        },
        Position::Only => {
            open_group(out, g);
            let cs = ['.', '*', ')'];
            push_chars(out, &cs);
        },
    }
    proof {
        assert(out@ =~= start + tree_pattern(g, p));
    }
}

fn push_wildcard_pattern(out: &mut Vec<char>, g: Grouping, w: Wildcard)
    ensures
        final(out)@ == old(out)@ + grouped(g, wildcard_body(w)),
{
    let ghost start = out@;
    open_group(out, g);
    match w {
        Wildcard::One => {
            let cs = ['[', '^', '/', ']'];
            push_chars(out, &cs);
        },
        Wildcard::ZeroOrMore(Evaluation::Eager) => {
            let cs = ['[', '^', '/', ']', '*'];
            push_chars(out, &cs);
        },
        Wildcard::ZeroOrMore(Evaluation::Lazy) => {
            let cs = ['[', '^', '/', ']', '*', '?'];
            push_chars(out, &cs);
        },
        Wildcard::Tree => {
            let cs = ['.', '*'];
            push_chars(out, &cs);
        },
    }
    out.push(')');
    proof {
        assert(out@ =~= start + grouped(g, wildcard_body(w)));
    }
}

fn push_token_pattern(out: &mut Vec<char>, g: Grouping, t: &Token, p: Position)
    ensures
        final(out)@ == old(out)@ + token_pattern(g, token_view(*t), p),
    decreases *t, 0int, 0int,
{
    let ghost start = out@;
    match t {
        Token::Literal(text) => {
            push_bytes_pattern(out, text.as_str().as_bytes());
        },
        Token::Separator => {
            push_byte_pattern(out, 0x2Fu8);
        },
        Token::Alternative(alternative) => {
            open_group(out, g);
            push_branches_pattern(out, &alternative.0);
            out.push(')');
            proof {
                assert(out@ =~= start + grouped(g, branches_pattern_from(branches_view(alternative.0@), 0)));
            }
        },
        Token::Class { is_negated, archetypes } => {
            push_class_pattern(out, g, *is_negated, archetypes);
        },
        Token::Wildcard(Wildcard::Tree) => {
            push_tree_pattern(out, g, p);
        },
        Token::Wildcard(w) => {
            push_wildcard_pattern(out, g, *w);
        },
    }
}

fn push_tokens_pattern(out: &mut Vec<char>, g: Grouping, ts: &[Token])
    ensures
        final(out)@ == old(out)@ + tokens_pattern_from(g, tokens_view(ts@), 0),
    decreases ts@, 1int, 0int,
{
    let ghost start = out@;
    let ghost tv = tokens_view(ts@);
    proof {
        lemma_tokens_view(ts@);
    }
    let n = ts.len();
    let mut i: usize = 0;
    while i < n
        invariant
            i <= n,
            n == ts@.len(),
            tv == tokens_view(ts@),
            tv.len() == n,
            forall|k: int| 0 <= k < n ==> #[trigger] tv[k] == token_view(ts@[k]),
            start + tokens_pattern_from(g, tv, 0) == out@ + tokens_pattern_from(g, tv, i as int),
        decreases n - i,
    {
        let p = if n == 1 {
            Position::Only
        } else if i == 0 {
            Position::First
        } else if i == n - 1 {
            Position::Last
        } else {
            Position::Middle
        };
        let ghost before = out@;
        push_token_pattern(out, g, &ts[i], p);
        proof {
            assert(token_pattern(g, tv[i as int], position_of(i as int, n as int)) + tokens_pattern_from(g, tv, i + 1) == tokens_pattern_from(g, tv, i as int));
            assert(out@ + tokens_pattern_from(g, tv, i + 1) =~= before + tokens_pattern_from(g, tv, i as int));
        }
        i = i + 1;
    }
    proof {
        assert(out@ =~= start + tokens_pattern_from(g, tv, 0));
    }
}

fn push_branches_pattern(out: &mut Vec<char>, bs: &Vec<Vec<Token>>)
    ensures
        final(out)@ == old(out)@ + branches_pattern_from(branches_view(bs@), 0),
    decreases bs@, 1int, 0int,
{
    let ghost start = out@;
    let ghost bv = branches_view(bs@);
    proof {
        lemma_branches_view(bs@);
    }
    let n = bs.len();
    let mut m: usize = 0;
    while m < n
        invariant
            m <= n,
            n == bs@.len(),
            bv == branches_view(bs@),
            bv.len() == n,
            forall|k: int| 0 <= k < n ==> #[trigger] bv[k] == tokens_view(bs@[k]@),
            start + branches_pattern_from(bv, 0) == out@ + branches_pattern_from(bv, m as int),
        decreases n - m,
    {
        let ghost before = out@;
        if m > 0 {
            out.push('|');
        }
        open_group(out, Grouping::NonCapture);
        push_tokens_pattern(out, Grouping::NonCapture, bs[m].as_slice());
        out.push(')');
        proof {
            assert(out@ + branches_pattern_from(bv, m + 1) =~= before + branches_pattern_from(bv, m as int));
        }
        m = m + 1;
    }
    proof {
        assert(out@ =~= start + branches_pattern_from(bv, 0));
    }
}

/// The regular expression text of a token sequence.
pub fn pattern_of(ts: &[Token]) -> (r: String)
    ensures
        r@ == glob_pattern(tokens_view(ts@)),
{
    let mut out: Vec<char> = Vec::new();
    let head = ['(', '?', '-', 'u', ')', '^'];
    push_chars(&mut out, &head);
    push_tokens_pattern(&mut out, Grouping::Capture, ts);
    out.push('$');
    proof {
        assert(out@ =~= glob_pattern(tokens_view(ts@)));
    }
    crate::text::string_of(&out)
}

} // verus!
