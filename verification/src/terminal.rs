//! The layout of terminal output.

use vstd::prelude::*;

use crate::manifest::Route;
use crate::text::{hex_digit, repeated, string_of, strings_view};

verus! {

/// The narrowest width, in columns, to which text is wrapped.
pub const MIN_TERMINAL_WIDTH: usize = 16;

/// The dimensions of a terminal, in columns and rows.
#[derive(Clone, Copy, Debug, PartialEq, Eq, Structural)]
pub struct Layout {
    width: usize,
    height: usize,
}

impl Layout {
    pub closed spec fn width_spec(&self) -> usize {
        self.width
    }

    pub closed spec fn height_spec(&self) -> usize {
        self.height
    }

    /// A layout of `width` columns and `height` rows.
    pub fn new(width: usize, height: usize) -> (r: Layout)
        ensures
            r.width_spec() == width,
            r.height_spec() == height,
    {
        Layout { width, height }
    }

    /// The width and the height.
    pub fn dimensions(&self) -> (r: (usize, usize))
        ensures
            r == (self.width_spec(), self.height_spec()),
    {
        (self.width, self.height)
    }
}

/// Output that may have a layout: an attended terminal has one.
pub trait Page {
    fn layout(&self) -> Option<Layout>;
}

/// The width to which text is wrapped after a margin of `margin` columns:
/// the columns of the terminal that the margin leaves, but at least
/// `MIN_TERMINAL_WIDTH`; without a terminal, as good as unlimited.
pub open spec fn text_width_spec(layout: Option<Layout>, margin: usize) -> int {
    match layout {
        Some(l) => {
            let rest = if l.width_spec() > margin {
                l.width_spec() - margin
            } else {
                0
            };
            if rest > MIN_TERMINAL_WIDTH {
                rest
            } else {
                MIN_TERMINAL_WIDTH as int
            }
        },
        None => usize::MAX - 1,
    }
}

/// The width to which text is wrapped after a margin.
pub fn text_width(layout: Option<Layout>, margin: usize) -> (r: usize)
    ensures
        r == text_width_spec(layout, margin),
{
    match layout {
        Some(l) => {
            let (width, _) = l.dimensions();
            let rest = width - if width < margin {
                width
            } else {
                margin
            };
            if rest > MIN_TERMINAL_WIDTH {
                rest
            } else {
                MIN_TERMINAL_WIDTH
            }
        },
        None => usize::MAX - 1,
    }
}

} // verus!

verus! {

/// The lines of text wrapped to `width` columns, as `textwrap::wrap` breaks
/// them.
pub uninterp spec fn wrapped(text: Seq<char>, width: usize) -> Seq<Seq<char>>;

/// `textwrap::wrap` with its default options, each line copied. The lines
/// are named `wrapped` of the text and the width.
#[verifier::external_body]
fn wrap(text: &str, width: usize) -> (r: Vec<String>)
    ensures
        strings_view(r@) == wrapped(text@, width),
{
    textwrap::wrap(text, width).into_iter().map(|line| line.into_owned()).collect()
}

/// How a piece of a printed line is styled.
#[derive(Clone, Copy, Debug, PartialEq, Eq, Structural)]
pub enum Tone {
    Plain,
    Index,
    Line,
    Source,
    Destination,
    WarningHeader,
    Warning,
}

/// A piece of a printed line: its text and how it is styled.
#[derive(Debug)]
pub struct Piece {
    pub tone: Tone,
    pub text: String,
}

/// The view of a piece.
pub open spec fn piece_view(p: Piece) -> (Tone, Seq<char>) {
    (p.tone, p.text@)
}

/// The view of a line of pieces.
pub open spec fn line_view(line: Seq<Piece>) -> Seq<(Tone, Seq<char>)> {
    line.map_values(|p: Piece| piece_view(p))
}

/// The view of lines of pieces.
pub open spec fn lines_view(lines: Seq<Vec<Piece>>) -> Seq<Seq<(Tone, Seq<char>)>> {
    lines.map_values(|l: Vec<Piece>| line_view(l@))
}

/// The number of decimal digits of `n`.
pub open spec fn digits(n: nat) -> nat
    decreases n,
{
    if n < 10 {
        1
    } else {
        1 + digits(n / 10)
    }
}

/// The decimal text of `n`.
pub open spec fn decimal_text(n: nat) -> Seq<char>
    decreases n,
{
    if n < 10 {
        seq![hex_digit(n as u8)]
    } else {
        decimal_text(n / 10).push(hex_digit((n % 10) as u8))
    }
}

/// Text padded on the left with `fill` to `width` characters.
pub open spec fn pad_left(text: Seq<char>, fill: char, width: nat) -> Seq<char> {
    if text.len() >= width {
        text
    } else {
        repeated(fill, (width - text.len()) as nat) + text
    }
}

/// The `k`-th line of the source of the `n`-th route (counting from zero),
/// with an index column `margin` characters wide.
pub open spec fn source_line(n: nat, margin: nat, k: int, line: Seq<char>) -> Seq<(Tone, Seq<char>)> {
    if k == 0 {
        seq![
            (Tone::Index, pad_left(decimal_text(n + 1), '0', margin)),
            (Tone::Plain, seq![' ']),
            (Tone::Line, seq!['─', '┬', '─', '─']),
            (Tone::Plain, seq![' ']),
            (Tone::Source, line),
        ]
    } else {
        seq![
            (Tone::Line, pad_left(seq!['│'], ' ', margin + 3)),
            (Tone::Plain, seq![' ', ' ', ' ']),
            (Tone::Source, line),
        ]
    }
}

/// The `k`-th line of the destination of a route.
pub open spec fn destination_line(margin: nat, k: int, line: Seq<char>) -> Seq<(Tone, Seq<char>)> {
    if k == 0 {
        seq![
            (Tone::Line, pad_left(seq!['╰', '─', '⯈'], ' ', margin + 5)),
            (Tone::Plain, seq![' ']),
            (Tone::Destination, line),
        ]
    } else {
        seq![(Tone::Plain, repeated(' ', margin + 6)), (Tone::Destination, line)]
    }
}

/// The lines of the `n`-th route: its source wrapped, then its destination
/// wrapped.
pub open spec fn route_lines(n: nat, margin: nat, width: usize, source: Seq<char>, destination: Seq<char>) -> Seq<Seq<(Tone, Seq<char>)>> {
    let s = wrapped(source, width);
    let d = wrapped(destination, width);
    Seq::new(s.len(), |k: int| source_line(n, margin, k, s[k])) + Seq::new(
        d.len(),
        |k: int| destination_line(margin, k, d[k]),
    )
}

/// The lines of the first `m` routes.
pub open spec fn listing_from(routes: Seq<(Seq<char>, Seq<char>)>, m: int, margin: nat, width: usize) -> Seq<Seq<(Tone, Seq<char>)>>
    decreases m,
{
    if m <= 0 {
        Seq::empty()
    } else {
        listing_from(routes, m - 1, margin, width) + route_lines(
            (m - 1) as nat,
            margin,
            width,
            routes[m - 1].0,
            routes[m - 1].1,
        )
    }
}

/// The printed listing of routes: each route, numbered from one in an
/// index column as wide as the count of routes, with its source and its
/// destination wrapped to the width that the terminal leaves.
pub open spec fn listing(routes: Seq<(Seq<char>, Seq<char>)>, layout: Option<Layout>) -> Seq<Seq<(Tone, Seq<char>)>> {
    let margin = digits(routes.len());
    listing_from(routes, routes.len() as int, margin, text_width_spec(layout, (margin + 6) as usize) as usize)
}

/// The printed warning: a `Warning:` header before the first line of the
/// wrapped text and a margin as wide before the others.
pub open spec fn warning_lines(text: Seq<char>, layout: Option<Layout>) -> Seq<Seq<(Tone, Seq<char>)>> {
    let w = wrapped(text, text_width_spec(layout, 9) as usize);
    Seq::new(
        w.len(),
        |k: int|
            if k == 0 {
                seq![
                    (Tone::WarningHeader, seq!['W', 'a', 'r', 'n', 'i', 'n', 'g']),
                    (Tone::Warning, seq![':']),
                    (Tone::Plain, seq![' ']),
                    (Tone::Warning, w[k]),
                ]
            } else {
                seq![(Tone::Plain, repeated(' ', 9)), (Tone::Warning, w[k])]
            },
    )
}

/// Ten to the power `k`.
pub open spec fn pow10(k: nat) -> nat
    decreases k,
{
    if k == 0 {
        1
    } else {
        10 * pow10((k - 1) as nat)
    }
}

proof fn lemma_digits_bound(n: nat, k: nat)
    requires
        k >= 1,
        n < pow10(k),
    ensures
        digits(n) <= k,
    decreases k,
{
    if n >= 10 {
        if k == 1 {
            assert(pow10(1) == 10);
        } else {
            assert(n / 10 < pow10((k - 1) as nat));
            lemma_digits_bound(n / 10, (k - 1) as nat);
        }
    }
}

fn digits_exec(n: usize) -> (r: usize)
    ensures
        r as nat == digits(n as nat),
        r <= 20,
{
    proof {
        reveal_with_fuel(pow10, 21);
        assert(pow10(20) == 100000000000000000000nat);
        lemma_digits_bound(n as nat, 20);
    }
    let mut m = n;
    let mut r: usize = 1;
    while m >= 10
        invariant
            digits(n as nat) == r + digits(m as nat) - 1,
            r >= 1,
            digits(n as nat) <= 20,
        decreases m,
    {
        m = m / 10;
        r = r + 1;
    }
    r
}

fn decimal_chars(n: usize) -> (r: Vec<char>)
    ensures
        r@ == decimal_text(n as nat),
    decreases n,
{
    if n < 10 {
        let mut v = Vec::new();
        v.push(crate::text::hex_digit_exec(n as u8));
        proof {
            assert(v@ =~= seq![hex_digit(n as u8)]);
        }
        v
    } else {
        let mut v = decimal_chars(n / 10);
        v.push(crate::text::hex_digit_exec((n % 10) as u8));
        v
    }
}

fn pad_left_exec(text: &[char], fill: char, width: usize) -> (r: String)
    ensures
        r@ == pad_left(text@, fill, width as nat),
{
    let mut out: Vec<char> = Vec::new();
    if text.len() < width {
        let mut i: usize = 0;
        while i < width - text.len()
            invariant
                text@.len() < width,
                i <= width - text@.len(),
                out@ == repeated(fill, i as nat),
            decreases width - text@.len() - i,
        {
            out.push(fill);
            proof {
                assert(out@ =~= repeated(fill, (i + 1) as nat));
            }
            i = i + 1;
        }
    }
    let mut k: usize = 0;
    let ghost before = out@;
    while k < text.len()
        invariant
            k <= text@.len(),
            out@ == before + text@.take(k as int),
        decreases text@.len() - k,
    {
        out.push(text[k]);
        proof {
            assert(before + text@.take(k as int + 1) =~= (before + text@.take(k as int)).push(text@[k as int]));
        }
        k = k + 1;
    }
    proof {
        assert(text@.take(text@.len() as int) =~= text@);
        if text@.len() >= width {
            assert(before =~= Seq::<char>::empty());
            assert(out@ =~= text@);
        }
    }
    string_of(&out)
}

fn piece(tone: Tone, text: String) -> (r: Piece)
    ensures
        piece_view(r) == (tone, text@),
{
    Piece { tone, text }
}

fn chars_text(cs: &[char]) -> (r: String)
    ensures
        r@ == cs@,
{
    string_of(cs)
}

proof fn lemma_lines_view_push(lines: Seq<Vec<Piece>>, l: Vec<Piece>)
    ensures
        lines_view(lines.push(l)) == lines_view(lines).push(line_view(l@)),
{
    assert(lines_view(lines.push(l)) =~= lines_view(lines).push(line_view(l@)));
}

fn push_line(out: &mut Vec<Vec<Piece>>, line: Vec<Piece>)
    ensures
        lines_view(final(out)@) == lines_view(old(out)@).push(line_view(line@)),
{
    proof {
        lemma_lines_view_push(out@, line);
    }
    out.push(line);
}

fn source_line_exec(n: usize, margin: usize, k: usize, line: String) -> (r: Vec<Piece>)
    requires
        n < usize::MAX,
        margin <= 20,
    ensures
        line_view(r@) == source_line(n as nat, margin as nat, k as int, line@),
{
    let mut v: Vec<Piece> = Vec::new();
    let ghost want = source_line(n as nat, margin as nat, k as int, line@);
    if k == 0 {
        let index = decimal_chars(n + 1);
        let p0 = piece(Tone::Index, pad_left_exec(index.as_slice(), '0', margin));
        let p1 = piece(Tone::Plain, chars_text(&[' ']));
        let p2 = piece(Tone::Line, chars_text(&['─', '┬', '─', '─']));
        let p3 = piece(Tone::Plain, chars_text(&[' ']));
        let p4 = piece(Tone::Source, line);
        proof {
            assert(piece_view(p1).1 =~= seq![' ']);
            assert(piece_view(p2).1 =~= seq!['─', '┬', '─', '─']);
            assert(piece_view(p3).1 =~= seq![' ']);
        }
        v.push(p0);
        v.push(p1);
        v.push(p2);
        v.push(p3);
        v.push(p4);
        proof {
            assert(line_view(v@) =~= want);
        }
    } else {
        let p0 = piece(Tone::Line, pad_left_exec(&['│'], ' ', margin + 3));
        let p1 = piece(Tone::Plain, chars_text(&[' ', ' ', ' ']));
        let p2 = piece(Tone::Source, line);
        proof {
            assert(['│']@ =~= seq!['│']);
            assert(piece_view(p1).1 =~= seq![' ', ' ', ' ']);
        }
        v.push(p0);
        v.push(p1);
        v.push(p2);
        proof {
            assert(line_view(v@) =~= want);
        }
    }
    v
}

fn spaces(n: usize) -> (r: String)
    ensures
        r@ == repeated(' ', n as nat),
{
    pad_left_exec(&[], ' ', n)
}

fn destination_line_exec(margin: usize, k: usize, line: String) -> (r: Vec<Piece>)
    requires
        margin <= 20,
    ensures
        line_view(r@) == destination_line(margin as nat, k as int, line@),
{
    let mut v: Vec<Piece> = Vec::new();
    let ghost want = destination_line(margin as nat, k as int, line@);
    if k == 0 {
        let p0 = piece(Tone::Line, pad_left_exec(&['╰', '─', '⯈'], ' ', margin + 5));
        let p1 = piece(Tone::Plain, chars_text(&[' ']));
        let p2 = piece(Tone::Destination, line);
        proof {
            assert(['╰', '─', '⯈']@ =~= seq!['╰', '─', '⯈']);
            assert(piece_view(p1).1 =~= seq![' ']);
        }
        v.push(p0);
        v.push(p1);
        v.push(p2);
        proof {
            assert(line_view(v@) =~= want);
        }
    } else {
        let p0 = piece(Tone::Plain, spaces(margin + 6));
        let p1 = piece(Tone::Destination, line);
        v.push(p0);
        v.push(p1);
        proof {
            assert(line_view(v@) =~= want);
        }
    }
    v
}

/// The printed lines of a listing of routes, in the order given.
pub fn manifest_listing(routes: &Vec<Route>, layout: Option<Layout>) -> (r: Vec<Vec<Piece>>)
    requires
        routes@.len() < usize::MAX,
    ensures
        lines_view(r@) == listing(routes@.map_values(|r: Route| (r.source_spec(), r.destination_spec())), layout),
{
    let ghost rs = routes@.map_values(|r: Route| (r.source_spec(), r.destination_spec()));
    let count = routes.len();
    let margin = digits_exec(count);
    let width = text_width(layout, margin + 6);
    let mut out: Vec<Vec<Piece>> = Vec::new();
    let mut n: usize = 0;
    proof {
        assert(lines_view(out@) =~= listing_from(rs, 0, margin as nat, width));
    }
    while n < count
        invariant
            n <= count,
            count == routes@.len(),
            count < usize::MAX,
            rs == routes@.map_values(|r: Route| (r.source_spec(), r.destination_spec())),
            margin as nat == digits(count as nat),
            margin <= 20,
            width as int == text_width_spec(layout, (margin + 6) as usize),
            lines_view(out@) == listing_from(rs, n as int, margin as nat, width),
        decreases count - n,
    {
        let route = &routes[n];
        let ghost start = lines_view(out@);
        let source = wrap(route.source().as_str(), width);
        let destination = wrap(route.destination().as_str(), width);
        let ghost s = wrapped(rs[n as int].0, width);
        let ghost d = wrapped(rs[n as int].1, width);
        let mut k: usize = 0;
        while k < source.len()
            invariant
                k <= source@.len(),
                n < count,
                count < usize::MAX,
                margin <= 20,
                strings_view(source@) == s,
                lines_view(out@) == start + Seq::new(k as nat, |j: int| source_line(n as nat, margin as nat, j, s[j])),
            decreases source@.len() - k,
        {
            let line = source[k].clone();
            let l = source_line_exec(n, margin, k, line);
            proof {
                assert(strings_view(source@)[k as int] == source@[k as int]@);
            }
            push_line(&mut out, l);
            proof {
                assert(start + Seq::new((k + 1) as nat, |j: int| source_line(n as nat, margin as nat, j, s[j])) =~= (start + Seq::new(k as nat, |j: int| source_line(n as nat, margin as nat, j, s[j]))).push(source_line(n as nat, margin as nat, k as int, s[k as int])));
            }
            k = k + 1;
        }
        let ghost mid = lines_view(out@);
        let mut k: usize = 0;
        while k < destination.len()
            invariant
                k <= destination@.len(),
                margin <= 20,
                strings_view(destination@) == d,
                lines_view(out@) == mid + Seq::new(k as nat, |j: int| destination_line(margin as nat, j, d[j])),
            decreases destination@.len() - k,
        {
            let line = destination[k].clone();
            let l = destination_line_exec(margin, k, line);
            proof {
                assert(strings_view(destination@)[k as int] == destination@[k as int]@);
            }
            push_line(&mut out, l);
            proof {
                assert(mid + Seq::new((k + 1) as nat, |j: int| destination_line(margin as nat, j, d[j])) =~= (mid + Seq::new(k as nat, |j: int| destination_line(margin as nat, j, d[j]))).push(destination_line(margin as nat, k as int, d[k as int])));
            }
            k = k + 1;
        }
        proof {
            assert(source@.len() == s.len());
            assert(destination@.len() == d.len());
            assert(rs[n as int] == (routes@[n as int].source_spec(), routes@[n as int].destination_spec()));
            assert(lines_view(out@) =~= listing_from(rs, n as int, margin as nat, width) + route_lines(n as nat, margin as nat, width, rs[n as int].0, rs[n as int].1));
        }
        n = n + 1;
    }
    out
}

/// The printed lines of a warning.
pub fn warning_listing(text: &str, layout: Option<Layout>) -> (r: Vec<Vec<Piece>>)
    ensures
        lines_view(r@) == warning_lines(text@, layout),
{
    let width = text_width(layout, 9);
    let lines = wrap(text, width);
    let ghost w = wrapped(text@, width);
    let mut out: Vec<Vec<Piece>> = Vec::new();
    let mut k: usize = 0;
    while k < lines.len()
        invariant
            k <= lines@.len(),
            strings_view(lines@) == w,
            w == wrapped(text@, text_width_spec(layout, 9) as usize),
            lines_view(out@) == warning_lines(text@, layout).take(k as int),
        decreases lines@.len() - k,
    {
        let line = lines[k].clone();
        proof {
            assert(strings_view(lines@)[k as int] == lines@[k as int]@);
        }
        let mut v: Vec<Piece> = Vec::new();
        if k == 0 {
            let p0 = piece(Tone::WarningHeader, chars_text(&['W', 'a', 'r', 'n', 'i', 'n', 'g']));
            let p1 = piece(Tone::Warning, chars_text(&[':']));
            let p2 = piece(Tone::Plain, chars_text(&[' ']));
            let p3 = piece(Tone::Warning, line);
            proof {
                assert(piece_view(p0).1 =~= seq!['W', 'a', 'r', 'n', 'i', 'n', 'g']);
                assert(piece_view(p1).1 =~= seq![':']);
                assert(piece_view(p2).1 =~= seq![' ']);
            }
            v.push(p0);
            v.push(p1);
            v.push(p2);
            v.push(p3);
        } else {
            let p0 = piece(Tone::Plain, spaces(9));
            let p1 = piece(Tone::Warning, line);
            v.push(p0);
            v.push(p1);
        }
        proof {
            assert(line_view(v@) =~= warning_lines(text@, layout)[k as int]);
        }
        push_line(&mut out, v);
        proof {
            assert(warning_lines(text@, layout).take(k as int + 1) =~= warning_lines(text@, layout).take(k as int).push(warning_lines(text@, layout)[k as int]));
        }
        k = k + 1;
    }
    proof {
        assert(warning_lines(text@, layout).take(lines@.len() as int) =~= warning_lines(text@, layout));
    }
    out
}

} // verus!
