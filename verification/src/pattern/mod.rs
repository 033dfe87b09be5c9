//! From-patterns and to-patterns.

use vstd::prelude::*;

use crate::pattern::to::grammar::{
    char_at, char_at_exec, number_at, number_at_exec, spaces_end, spaces_end_exec,
};
use crate::pattern::to::token::IdentifierView;
use crate::text::{chars_of, string_of};

pub mod from;
pub mod to;

verus! {

/// Errors of patterns.
#[derive(Clone, Copy, Debug, PartialEq, Eq, Structural)]
#[non_exhaustive]
pub enum PatternError {
    /// A capture that the to-pattern names is not in the from-pattern.
    CaptureNotFound,
    /// The text is not a pattern.
    Parse,
    /// Captured text is not valid UTF-8.
    Encoding,
    /// A property of the source could not be read.
    Property,
}

impl PatternError {
    /// The description of the error.
    pub open spec fn message_spec(&self) -> Seq<char> {
        match self {
            PatternError::CaptureNotFound => "capture not found in from-pattern"@,
            PatternError::Parse => "failed to parse pattern"@,
            PatternError::Encoding => "failed to encode capture in to-pattern"@,
            PatternError::Property => "failed to read property in to-pattern"@,
        }
    }

    /// A description of the error.
    pub fn message(&self) -> (r: &'static str)
        ensures
            r@ == self.message_spec(),
    {
        match self {
            PatternError::CaptureNotFound => "capture not found in from-pattern",
            PatternError::Parse => "failed to parse pattern",
            PatternError::Encoding => "failed to encode capture in to-pattern",
            PatternError::Property => "failed to read property in to-pattern",
        }
    }
}

} // verus!

verus! {

/// A capture of a simple pattern: by index (zero is the whole match) or by
/// name.
#[derive(Debug)]
pub enum Capture {
    Index(usize),
    Name(String),
}

impl View for Capture {
    type V = IdentifierView;

    open spec fn view(&self) -> IdentifierView {
        match self {
            Capture::Index(i) => IdentifierView::Index(*i),
            Capture::Name(n) => IdentifierView::Name(n@),
        }
    }
}

impl Capture {
    pub fn into_owned(self) -> (r: Capture)
        ensures
            r@ == self@,
    {
        self
    }
}

/// A component of a simple pattern: a capture or literal text.
#[derive(Debug)]
pub enum Component {
    Capture(Capture),
    Literal(String),
}

pub enum ComponentView {
    Capture(IdentifierView),
    Literal(Seq<char>),
}

impl View for Component {
    type V = ComponentView;

    open spec fn view(&self) -> ComponentView {
        match self {
            Component::Capture(c) => ComponentView::Capture(c@),
            Component::Literal(l) => ComponentView::Literal(l@),
        }
    }
}

impl Component {
    pub fn into_owned(self) -> (r: Component)
        ensures
            r@ == self@,
    {
        self
    }
}

pub open spec fn components_view(cs: Seq<Component>) -> Seq<ComponentView> {
    cs.map_values(|c: Component| c@)
}

/// The end of the run of characters other than `{` from `i`.
pub open spec fn simple_literal_end(s: Seq<char>, i: int) -> int
    decreases s.len() - i,
{
    if 0 <= i < s.len() && s[i] != '{' {
        simple_literal_end(s, i + 1)
    } else {
        i
    }
}

/// `true` for an ASCII letter or digit.
pub open spec fn is_alphanumeric(c: char) -> bool {
    ('0' <= c <= '9') || ('a' <= c <= 'z') || ('A' <= c <= 'Z')
}

/// The end of the run of ASCII letters and digits from `i`.
pub open spec fn alphanumeric_end(s: Seq<char>, i: int) -> int
    decreases s.len() - i,
{
    if 0 <= i < s.len() && is_alphanumeric(s[i]) {
        alphanumeric_end(s, i + 1)
    } else {
        i
    }
}

/// The capture between braces: one or more spaces (the whole match), `#`
/// and an index, or `@` and a name of ASCII letters and digits.
pub open spec fn simple_capture_body(s: Seq<char>, i: int) -> Option<(IdentifierView, int)> {
    if spaces_end(s, i) > i {
        Some((IdentifierView::Index(0), spaces_end(s, i)))
    } else if char_at(s, i, '#') && number_at(s, i + 1) is Some {
        let (v, j) = number_at(s, i + 1)->0;
        Some((IdentifierView::Index(v), j))
    } else if char_at(s, i, '@') && alphanumeric_end(s, i + 1) > i + 1 {
        let e = alphanumeric_end(s, i + 1);
        Some((IdentifierView::Name(s.subrange(i + 1, e)), e))
    } else {
        None
    }
}

/// One component: literal text up to the next `{`, or a capture in braces.
pub open spec fn simple_component_at(s: Seq<char>, i: int) -> Option<(ComponentView, int)> {
    let e = simple_literal_end(s, i);
    if e > i {
        Some((ComponentView::Literal(s.subrange(i, e)), e))
    } else if char_at(s, i, '{') {
        match simple_capture_body(s, i + 1) {
            Some((c, j)) => if char_at(s, j, '}') {
                Some((ComponentView::Capture(c), j + 1))
            } else {
                None
            },
            None => None,
        }
    } else {
        None
    }
}

/// The components from `i` to the end of the text, where `acc` holds those
/// read so far; `None` where some text is not a component.
pub open spec fn simple_components_from(s: Seq<char>, i: int, acc: Seq<ComponentView>) -> Option<Seq<ComponentView>>
    decreases s.len() - i,
{
    if i < 0 || i >= s.len() {
        Some(acc)
    } else {
        match simple_component_at(s, i) {
            Some((c, j)) => if i < j <= s.len() {
                simple_components_from(s, j, acc.push(c))
            } else {
                None
            },
            None => None,
        }
    }
}

/// The components of a simple pattern: `None` where the text is empty or is
/// not a sequence of components.
pub open spec fn simple_parse_spec(s: Seq<char>) -> Option<Seq<ComponentView>> {
    if s.len() == 0 {
        None
    } else {
        simple_components_from(s, 0, Seq::empty())
    }
}

/// A simple pattern: literal text and captures.
#[derive(Debug)]
pub struct Pattern {
    components: Vec<Component>,
}

impl View for Pattern {
    type V = Seq<ComponentView>;

    closed spec fn view(&self) -> Seq<ComponentView> {
        components_view(self.components@)
    }
}

fn literal_end_exec(s: &Vec<char>, i: usize) -> (r: usize)
    requires
        i <= s@.len(),
    ensures
        r as int == simple_literal_end(s@, i as int),
        i <= r <= s@.len(),
{
    let mut j = i;
    while j < s.len() && s[j] != '{'
        invariant
            i <= j <= s@.len(),
            simple_literal_end(s@, j as int) == simple_literal_end(s@, i as int),
        decreases s@.len() - j,
    {
        j = j + 1;
    }
    j
}

fn alphanumeric_end_exec(s: &Vec<char>, i: usize) -> (r: usize)
    requires
        i <= s@.len(),
    ensures
        r as int == alphanumeric_end(s@, i as int),
        i <= r <= s@.len(),
{
    let mut j = i;
    while j < s.len() && (('0' <= s[j] && s[j] <= '9') || ('a' <= s[j] && s[j] <= 'z') || ('A' <= s[j] && s[j] <= 'Z'))
        invariant
            i <= j <= s@.len(),
            alphanumeric_end(s@, j as int) == alphanumeric_end(s@, i as int),
        decreases s@.len() - j,
    {
        j = j + 1;
    }
    j
}

fn copy_range(s: &Vec<char>, a: usize, b: usize) -> (r: String)
    requires
        a <= b <= s@.len(),
    ensures
        r@ == s@.subrange(a as int, b as int),
{
    let part = vstd::slice::slice_subrange(s.as_slice(), a, b);
    string_of(part)
}

fn simple_capture_body_exec(s: &Vec<char>, i: usize) -> (r: Option<(Capture, usize)>)
    requires
        i <= s@.len(),
    ensures
        match (r, simple_capture_body(s@, i as int)) {
            (Some((c, j)), Some((d, k))) => c@ == d && j as int == k,
            (None, None) => true,
            _ => false,
        },
        r matches Some((_, j)) ==> i < j <= s@.len(),
{
    let n = s.len();
    let e = spaces_end_exec(s, i);
    if e > i {
        return Some((Capture::Index(0), e));
    }
    if char_at_exec(s, i, '#') {
        assert(i < n);
        if let Some((v, j)) = number_at_exec(s, i + 1) {
            return Some((Capture::Index(v), j));
        }
    }
    if char_at_exec(s, i, '@') {
        assert(i < n);
        let e = alphanumeric_end_exec(s, i + 1);
        if e > i + 1 {
            return Some((Capture::Name(copy_range(s, i + 1, e)), e));
        }
    }
    None
}

fn simple_component_at_exec(s: &Vec<char>, i: usize) -> (r: Option<(Component, usize)>)
    requires
        i <= s@.len(),
    ensures
        match (r, simple_component_at(s@, i as int)) {
            (Some((c, j)), Some((d, k))) => c@ == d && j as int == k,
            (None, None) => true,
            _ => false,
        },
        r matches Some((_, j)) ==> i < j <= s@.len(),
{
    let n = s.len();
    let e = literal_end_exec(s, i);
    if e > i {
        return Some((Component::Literal(copy_range(s, i, e)), e));
    }
    if !char_at_exec(s, i, '{') {
        return None;
    }
    assert(i < n);
    match simple_capture_body_exec(s, i + 1) {
        Some((c, j)) => if char_at_exec(s, j, '}') {
            assert(j < n);
            Some((Component::Capture(c), j + 1))
        } else {
            None
        },
        None => None,
    }
}

proof fn lemma_components_view_push(cs: Seq<Component>, c: Component)
    ensures
        components_view(cs.push(c)) == components_view(cs).push(c@),
{
    assert(components_view(cs.push(c)) =~= components_view(cs).push(c@));
}

impl Pattern {
    /// Parses a simple pattern. Fails with `PatternError::Parse` exactly where
    /// the text is empty or is not a sequence of components.
    pub fn parse(text: &str) -> (r: Result<Pattern, PatternError>)
        ensures
            match r {
                Ok(p) => simple_parse_spec(text@) == Some(p@),
                Err(e) => simple_parse_spec(text@) is None && e == PatternError::Parse,
            },
    {
        let s = chars_of(text);
        let n = s.len();
        if n == 0 {
            return Err(PatternError::Parse);
        }
        let mut components: Vec<Component> = Vec::new();
        let mut i: usize = 0;
        proof {
            assert(components_view(components@) =~= Seq::empty());
        }
        while i < n
            invariant
                i <= n,
                n == s@.len(),
                s@ == text@,
                n > 0,
                simple_components_from(s@, i as int, components_view(components@)) == simple_parse_spec(text@),
            decreases n - i,
        {
            match simple_component_at_exec(&s, i) {
                Some((c, j)) => {
                    proof {
                        lemma_components_view_push(components@, c);
                    }
                    components.push(c);
                    i = j;
                },
                None => {
                    return Err(PatternError::Parse);
                },
            }
        }
        Ok(Pattern { components })
    }

    /// This pattern, owning its text.
    pub fn into_owned(self) -> (r: Pattern)
        ensures
            r@ == self@,
    {
        self
    }

    /// The components of the pattern, in order.
    pub fn components(&self) -> (r: &[Component])
        ensures
            components_view(r@) == self@,
    {
        self.components.as_slice()
    }
}

impl std::str::FromStr for Pattern {
    type Err = PatternError;

    fn from_str(text: &str) -> (r: Result<Pattern, PatternError>)
        ensures
            match r {
                Ok(p) => simple_parse_spec(text@) == Some(p@),
                Err(e) => simple_parse_spec(text@) is None && e == PatternError::Parse,
            },
    {
        Pattern::parse(text)
    }
}

} // verus!
