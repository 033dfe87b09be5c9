//! The tokens of to-patterns: literal text and substitutions.

use vstd::prelude::*;

use crate::text::{Alignment, hex_text, to_hex};

verus! {

/// Identifies a capture of the from-pattern: by index (zero is the whole
/// match) or by name.
#[derive(Debug)]
pub enum Identifier {
    Index(usize),
    Name(String),
}

pub enum IdentifierView {
    Index(usize),
    Name(Seq<char>),
}

impl View for Identifier {
    type V = IdentifierView;

    open spec fn view(&self) -> IdentifierView {
        match self {
            Identifier::Index(i) => IdentifierView::Index(*i),
            Identifier::Name(n) => IdentifierView::Name(n@),
        }
    }
}

impl Identifier {
    pub fn into_owned(self) -> (r: Identifier)
        ensures
            r@ == self@,
    {
        self
    }
}

/// The text of a condition when the captured text is not empty: the text
/// between a prefix and a postfix, or a literal in its place.
#[derive(Debug)]
pub enum NonEmptyCase {
    Surround { prefix: String, postfix: String },
    Literal(String),
}

pub enum NonEmptyCaseView {
    Surround(Seq<char>, Seq<char>),
    Literal(Seq<char>),
}

impl View for NonEmptyCase {
    type V = NonEmptyCaseView;

    open spec fn view(&self) -> NonEmptyCaseView {
        match self {
            NonEmptyCase::Surround { prefix, postfix } => NonEmptyCaseView::Surround(prefix@, postfix@),
            NonEmptyCase::Literal(l) => NonEmptyCaseView::Literal(l@),
        }
    }
}

impl NonEmptyCase {
    pub fn into_owned(self) -> (r: NonEmptyCase)
        ensures
            r@ == self@,
    {
        self
    }
}

/// The text of a condition when the captured text is empty.
#[derive(Debug)]
pub struct EmptyCase(pub String);

impl EmptyCase {
    pub fn into_owned(self) -> (r: EmptyCase)
        ensures
            r.0@ == self.0@,
    {
        self
    }
}

/// A condition on whether captured text is empty.
#[derive(Debug)]
pub struct Condition {
    pub non_empty: Option<NonEmptyCase>,
    pub empty: Option<EmptyCase>,
}

pub struct ConditionView {
    pub non_empty: Option<NonEmptyCaseView>,
    pub empty: Option<Seq<char>>,
}

impl View for Condition {
    type V = ConditionView;

    open spec fn view(&self) -> ConditionView {
        ConditionView {
            non_empty: match self.non_empty {
                Some(n) => Some(n@),
                None => None,
            },
            empty: match self.empty {
                Some(e) => Some(e.0@),
                None => None,
            },
        }
    }
}

impl Condition {
    pub fn into_owned(self) -> (r: Condition)
        ensures
            r@ == self@,
    {
        self
    }
}

/// A formatter of substituted text.
#[derive(Debug)]
pub enum TextFormatter {
    /// Replaces each of the characters `from` with `to`.
    Coalesce { from: Vec<char>, to: char },
    /// Pads to a width in columns with a shim character.
    Pad { shim: char, alignment: Alignment, width: usize },
    /// Lower case.
    Lower,
    /// Title case: upper case at the start of each word, lower case elsewhere.
    Title,
    /// Upper case.
    Upper,
}

pub enum TextFormatterView {
    Coalesce(Seq<char>, char),
    Pad(char, Alignment, usize),
    Lower,
    Title,
    Upper,
}

impl View for TextFormatter {
    type V = TextFormatterView;

    open spec fn view(&self) -> TextFormatterView {
        match self {
            TextFormatter::Coalesce { from, to } => TextFormatterView::Coalesce(from@, *to),
            TextFormatter::Pad { shim, alignment, width } => TextFormatterView::Pad(*shim, *alignment, *width),
            TextFormatter::Lower => TextFormatterView::Lower,
            TextFormatter::Title => TextFormatterView::Title,
            TextFormatter::Upper => TextFormatterView::Upper,
        }
    }
}

pub open spec fn formatters_view(fs: Seq<TextFormatter>) -> Seq<TextFormatterView> {
    fs.map_values(|f: TextFormatter| f@)
}

/// A capture substitution: the capture and an optional condition.
#[derive(Debug)]
pub struct Capture {
    pub identifier: Identifier,
    pub condition: Option<Condition>,
}

impl Capture {
    pub fn into_owned(self) -> (r: Capture)
        ensures
            r.identifier@ == self.identifier@,
            condition_option_view(r.condition) == condition_option_view(self.condition),
    {
        self
    }
}

pub open spec fn condition_option_view(c: Option<Condition>) -> Option<ConditionView> {
    match c {
        Some(c) => Some(c@),
        None => None,
    }
}

/// The format of a digest: lowercase hexadecimal.
#[derive(Clone, Copy, Debug, PartialEq, Eq, Structural)]
pub enum DigestFormat {
    Hexadecimal,
}

impl DigestFormat {
    pub fn default() -> (r: DigestFormat)
        ensures
            r == DigestFormat::Hexadecimal,
    {
        DigestFormat::Hexadecimal
    }
}

/// The BLAKE3 digest of data, as `blake3::hash` computes it.
pub uninterp spec fn blake3_digest(data: Seq<u8>) -> Seq<u8>;

/// The MD5 digest of data, as `md5::compute` computes it.
pub uninterp spec fn md5_digest(data: Seq<u8>) -> Seq<u8>;

/// `blake3::hash`: the 32 bytes of the BLAKE3 digest of `data`, named
/// `blake3_digest`.
#[verifier::external_body]
fn blake3_hash(data: &[u8]) -> (r: Vec<u8>)
    ensures
        r@ == blake3_digest(data@),
        r@.len() == 32,
{
    blake3::hash(data).as_bytes().to_vec()
}

/// `md5::compute`: the 16 bytes of the MD5 digest of `data`, named
/// `md5_digest`.
#[verifier::external_body]
fn md5_compute(data: &[u8]) -> (r: Vec<u8>)
    ensures
        r@ == md5_digest(data@),
        r@.len() == 16,
{
    md5::compute(data).0.to_vec()
}

/// The digest of the contents of a file.
#[derive(Debug)]
pub struct Digest {
    bytes: Vec<u8>,
}

impl View for Digest {
    type V = Seq<u8>;

    closed spec fn view(&self) -> Seq<u8> {
        self.bytes@
    }
}

impl Digest {
    /// The BLAKE3 digest of `data`.
    pub fn b3sum(data: &[u8]) -> (r: Digest)
        ensures
            r@ == blake3_digest(data@),
            r@.len() == 32,
    {
        Digest { bytes: blake3_hash(data) }
    }

    /// The MD5 digest of `data`.
    pub fn md5sum(data: &[u8]) -> (r: Digest)
        ensures
            r@ == md5_digest(data@),
            r@.len() == 16,
    {
        Digest { bytes: md5_compute(data) }
    }

    /// The bytes of the digest.
    pub fn as_bytes(&self) -> (r: &[u8])
        ensures
            r@ == self@,
    {
        self.bytes.as_slice()
    }
}

/// Formats a property value as text.
pub trait PropertyFormat<M> {
    fn fmt(&self, fmt: &M) -> String;
}

impl PropertyFormat<DigestFormat> for Digest {
    /// The digest in lowercase hexadecimal.
    fn fmt(&self, fmt: &DigestFormat) -> (r: String)
        ensures
            r@ == hex_text(self@),
    {
        match fmt {
            DigestFormat::Hexadecimal => to_hex(self.bytes.as_slice()),
        }
    }
}

/// A `strftime`-like format of a date and time.
#[derive(Debug)]
pub struct DateTimeFormat {
    pub fmt: String,
}

impl DateTimeFormat {
    /// The default format, `%F-%X`.
    pub fn default() -> (r: DateTimeFormat)
        ensures
            r.fmt@ == default_date_time_format(),
    {
        let fmt = crate::text::string_of(&['%', 'F', '-', '%', 'X']);
        proof {
            assert(fmt@ =~= default_date_time_format());
        }
        DateTimeFormat { fmt }
    }

    pub fn into_owned(self) -> (r: DateTimeFormat)
        ensures
            r.fmt@ == self.fmt@,
    {
        self
    }
}

pub open spec fn default_date_time_format() -> Seq<char> {
    seq!['%', 'F', '-', '%', 'X']
}

/// A property of the source file.
#[derive(Debug)]
pub enum Property {
    /// The BLAKE3 digest of the contents.
    B3Sum(DigestFormat),
    /// The creation time.
    CTime(DateTimeFormat),
    /// The MD5 digest of the contents.
    Md5Sum(DigestFormat),
    /// The modification time.
    MTime(DateTimeFormat),
}

pub enum PropertyView {
    B3Sum,
    CTime(Seq<char>),
    Md5Sum,
    MTime(Seq<char>),
}

impl View for Property {
    type V = PropertyView;

    open spec fn view(&self) -> PropertyView {
        match self {
            Property::B3Sum(_) => PropertyView::B3Sum,
            Property::CTime(f) => PropertyView::CTime(f.fmt@),
            Property::Md5Sum(_) => PropertyView::Md5Sum,
            Property::MTime(f) => PropertyView::MTime(f.fmt@),
        }
    }
}

impl Property {
    pub fn into_owned(self) -> (r: Property)
        ensures
            r@ == self@,
    {
        self
    }
}

/// What a substitution substitutes: a capture or a property.
#[derive(Debug)]
pub enum Subject {
    Capture(Capture),
    Property(Property),
}

pub enum SubjectView {
    Capture(IdentifierView, Option<ConditionView>),
    Property(PropertyView),
}

impl View for Subject {
    type V = SubjectView;

    open spec fn view(&self) -> SubjectView {
        match self {
            Subject::Capture(c) => SubjectView::Capture(c.identifier@, condition_option_view(c.condition)),
            Subject::Property(p) => SubjectView::Property(p@),
        }
    }
}

impl Subject {
    pub fn into_owned(self) -> (r: Subject)
        ensures
            r@ == self@,
    {
        self
    }
}

/// A substitution: its subject and the formatters applied to its text, in
/// order.
#[derive(Debug)]
pub struct Substitution {
    pub subject: Subject,
    pub formatters: Vec<TextFormatter>,
}

impl Substitution {
    pub fn into_owned(self) -> (r: Substitution)
        ensures
            r.subject@ == self.subject@,
            formatters_view(r.formatters@) == formatters_view(self.formatters@),
    {
        self
    }
}

/// A token of a to-pattern.
#[derive(Debug)]
pub enum Token {
    Literal(String),
    Substitution(Substitution),
}

pub enum TokenView {
    Literal(Seq<char>),
    Substitution(SubjectView, Seq<TextFormatterView>),
}

impl View for Token {
    type V = TokenView;

    open spec fn view(&self) -> TokenView {
        match self {
            Token::Literal(l) => TokenView::Literal(l@),
            Token::Substitution(s) => TokenView::Substitution(s.subject@, formatters_view(s.formatters@)),
        }
    }
}

impl Token {
    pub fn into_owned(self) -> (r: Token)
        ensures
            r@ == self@,
    {
        self
    }
}

pub open spec fn tokens_view(ts: Seq<Token>) -> Seq<TokenView> {
    ts.map_values(|t: Token| t@)
}

} // verus!
