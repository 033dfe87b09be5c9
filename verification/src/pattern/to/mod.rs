//! To-patterns: the text of a destination path, with substitutions of the
//! source's captures and properties.

use vstd::prelude::*;

use crate::glob::capture::{Captures, group_text};
use crate::pattern::PatternError;
use crate::pattern::to::grammar::{parse_spec, parse_tokens};
use crate::pattern::to::token::{
    Condition, ConditionView, Identifier, IdentifierView, NonEmptyCase, NonEmptyCaseView,
    Property, PropertyView, Subject, SubjectView, Substitution, TextFormatter, TextFormatterView,
    Token, TokenView, condition_option_view, formatters_view, tokens_view,
};
use crate::text::{
    coalesce, coalesced, copy_str, display_width, is_empty_str, lowercase, pad, padded, push_str,
    titlecase, to_lowercase, to_titlecase, to_uppercase, uppercase, utf8_decode,
};

pub mod grammar;
pub mod token;

verus! {

/// A to-pattern: the tokens of the destination text.
#[derive(Debug)]
pub struct ToPattern {
    tokens: Vec<Token>,
}

impl View for ToPattern {
    type V = Seq<TokenView>;

    closed spec fn view(&self) -> Seq<TokenView> {
        tokens_view(self.tokens@)
    }
}

/// Text under a condition: the empty case where the text is empty, the
/// non-empty case (the text between a prefix and a postfix, or a literal)
/// where it is not, and the text itself where the condition has no such case.
pub open spec fn condition_text(text: Seq<char>, condition: Option<ConditionView>) -> Seq<char> {
    match condition {
        None => text,
        Some(c) => if text.len() == 0 {
            match c.empty {
                Some(e) => e,
                None => text,
            }
        } else {
            match c.non_empty {
                Some(NonEmptyCaseView::Surround(prefix, postfix)) => prefix + text + postfix,
                Some(NonEmptyCaseView::Literal(literal)) => literal,
                None => text,
            }
        },
    }
}

/// Text after one formatter.
pub open spec fn format_text(text: Seq<char>, f: TextFormatterView) -> Seq<char> {
    match f {
        TextFormatterView::Coalesce(from, to) => coalesced(text, from, to),
        TextFormatterView::Pad(shim, alignment, width) => padded(
            text,
            shim,
            alignment,
            width as nat,
            display_width(text) as nat,
        ),
        TextFormatterView::Lower => lowercase(text),
        TextFormatterView::Title => titlecase(text),
        TextFormatterView::Upper => uppercase(text),
    }
}

/// Text after the formatters, applied from first to last.
pub open spec fn formatted(text: Seq<char>, fs: Seq<TextFormatterView>) -> Seq<char>
    decreases fs.len(),
{
    if fs.len() == 0 {
        text
    } else {
        format_text(formatted(text, fs.drop_last()), fs.last())
    }
}

/// The text of a substitution: the condition first, then the formatters.
pub open spec fn substituted(text: Seq<char>, condition: Option<ConditionView>, fs: Seq<TextFormatterView>) -> Seq<char> {
    formatted(condition_text(text, condition), fs)
}

fn apply_condition(text: String, condition: &Option<Condition>) -> (r: String)
    ensures
        r@ == condition_text(text@, condition_option_view(*condition)),
{
    match condition {
        None => text,
        Some(c) => if is_empty_str(text.as_str()) {
            match &c.empty {
                Some(e) => copy_str(e.0.as_str()),
                None => text,
            }
        } else {
            match &c.non_empty {
                Some(NonEmptyCase::Surround { prefix, postfix }) => {
                    let mut out = copy_str(prefix.as_str());
                    push_str(&mut out, text.as_str());
                    push_str(&mut out, postfix.as_str());
                    out
                },
                Some(NonEmptyCase::Literal(literal)) => copy_str(literal.as_str()),
                None => text,
            }
        },
    }
}

fn apply_formatter(text: String, f: &TextFormatter) -> (r: String)
    ensures
        r@ == format_text(text@, f@),
{
    match f {
        TextFormatter::Coalesce { from, to } => coalesce(text.as_str(), from.as_slice(), *to),
        TextFormatter::Pad { shim, alignment, width } => pad(text.as_str(), *shim, *alignment, *width),
        TextFormatter::Lower => to_lowercase(text.as_str()),
        TextFormatter::Title => to_titlecase(text.as_str()),
        TextFormatter::Upper => to_uppercase(text.as_str()),
    }
}

/// Applies a condition and then formatters, in order, to the text of a
/// substitution.
pub fn substitute(text: String, condition: &Option<Condition>, formatters: &Vec<TextFormatter>) -> (r: String)
    ensures
        r@ == substituted(text@, condition_option_view(*condition), formatters_view(formatters@)),
{
    let mut out = apply_condition(text, condition);
    let ghost start = out@;
    let mut i: usize = 0;
    while i < formatters.len()
        invariant
            i <= formatters@.len(),
            start == condition_text(text@, condition_option_view(*condition)),
            out@ == formatted(start, formatters_view(formatters@).take(i as int)),
        decreases formatters@.len() - i,
    {
        proof {
            let fs = formatters_view(formatters@);
            assert(fs.take(i as int + 1).drop_last() =~= fs.take(i as int));
            assert(fs.take(i as int + 1).last() == formatters@[i as int]@);
        }
        out = apply_formatter(out, &formatters[i]);
        i = i + 1;
    }
    proof {
        assert(formatters_view(formatters@).take(formatters@.len() as int) =~= formatters_view(formatters@));
    }
    out
}

} // verus!

verus! {

/// `true` for a property substitution.
pub open spec fn is_property(t: TokenView) -> bool {
    t matches TokenView::Substitution(SubjectView::Property(_), _)
}

/// The number of property substitutions among tokens.
pub open spec fn property_count(ts: Seq<TokenView>) -> nat
    decreases ts.len(),
{
    if ts.len() == 0 {
        0
    } else {
        property_count(ts.drop_last()) + if is_property(ts.last()) {
            1nat
        } else {
            0nat
        }
    }
}

/// The text of the property substitution at position `p` among those of the
/// pattern, or `None` where it could not be read.
pub open spec fn property_text(props: Seq<Option<Seq<char>>>, p: int) -> Option<Seq<char>> {
    if 0 <= p < props.len() {
        props[p]
    } else {
        None
    }
}

/// The views of property texts.
pub open spec fn properties_view(props: Seq<Option<String>>) -> Seq<Option<Seq<char>>> {
    props.map_values(|o: Option<String>| match o {
        Some(s) => Some(s@),
        None => None,
    })
}

/// The bytes that a capture identifies: empty where the group is not in the
/// match, did not take part in it, or is named.
pub open spec fn capture_bytes(text: Seq<u8>, groups: Seq<Option<(usize, usize)>>, id: IdentifierView) -> Seq<u8> {
    match id {
        IdentifierView::Index(i) => match group_text(text, groups, i as int) {
            Some(b) => b,
            None => Seq::empty(),
        },
        IdentifierView::Name(_) => Seq::empty(),
    }
}

/// The text of one token, where `p` is the number of property substitutions
/// before it.
pub open spec fn token_text(
    t: TokenView,
    text: Seq<u8>,
    groups: Seq<Option<(usize, usize)>>,
    props: Seq<Option<Seq<char>>>,
    p: int,
) -> Result<Seq<char>, PatternError> {
    match t {
        TokenView::Literal(l) => Ok(l),
        TokenView::Substitution(SubjectView::Capture(id, cond), fs) => {
            let b = capture_bytes(text, groups, id);
            if b.len() == 0 {
                Ok(substituted(Seq::empty(), cond, fs))
            } else if vstd::utf8::valid_utf8(b) {
                Ok(substituted(vstd::utf8::decode_utf8(b), cond, fs))
            } else {
                Err(PatternError::Encoding)
            }
        },
        TokenView::Substitution(SubjectView::Property(_), fs) => match property_text(props, p) {
            Some(t) => Ok(substituted(t, None, fs)),
            None => Err(PatternError::Property),
        },
    }
}

/// The resolved text of tokens: their texts in order, or the error of the
/// first token that has none.
pub open spec fn resolved(
    ts: Seq<TokenView>,
    text: Seq<u8>,
    groups: Seq<Option<(usize, usize)>>,
    props: Seq<Option<Seq<char>>>,
) -> Result<Seq<char>, PatternError>
    decreases ts.len(),
{
    if ts.len() == 0 {
        Ok(Seq::empty())
    } else {
        match resolved(ts.drop_last(), text, groups, props) {
            Ok(prefix) => match token_text(ts.last(), text, groups, props, property_count(ts.drop_last()) as int) {
                Ok(t) => Ok(prefix + t),
                Err(e) => Err(e),
            },
            Err(e) => Err(e),
        }
    }
}

fn token_text_exec(
    t: &Token,
    captures: &Captures,
    properties: &Vec<Option<String>>,
    p: usize,
) -> (r: Result<String, PatternError>)
    ensures
        r matches Ok(s) ==> token_text(t@, captures.text_spec(), captures.groups_spec(), properties_view(properties@), p as int) == Ok::<Seq<char>, PatternError>(s@),
        r matches Err(e) ==> token_text(t@, captures.text_spec(), captures.groups_spec(), properties_view(properties@), p as int) == Err::<Seq<char>, PatternError>(e),
{
    match t {
        Token::Literal(l) => Ok(l.clone()),
        Token::Substitution(Substitution { subject: Subject::Capture(capture), formatters }) => {
            let bytes: Option<&[u8]> = match &capture.identifier {
                Identifier::Index(index) => captures.get(*index),
                Identifier::Name(_) => None,
            };
            let text = match bytes {
                Some(b) => if b.len() == 0 {
                    String::new()
                } else {
                    match utf8_decode(b) {
                        Some(s) => s,
                        None => {
                            return Err(PatternError::Encoding);
                        },
                    }
                },
                None => String::new(),
            };
            Ok(substitute(text, &capture.condition, formatters))
        },
        Token::Substitution(Substitution { subject: Subject::Property(_), formatters }) => {
            proof {
                assert(properties_view(properties@).len() == properties@.len());
            }
            if p < properties.len() {
                match &properties[p] {
                    Some(s) => Ok(substitute(s.clone(), &None, formatters)),
                    None => Err(PatternError::Property),
                }
            } else {
                Err(PatternError::Property)
            }
        },
    }
}

impl ToPattern {
    /// Parses a to-pattern. Fails with `PatternError::Parse` exactly where the
    /// text is empty or is not a sequence of tokens.
    pub fn parse(text: &str) -> (r: Result<ToPattern, PatternError>)
        ensures
            match r {
                Ok(p) => parse_spec(text@) == Some(p@),
                Err(e) => parse_spec(text@) is None && e == PatternError::Parse,
            },
    {
        match parse_tokens(text) {
            Some(tokens) => Ok(ToPattern { tokens }),
            None => Err(PatternError::Parse),
        }
    }

    /// This pattern, owning its text.
    pub fn into_owned(self) -> (r: ToPattern)
        ensures
            r@ == self@,
    {
        self
    }

    /// The tokens of the pattern, in order.
    pub fn tokens(&self) -> (r: &Vec<Token>)
        ensures
            tokens_view(r@) == self@,
    {
        &self.tokens
    }

    /// Resolves the pattern against the captures of a source path and the
    /// texts of the pattern's property substitutions (in the order in which
    /// they appear; `None` where a property could not be read).
    ///
    /// Literal text is copied; a capture substitution takes the text of its
    /// capture (empty where the capture did not take part in the match or is
    /// named), applies its condition and then its formatters; a property
    /// substitution applies its formatters to the property's text. Fails at
    /// the first substitution whose capture is not UTF-8 or whose property
    /// could not be read.
    pub fn resolve(&self, captures: &Captures, properties: &Vec<Option<String>>) -> (r: Result<String, PatternError>)
        ensures
            r matches Ok(s) ==> resolved(self@, captures.text_spec(), captures.groups_spec(), properties_view(properties@)) == Ok::<Seq<char>, PatternError>(s@),
            r matches Err(e) ==> resolved(self@, captures.text_spec(), captures.groups_spec(), properties_view(properties@)) == Err::<Seq<char>, PatternError>(e),
    {
        let ghost ts = self@;
        let ghost text = captures.text_spec();
        let ghost groups = captures.groups_spec();
        let ghost props = properties_view(properties@);
        let mut out = String::new();
        let mut p: usize = 0;
        let mut k: usize = 0;
        proof {
            assert(ts.take(0) =~= Seq::empty());
        }
        while k < self.tokens.len()
            invariant
                k <= self.tokens@.len(),
                ts == tokens_view(self.tokens@),
                ts.len() == self.tokens@.len(),
                text == captures.text_spec(),
                groups == captures.groups_spec(),
                props == properties_view(properties@),
                p as nat == property_count(ts.take(k as int)),
                p <= k,
                resolved(ts.take(k as int), text, groups, props) == Ok::<Seq<char>, PatternError>(out@),
            decreases self.tokens@.len() - k,
        {
            let t = &self.tokens[k];
            proof {
                assert(ts.take(k as int + 1).drop_last() =~= ts.take(k as int));
                assert(ts.take(k as int + 1).last() == t@);
            }
            match token_text_exec(t, captures, properties, p) {
                Ok(s) => {
                    push_str(&mut out, s.as_str());
                },
                Err(e) => {
                    proof {
                        lemma_resolved_error_stays(ts, text, groups, props, k as int + 1);
                    }
                    return Err(e);
                },
            }
            if let Token::Substitution(Substitution { subject: Subject::Property(_), formatters: _ }) = t {
                p = p + 1;
            }
            k = k + 1;
        }
        proof {
            assert(ts.take(k as int) =~= ts);
        }
        Ok(out)
    }
}

impl std::str::FromStr for ToPattern {
    type Err = PatternError;

    fn from_str(text: &str) -> (r: Result<ToPattern, PatternError>)
        ensures
            match r {
                Ok(p) => parse_spec(text@) == Some(p@),
                Err(e) => parse_spec(text@) is None && e == PatternError::Parse,
            },
    {
        ToPattern::parse(text)
    }
}

/// An error in the first `k` tokens is the error of all of them.
proof fn lemma_resolved_error_stays(
    ts: Seq<TokenView>,
    text: Seq<u8>,
    groups: Seq<Option<(usize, usize)>>,
    props: Seq<Option<Seq<char>>>,
    k: int,
)
    requires
        0 <= k <= ts.len(),
        resolved(ts.take(k), text, groups, props) is Err,
    ensures
        resolved(ts, text, groups, props) == resolved(ts.take(k), text, groups, props),
    decreases ts.len() - k,
{
    if k < ts.len() {
        assert(ts.take(k + 1).drop_last() =~= ts.take(k));
        lemma_resolved_error_stays(ts, text, groups, props, k + 1);
    } else {
        assert(ts.take(k) =~= ts);
    }
}

} // verus!

verus! {

/// `true` when every token is literal text.
pub open spec fn all_literal(ts: Seq<TokenView>) -> bool {
    forall|i: int| 0 <= i < ts.len() ==> #[trigger] ts[i] is Literal
}

/// The text of the literal tokens, in order.
pub open spec fn literal_concat(ts: Seq<TokenView>) -> Seq<char>
    decreases ts.len(),
{
    if ts.len() == 0 {
        Seq::empty()
    } else {
        literal_concat(ts.drop_last()) + match ts.last() {
            TokenView::Literal(l) => l,
            _ => Seq::empty(),
        }
    }
}

/// The resolved text of a pattern that is one capture substitution under a
/// condition, without formatters.
pub open spec fn conditioned_capture(
    id: IdentifierView,
    non_empty: Option<NonEmptyCaseView>,
    empty: Option<Seq<char>>,
    text: Seq<u8>,
    groups: Seq<Option<(usize, usize)>>,
    props: Seq<Option<Seq<char>>>,
) -> Result<Seq<char>, PatternError> {
    resolved(
        seq![
            TokenView::Substitution(
                SubjectView::Capture(id, Some(ConditionView { non_empty, empty })),
                Seq::empty(),
            ),
        ],
        text,
        groups,
        props,
    )
}

/// A condition chooses the text of a capture by whether the captured text is
/// empty. Captured text that is not empty becomes the literal of the
/// non-empty case in its place (whatever the captured text was), or the
/// captured text between the prefix and the postfix of that case, or stays as
/// it is where there is no such case. Empty captured text becomes the text of
/// the empty case, or stays empty where there is none.
pub proof fn lemma_condition_chooses_case(
    id: IdentifierView,
    non_empty: Option<NonEmptyCaseView>,
    empty: Option<Seq<char>>,
    text: Seq<u8>,
    groups: Seq<Option<(usize, usize)>>,
    props: Seq<Option<Seq<char>>>,
)
    ensures
        ({
            let b = capture_bytes(text, groups, id);
            let r = conditioned_capture(id, non_empty, empty, text, groups, props);
            &&& (b.len() > 0 && vstd::utf8::valid_utf8(b)) ==> match non_empty {
                Some(NonEmptyCaseView::Literal(l)) => r == Ok::<Seq<char>, PatternError>(l),
                Some(NonEmptyCaseView::Surround(p, q)) => r == Ok::<Seq<char>, PatternError>(
                    p + vstd::utf8::decode_utf8(b) + q,
                ),
                None => r == Ok::<Seq<char>, PatternError>(vstd::utf8::decode_utf8(b)),
            }
            &&& (b.len() > 0 && !vstd::utf8::valid_utf8(b)) ==> r == Err::<Seq<char>, PatternError>(
                PatternError::Encoding,
            )
            &&& b.len() == 0 ==> match empty {
                Some(e) => r == Ok::<Seq<char>, PatternError>(e),
                None => r == Ok::<Seq<char>, PatternError>(Seq::empty()),
            }
        }),
{
    let ts = seq![
        TokenView::Substitution(
            SubjectView::Capture(id, Some(ConditionView { non_empty, empty })),
            Seq::<TextFormatterView>::empty(),
        ),
    ];
    let b = capture_bytes(text, groups, id);
    assert(ts.drop_last() =~= Seq::<TokenView>::empty());
    assert(resolved(ts.drop_last(), text, groups, props) == Ok::<Seq<char>, PatternError>(Seq::empty()));
    let tt = token_text(ts.last(), text, groups, props, 0);
    assert(property_count(ts.drop_last()) == 0);
    if let Ok(x) = tt {
        assert(Seq::<char>::empty() + x =~= x);
    }
    if b.len() > 0 && vstd::utf8::valid_utf8(b) {
        let d = vstd::utf8::decode_utf8(b);
        assert(d.len() > 0) by {
            vstd::utf8::decode_utf8_encode_utf8(b);
            if d.len() == 0 {
                assert(d =~= Seq::<char>::empty());
            }
        }
        assert(formatted(condition_text(d, Some(ConditionView { non_empty, empty })), Seq::empty())
            == condition_text(d, Some(ConditionView { non_empty, empty })));
    }
    if b.len() == 0 {
        assert(formatted(condition_text(Seq::empty(), Some(ConditionView { non_empty, empty })), Seq::empty())
            == condition_text(Seq::empty(), Some(ConditionView { non_empty, empty })));
    }
}

/// Literals form the destination as they are: a pattern of literal text
/// alone resolves to that text, whatever the captures and properties.
pub proof fn lemma_literals_resolve_as_is(
    ts: Seq<TokenView>,
    text: Seq<u8>,
    groups: Seq<Option<(usize, usize)>>,
    props: Seq<Option<Seq<char>>>,
)
    requires
        all_literal(ts),
    ensures
        resolved(ts, text, groups, props) == Ok::<Seq<char>, PatternError>(literal_concat(ts)),
    decreases ts.len(),
{
    if ts.len() > 0 {
        let rest = ts.drop_last();
        assert forall|i: int| 0 <= i < rest.len() implies #[trigger] rest[i] is Literal by {
            assert(rest[i] == ts[i]);
        }
        lemma_literals_resolve_as_is(rest, text, groups, props);
        assert(ts[ts.len() - 1] is Literal);
    }
}

} // verus!

verus! {

/// Formatters apply from left to right: applying a list of formatters is
/// applying its first part and then its second.
pub proof fn lemma_formatters_compose(text: Seq<char>, first: Seq<TextFormatterView>, second: Seq<TextFormatterView>)
    ensures
        formatted(text, first + second) == formatted(formatted(text, first), second),
    decreases second.len(),
{
    if second.len() == 0 {
        assert(first + second =~= first);
    } else {
        assert((first + second).drop_last() =~= first + second.drop_last());
        assert((first + second).last() == second.last());
        lemma_formatters_compose(text, first, second.drop_last());
    }
}

} // verus!

verus! {

/// The properties of the property substitutions among tokens, in order.
pub open spec fn properties_of(ts: Seq<TokenView>) -> Seq<PropertyView>
    decreases ts.len(),
{
    if ts.len() == 0 {
        Seq::empty()
    } else {
        let before = properties_of(ts.drop_last());
        match ts.last() {
            TokenView::Substitution(SubjectView::Property(p), _) => before.push(p),
            _ => before,
        }
    }
}

proof fn lemma_properties_count(ts: Seq<TokenView>)
    ensures
        properties_of(ts).len() == property_count(ts),
    decreases ts.len(),
{
    if ts.len() > 0 {
        lemma_properties_count(ts.drop_last());
    }
}

impl ToPattern {
    /// The properties of the pattern's property substitutions, in the order
    /// in which they appear: the order in which `resolve` takes their texts.
    pub fn properties(&self) -> (r: Vec<&Property>)
        ensures
            r@.map_values(|p: &Property| p@) == properties_of(self@),
            r@.len() == property_count(self@),
    {
        let ghost ts = self@;
        let mut out: Vec<&Property> = Vec::new();
        let mut k: usize = 0;
        proof {
            assert(ts.take(0) =~= Seq::<TokenView>::empty());
            assert(out@.map_values(|p: &Property| p@) =~= Seq::<PropertyView>::empty());
        }
        while k < self.tokens.len()
            invariant
                k <= self.tokens@.len(),
                ts == tokens_view(self.tokens@),
                ts.len() == self.tokens@.len(),
                out@.map_values(|p: &Property| p@) == properties_of(ts.take(k as int)),
            decreases self.tokens@.len() - k,
        {
            let t = &self.tokens[k];
            proof {
                assert(ts.take(k as int + 1).drop_last() =~= ts.take(k as int));
                assert(ts.take(k as int + 1).last() == t@);
            }
            if let Token::Substitution(Substitution { subject: Subject::Property(p), formatters: _ }) = t {
                proof {
                    assert(out@.push(p).map_values(|p: &Property| p@) =~= out@.map_values(|p: &Property| p@).push(p@));
                }
                out.push(p);
            }
            k = k + 1;
        }
        proof {
            assert(ts.take(k as int) =~= ts);
            lemma_properties_count(ts);
            assert(out@.len() == out@.map_values(|p: &Property| p@).len());
        }
        out
    }
}

} // verus!
