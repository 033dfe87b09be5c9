use nym::glob::capture::Captures;
use nym::pattern::to::token::{Digest, DigestFormat, Property, PropertyFormat};
use nym::pattern::to::ToPattern;
use nym::pattern::PatternError;

#[test]
fn mod_parse_to_pattern() {
    ToPattern::parse("{}").unwrap();
    ToPattern::parse("{#1}").unwrap();
    ToPattern::parse("literal{#1}").unwrap();
    ToPattern::parse("{#1}literal").unwrap();
}

#[test]
fn mod_parse_to_pattern_condition() {
    ToPattern::parse("{#1?:}").unwrap();
    ToPattern::parse("{#1?[some]:}").unwrap();
    ToPattern::parse("{#1?[]:}").unwrap();
    ToPattern::parse("{#1?[prefix],[postfix]:}").unwrap();
    ToPattern::parse("{#1?:[none]}").unwrap();
    ToPattern::parse("{#1?[],[-]:[none]}").unwrap();
}

#[test]
fn mod_parse_to_pattern_formatter() {
    ToPattern::parse("{#1|>4[0]}").unwrap();
    ToPattern::parse("{#1|u}").unwrap();
    ToPattern::parse("{#1|<2[ ],l}").unwrap();
}

#[test]
fn parse_to_pattern_condition_formatter() {
    ToPattern::parse("{#1?[prefix],[postfix]:[none]|>4[0]}").unwrap();
}

#[test]
fn parse_to_pattern_with_escaped_literal() {
    ToPattern::parse("a/b/file\\{0\\}.ext").unwrap();
    ToPattern::parse("a/b/file\\[0\\].ext").unwrap();
    // NOTE: Escaping square brackets is not necessary in literals.
    ToPattern::parse("a/b/file[0].ext").unwrap();
}

#[test]
fn parse_to_pattern_with_escaped_argument() {
    ToPattern::parse("{#1?[\\[\\]]:}").unwrap();
    // NOTE: Escaping curly braces is not necessary in arguments.
    ToPattern::parse("{#1?[{}]:[\\{\\}]}").unwrap();
    ToPattern::parse("{@[capture\\[0\\]]}").unwrap();
}

#[test]
fn mod_reject_to_pattern_with_empty_case_surround() {
    assert!(ToPattern::parse("{#1?:[prefix],[postfix]}").is_err());
}

#[test]
fn mod_reject_to_pattern_out_of_order() {
    assert!(ToPattern::parse("{#1|u?:}").is_err());
}

#[test]
fn to_parse_to_pattern() {
    ToPattern::parse("{}").unwrap();
    ToPattern::parse("{#1}").unwrap();
    ToPattern::parse("literal{#1}").unwrap();
    ToPattern::parse("{#1}literal").unwrap();
}

#[test]
fn to_parse_to_pattern_condition() {
    ToPattern::parse("{#1?:}").unwrap();
    ToPattern::parse("{#1?[yes]:}").unwrap();
    ToPattern::parse("{#1?[]:}").unwrap();
    ToPattern::parse("{#1?[prefix],[postfix]:}").unwrap();
    ToPattern::parse("{#1?:[no]}").unwrap();
    ToPattern::parse("{#1?[],[-]:[no]}").unwrap();
}

#[test]
fn to_parse_to_pattern_formatter() {
    ToPattern::parse("{#1|>4[0]}").unwrap();
    ToPattern::parse("{#1|u}").unwrap();
    ToPattern::parse("{#1|<2[ ],l}").unwrap();
}

#[test]
fn to_reject_to_pattern_with_empty_case_surround() {
    assert!(ToPattern::parse("{#1?:[prefix],[postfix]}").is_err());
}

#[test]
fn to_reject_to_pattern_out_of_order() {
    assert!(ToPattern::parse("{#1|u?:}").is_err());
}

#[test]
fn reject_empty_and_unbalanced_to_patterns() {
    assert_eq!(ToPattern::parse("").unwrap_err(), PatternError::Parse);
    assert_eq!(ToPattern::parse("}").unwrap_err(), PatternError::Parse);
    assert_eq!(ToPattern::parse("{#1").unwrap_err(), PatternError::Parse);
    assert_eq!(ToPattern::parse("a\\x").unwrap_err(), PatternError::Parse);
    assert_eq!(ToPattern::parse("{#99999999999999999999999}").unwrap_err(), PatternError::Parse);
    assert_eq!(ToPattern::parse("{#1|}").is_ok(), true);
    assert_eq!(ToPattern::parse("{#1|u,}").is_err(), true);
}

fn captures(text: &str, groups: Vec<Option<(usize, usize)>>) -> Captures {
    Captures::from_groups(text.as_bytes().to_vec(), groups)
}

#[test]
fn resolve_literals_and_captures() {
    let pattern = ToPattern::parse("out/{#1}-{}.txt").unwrap();
    let caps = captures("ab.c", vec![Some((0, 4)), Some((0, 2))]);
    assert_eq!(pattern.resolve(&caps, &vec![]).unwrap(), "out/ab-ab.c.txt");
}

#[test]
fn resolve_conditions_on_empty_and_non_empty_captures() {
    let pattern = ToPattern::parse("{#1?[<],[>]:[none]}{#2?[set]:[unset]}{#3?:[gone]}").unwrap();
    let caps = captures("xy", vec![Some((0, 2)), Some((0, 1)), Some((1, 1)), None]);
    assert_eq!(pattern.resolve(&caps, &vec![]).unwrap(), "<x>unsetgone");
}

#[test]
fn resolve_missing_and_named_captures_as_empty() {
    let pattern = ToPattern::parse("[{#7}][{@[name]}]").unwrap();
    let caps = captures("x", vec![Some((0, 1))]);
    assert_eq!(pattern.resolve(&caps, &vec![]).unwrap(), "[][]");
}

#[test]
fn resolve_formatters_in_order() {
    let pattern = ToPattern::parse("{#1|%[-][ ],title}.mp4").unwrap();
    let text = "the-show-title_the-episode-title_the-encoding";
    let caps = captures(text, vec![Some((0, text.len())), Some((15, 32))]);
    assert_eq!(pattern.resolve(&caps, &vec![]).unwrap(), "The Episode Title.mp4");

    let pattern = ToPattern::parse("{#1|>4[0]}|{#1|upper}|{#1|LOWER}|{#1|<4[\\]]}").unwrap();
    let caps = captures("aB", vec![Some((0, 2)), Some((0, 2))]);
    assert_eq!(pattern.resolve(&caps, &vec![]).unwrap(), "00aB|AB|ab|aB]]");
}

#[test]
fn resolve_invalid_utf8_capture_fails_with_encoding() {
    let pattern = ToPattern::parse("x{#1}").unwrap();
    let caps = Captures::from_groups(vec![0xff, 0xfe], vec![Some((0, 2)), Some((0, 2))]);
    assert_eq!(pattern.resolve(&caps, &vec![]).unwrap_err(), PatternError::Encoding);
}

#[test]
fn resolve_properties_in_order_of_appearance() {
    let pattern = ToPattern::parse("{!b3sum|<3[x]}-{!MTIME:[%Y]}").unwrap();
    let caps = captures("a", vec![Some((0, 1))]);
    let props = vec![Some("ab".to_string()), Some("2024".to_string())];
    assert_eq!(pattern.resolve(&caps, &props).unwrap(), "abx-2024");
    let props = vec![Some("ab".to_string()), None];
    assert_eq!(pattern.resolve(&caps, &props).unwrap_err(), PatternError::Property);
    assert_eq!(pattern.resolve(&caps, &vec![]).unwrap_err(), PatternError::Property);
}

#[test]
fn digests_format_as_lowercase_hexadecimal() {
    let b3 = Digest::b3sum(b"abc");
    assert_eq!(
        b3.fmt(&DigestFormat::Hexadecimal),
        "6437b3ac38465133ffb63b75273a8db548c558465d79db03fd359c6cd5bd9d85"
    );
    let md5 = Digest::md5sum(b"abc");
    assert_eq!(md5.fmt(&DigestFormat::Hexadecimal), "900150983cd24fb0d6963f7d28e17f72");
}

#[test]
fn readme_condition_examples() {
    let pattern = ToPattern::parse("{#1?[],[-]:}x").unwrap();
    let caps = captures("ab", vec![Some((0, 2)), Some((0, 2))]);
    assert_eq!(pattern.resolve(&caps, &vec![]).unwrap(), "ab-x");
    let caps = captures("ab", vec![Some((0, 2)), None]);
    assert_eq!(pattern.resolve(&caps, &vec![]).unwrap(), "x");

    let pattern = ToPattern::parse("{#1?:[unknown]}").unwrap();
    assert_eq!(pattern.resolve(&caps, &vec![]).unwrap(), "unknown");
}

#[test]
fn readme_pad_example() {
    let pattern = ToPattern::parse("{#1|>4[0]}").unwrap();
    let caps = captures("13", vec![Some((0, 2)), Some((0, 2))]);
    assert_eq!(pattern.resolve(&caps, &vec![]).unwrap(), "0013");
}

#[test]
fn literal_patterns_resolve_as_written() {
    let pattern = ToPattern::parse("a/b\\{c\\}.txt").unwrap();
    let caps = captures("zz", vec![Some((0, 2))]);
    assert_eq!(pattern.resolve(&caps, &vec![None]).unwrap(), "a/b{c}.txt");
    assert_eq!(pattern.tokens().len(), 1);
}

#[test]
fn properties_are_listed_in_order_of_appearance() {
    let pattern = ToPattern::parse("{!mtime}-{#1}-{!B3SUM}-{!ctime:[%Y]}").unwrap();
    let properties = pattern.properties();
    assert_eq!(properties.len(), 3);
    assert!(matches!(properties[0], Property::MTime(f) if f.fmt == "%F-%X"));
    assert!(matches!(properties[1], Property::B3Sum(_)));
    assert!(matches!(properties[2], Property::CTime(f) if f.fmt == "%Y"));
}

#[test]
fn patterns_parse_from_text() {
    let glob: nym::glob::Glob = "a/*".parse().unwrap();
    assert!(glob.is_match("a/b"));
    let to: ToPattern = "{}.bak".parse().unwrap();
    assert_eq!(to.tokens().len(), 2);
    assert!("{".parse::<ToPattern>().is_err());
    let simple: nym::pattern::Pattern = "a{#1}".parse().unwrap();
    assert_eq!(simple.components().len(), 2);
}
