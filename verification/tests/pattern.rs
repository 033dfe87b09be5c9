use nym::pattern::{Capture, Component, Pattern, PatternError};

fn describe(text: &str) -> Vec<String> {
    Pattern::parse(text)
        .unwrap()
        .components()
        .iter()
        .map(|c| match c {
            Component::Literal(l) => format!("literal {}", l),
            Component::Capture(Capture::Index(i)) => format!("index {}", i),
            Component::Capture(Capture::Name(n)) => format!("name {}", n),
        })
        .collect()
}

#[test]
fn simple_patterns_hold_literals_and_captures() {
    assert_eq!(describe("a{#1}b"), vec!["literal a", "index 1", "literal b"]);
    assert_eq!(describe("{ }.bak"), vec!["index 0", "literal .bak"]);
    assert_eq!(describe("x/{@stem2}"), vec!["literal x/", "name stem2"]);
    assert_eq!(describe("a}b"), vec!["literal a}b"]);
}

#[test]
fn simple_patterns_reject_what_they_do_not_support() {
    assert_eq!(Pattern::parse("").unwrap_err(), PatternError::Parse);
    assert_eq!(Pattern::parse("{}").unwrap_err(), PatternError::Parse);
    assert_eq!(Pattern::parse("{#x}").unwrap_err(), PatternError::Parse);
    assert_eq!(Pattern::parse("{@}").unwrap_err(), PatternError::Parse);
    assert_eq!(Pattern::parse("a{#1").unwrap_err(), PatternError::Parse);
}

#[test]
fn simple_pattern_owned_keeps_its_components() {
    let pattern = Pattern::parse("a{#2}").unwrap().into_owned();
    assert_eq!(pattern.components().len(), 2);
}
