use nym::glob::read::Selection;
use nym::glob::{BytePath, Glob};
use nym::pattern::from::FromPattern;

fn components(path: &str) -> Vec<Vec<u8>> {
    path.split('/')
        .filter(|c| !c.is_empty())
        .map(|c| c.as_bytes().to_vec())
        .collect()
}

fn select(glob: &Glob, path: &str, is_dir: bool) -> Selection {
    glob.read().select(&components(path), &BytePath::from_path(path), is_dir, !is_dir)
}

#[test]
fn read_yields_matching_files_with_captures() {
    let glob = Glob::new("src/*.rs").unwrap();
    match select(&glob, "src/main.rs", false) {
        Selection::Yield(captures) => assert_eq!(captures.get(1).unwrap(), b"main"),
        _ => panic!("expected a match"),
    }
}

#[test]
fn read_prunes_directories_whose_first_component_fails() {
    let glob = Glob::new("src/*.rs").unwrap();
    assert!(matches!(select(&glob, "doc", true), Selection::SkipDirectory));
    assert!(matches!(select(&glob, "doc/x.rs", false), Selection::Skip));
}

#[test]
fn read_descends_into_matching_directories() {
    let glob = Glob::new("src/*.rs").unwrap();
    // The directory itself is not a match, but its tree is not pruned.
    assert!(matches!(select(&glob, "src", true), Selection::Skip));
    assert!(matches!(select(&glob, "src/lib.txt", false), Selection::Skip));
}

#[test]
fn read_stops_component_filters_at_tree_wildcards() {
    let glob = Glob::new("a/**/b.txt").unwrap();
    assert!(matches!(select(&glob, "a/x/y/b.txt", false), Selection::Yield(_)));
    assert!(matches!(select(&glob, "c", true), Selection::SkipDirectory));
}

#[test]
fn from_pattern_reads_files_only() {
    let from = FromPattern::new("a/*").unwrap();
    assert_eq!(from.prefix().as_str(), "a");
    let read = from.read();
    let path = BytePath::from_path("x");
    assert!(matches!(read.select(&components("x"), &path, false, true), Selection::Yield(_)));
    assert!(matches!(read.select(&components("x"), &path, true, false), Selection::Skip));
}

#[test]
fn from_pattern_detects_semantic_literals() {
    assert!(FromPattern::new("*/../*.rs").unwrap().has_semantic_literals());
    assert!(FromPattern::new("*/./x").unwrap().has_semantic_literals());
    assert!(!FromPattern::new("../*.rs").unwrap().has_semantic_literals());
    assert!(!FromPattern::new("*/.../x").unwrap().has_semantic_literals());
    let from = FromPattern::from_glob(Glob::new("x/*").unwrap());
    assert_eq!(from.prefix().as_str(), "");
}
