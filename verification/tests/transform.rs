use nym::environment::{Environment, Policy};
use nym::glob::read::Selection;
use nym::glob::BytePath;
use nym::manifest::Manifest;
use nym::pattern::from::FromPattern;
use nym::pattern::to::ToPattern;
use nym::policy::Survey;
use nym::transform::TransformError;

fn fresh() -> Survey {
    Survey {
        source_readable: true,
        destination: None,
        parent_exists: true,
        parent_writable: true,
        ancestor_writable: true,
    }
}

#[test]
fn transform_routes_matched_sources_to_resolved_destinations() {
    let environment = Environment::new(Policy { parents: false, overwrite: false });
    let from = FromPattern::new("$-*.txt").unwrap();
    let to = ToPattern::parse("{#2|upper}_{#1}.md").unwrap();
    let transform = environment.transform(from, to);
    let read = transform.read();
    let path = BytePath::from_path("ab-cd.txt");
    let captures = match read.select(&vec![b"ab-cd.txt".to_vec()], &path, false, true) {
        Selection::Yield(captures) => captures,
        _ => panic!("expected a match"),
    };
    let destination = transform.destination(&captures, &vec![]).unwrap();
    assert_eq!(destination, "CD_ab.md");

    let mut manifest = Manifest::new();
    transform
        .route(&mut manifest, "ab-cd.txt".to_string(), destination.clone(), &fresh())
        .unwrap();
    assert!(matches!(
        transform.route(&mut manifest, "other.txt".to_string(), destination, &fresh()),
        Err(TransformError::Manifest(_))
    ));
    let mut taken = fresh();
    taken.destination = Some(nym::policy::Existing { is_dir: false, writable: true });
    assert!(matches!(
        transform.route(&mut manifest, "x".to_string(), "y".to_string(), &taken),
        Err(TransformError::Policy(_))
    ));
    assert_eq!(manifest.routes().len(), 1);
}

#[test]
fn to_pattern_zero_and_empty_braces_are_equivalent() {
    let environment = Environment::new(Policy { parents: false, overwrite: false });
    let caps = nym::glob::capture::Captures::from_groups(b"file".to_vec(), vec![Some((0, 4))]);
    let a = ToPattern::parse("{}.bak").unwrap();
    let b = ToPattern::parse("{#0}.bak").unwrap();
    assert_eq!(a.resolve(&caps, &vec![]).unwrap(), "file.bak");
    assert_eq!(b.resolve(&caps, &vec![]).unwrap(), "file.bak");
    let _ = environment;
}
