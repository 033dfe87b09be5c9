use nym::policy::{check, Existing, Policy, PolicyError, Survey};

fn survey(destination: Option<Existing>, parent_exists: bool) -> Survey {
    Survey {
        source_readable: true,
        destination,
        parent_exists,
        parent_writable: parent_exists,
        ancestor_writable: true,
    }
}

const FILE: Existing = Existing { is_dir: false, writable: true };
const DIR: Existing = Existing { is_dir: true, writable: true };

#[test]
fn check_refuses_unreadable_sources_first() {
    let policy = Policy { parents: true, overwrite: true };
    let mut s = survey(Some(DIR), true);
    s.source_readable = false;
    match check(&policy, "src", "dst", &s) {
        Err(PolicyError::SourceNotReadable(p)) => assert_eq!(p, "src"),
        other => panic!("{:?}", other),
    }
}

#[test]
fn check_refuses_existing_destinations_without_overwrite() {
    let policy = Policy { parents: false, overwrite: false };
    assert!(matches!(
        check(&policy, "s", "d", &survey(Some(FILE), true)),
        Err(PolicyError::DestinationAlreadyExists(_))
    ));
}

#[test]
fn check_refuses_directories_and_unwritable_files_under_overwrite() {
    let policy = Policy { parents: false, overwrite: true };
    assert!(matches!(
        check(&policy, "s", "d", &survey(Some(DIR), true)),
        Err(PolicyError::DestinationNotAFile(_))
    ));
    let locked = Existing { is_dir: false, writable: false };
    assert!(matches!(
        check(&policy, "s", "d", &survey(Some(locked), true)),
        Err(PolicyError::DestinationNotWritable(_))
    ));
    assert!(check(&policy, "s", "d", &survey(Some(FILE), true)).is_ok());
}

#[test]
fn check_requires_parents_unless_they_may_be_created() {
    let strict = Policy { parents: false, overwrite: false };
    match check(&strict, "s", "a/d", &survey(None, false)) {
        Err(PolicyError::DestinationOrphaned(p)) => assert_eq!(p, "a/d"),
        other => panic!("{:?}", other),
    }
    let mut s = survey(None, true);
    s.parent_writable = false;
    assert!(matches!(check(&strict, "s", "d", &s), Err(PolicyError::DestinationNotWritable(_))));
    let lenient = Policy { parents: true, overwrite: false };
    assert!(check(&lenient, "s", "a/d", &survey(None, false)).is_ok());
    let mut s = survey(None, false);
    s.ancestor_writable = false;
    assert!(matches!(check(&lenient, "s", "a/d", &s), Err(PolicyError::DestinationNotWritable(_))));
}

#[test]
fn policy_read_checks_destinations_alone() {
    let policy = Policy { parents: false, overwrite: false };
    assert!(matches!(policy.read("d", None, false), Err(PolicyError::DestinationOrphaned(_))));
    assert!(matches!(policy.read("d", Some(DIR), true), Err(PolicyError::DestinationNotAFile(_))));
    assert!(matches!(policy.read("d", Some(FILE), true), Err(PolicyError::DestinationAlreadyExists(_))));
    assert!(policy.read("d", None, true).is_ok());
    let policy = Policy { parents: true, overwrite: true };
    assert!(policy.read("d", Some(FILE), false).is_ok());
    assert_eq!(
        PolicyError::DestinationOrphaned("x".to_string()).message(),
        "destination parent directory does not exist: `x`"
    );
}
