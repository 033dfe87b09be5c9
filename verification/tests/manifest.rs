use nym::manifest::{Endpoint, Manifest, ManifestError};

#[test]
fn manifest_routes_each_path_once() {
    let mut manifest = Manifest::new();
    assert!(manifest.insert("a".to_string(), "b".to_string()).is_ok());
    assert!(manifest.insert("c".to_string(), "d".to_string()).is_ok());
    match manifest.insert("e".to_string(), "b".to_string()) {
        Err(ManifestError::PathCollision(d)) => assert_eq!(d, "b"),
        _ => panic!("expected a collision"),
    }
    match manifest.insert("a".to_string(), "f".to_string()) {
        Err(ManifestError::PathCollision(d)) => assert_eq!(d, "f"),
        _ => panic!("expected a collision"),
    }
    let mut routes: Vec<(String, String)> = manifest
        .routes()
        .iter()
        .map(|r| (r.source().clone(), r.destination().clone()))
        .collect();
    routes.sort();
    assert_eq!(
        routes,
        vec![
            ("a".to_string(), "b".to_string()),
            ("c".to_string(), "d".to_string())
        ]
    );
}

#[test]
fn empty_manifest_has_no_routes() {
    let manifest = Manifest::default();
    assert!(manifest.routes().is_empty());
}

#[test]
fn a_path_is_its_own_endpoint() {
    let path = "a/b".to_string();
    assert_eq!(path.paths(), vec!["a/b".to_string()]);
}

#[test]
fn collision_message_names_the_destination() {
    let e = ManifestError::PathCollision("x/y".to_string());
    assert_eq!(e.message(), "detected collision in route destination path: `x/y`");
}
