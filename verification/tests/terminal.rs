use nym::manifest::Manifest;
use nym::terminal::{manifest_listing, warning_listing, Layout, Piece, Tone};

fn texts(line: &[Piece]) -> Vec<(Tone, String)> {
    line.iter().map(|p| (p.tone, p.text.clone())).collect()
}

#[test]
fn manifest_listing_numbers_routes_and_draws_arrows() {
    let mut manifest = Manifest::new();
    manifest.insert("a.txt".to_string(), "b.txt".to_string()).unwrap();
    let routes = manifest.routes();
    let lines = manifest_listing(&routes, None);
    assert_eq!(lines.len(), 2);
    assert_eq!(
        texts(&lines[0]),
        vec![
            (Tone::Index, "1".to_string()),
            (Tone::Plain, " ".to_string()),
            (Tone::Line, "─┬──".to_string()),
            (Tone::Plain, " ".to_string()),
            (Tone::Source, "a.txt".to_string()),
        ]
    );
    assert_eq!(
        texts(&lines[1]),
        vec![
            (Tone::Line, "   ╰─⯈".to_string()),
            (Tone::Plain, " ".to_string()),
            (Tone::Destination, "b.txt".to_string()),
        ]
    );
}

#[test]
fn manifest_listing_pads_indices_to_the_count_of_routes() {
    let mut manifest = Manifest::new();
    for n in 0..10 {
        manifest.insert(format!("s{}", n), format!("d{}", n)).unwrap();
    }
    let lines = manifest_listing(&manifest.routes(), None);
    assert_eq!(lines.len(), 20);
    assert_eq!(lines[0][0].text, "01");
    assert_eq!(lines[18][0].text, "10");
    assert_eq!(lines[1][0].text, "    ╰─⯈");
}

#[test]
fn manifest_listing_wraps_long_paths_to_the_terminal() {
    let mut manifest = Manifest::new();
    let long = "abcdefghij/klmnopqrst/uvwxyz0123/456789abcd".to_string();
    manifest.insert(long.clone(), "x".to_string()).unwrap();
    let lines = manifest_listing(&manifest.routes(), Some(Layout::new(23, 10)));
    // 23 columns less a margin of 7 leave the minimum of 16 columns.
    assert!(lines.len() > 2);
    assert_eq!(texts(&lines[1])[0], (Tone::Line, "   │".to_string()));
    assert_eq!(texts(&lines[1])[1], (Tone::Plain, "   ".to_string()));
    let wrapped: String = lines[..lines.len() - 1]
        .iter()
        .map(|line| line.last().unwrap().text.clone())
        .collect();
    assert_eq!(wrapped.replace(' ', ""), long);
}

#[test]
fn warnings_have_a_header_and_a_margin() {
    let lines = warning_listing("look at patterns and paths carefully", Some(Layout::new(30, 10)));
    assert!(lines.len() >= 2);
    assert_eq!(lines[0][0].text, "Warning");
    assert_eq!(lines[0][1].text, ":");
    assert_eq!(lines[1][0].text, "         ");
    let lines = warning_listing("short", None);
    assert_eq!(lines.len(), 1);
    assert_eq!(lines[0][3].text, "short");
}
