use std::path::Path;

use nym::glob::adjacency::Adjacency;
use nym::glob::token::{optimize, Evaluation, Token, Wildcard};
use nym::glob::{normalize_separators, BytePath, Glob, GlobError};

#[test]
fn adjacent() {
    let none: Vec<Adjacency<i32>> = nym::glob::adjacency::adjacent::<i32>(&[]);
    assert_eq!(none.len(), 0);

    let only = nym::glob::adjacency::adjacent(&[0i32]);
    assert_eq!(only, vec![Adjacency::Only(0)]);

    let three = nym::glob::adjacency::adjacent(&[0i32, 1, 2]);
    assert_eq!(
        three,
        vec![
            Adjacency::First(0, 1),
            Adjacency::Middle(0, 1, 2),
            Adjacency::Last(1, 2),
        ]
    );
    assert_eq!(Adjacency::Middle(0, 1, 2).into_tuple(), (Some(0), 1, Some(2)));
    assert_eq!(Adjacency::Only(7).into_tuple(), (None, 7, None));
}

#[test]
fn build_glob_with_eager_zom_tokens() {
    Glob::new("*").unwrap();
    Glob::new("a/*").unwrap();
    Glob::new("*a").unwrap();
    Glob::new("a*").unwrap();
    Glob::new("a*b").unwrap();
    Glob::new("/*").unwrap();
}

#[test]
fn build_glob_with_lazy_zom_tokens() {
    Glob::new("$").unwrap();
    Glob::new("a/$").unwrap();
    Glob::new("$a").unwrap();
    Glob::new("a$").unwrap();
    Glob::new("a$b").unwrap();
    Glob::new("/$").unwrap();
}

#[test]
fn build_glob_with_one_tokens() {
    Glob::new("?").unwrap();
    Glob::new("a/?").unwrap();
    Glob::new("?a").unwrap();
    Glob::new("a?").unwrap();
    Glob::new("a?b").unwrap();
    Glob::new("??a??b??").unwrap();
    Glob::new("/?").unwrap();
}

#[test]
fn build_glob_with_one_and_zom_tokens() {
    Glob::new("?*").unwrap();
    Glob::new("*?").unwrap();
    Glob::new("*/?").unwrap();
    Glob::new("?*?").unwrap();
    Glob::new("/?*").unwrap();
    Glob::new("?$").unwrap();
}

#[test]
fn build_glob_with_tree_tokens() {
    Glob::new("**").unwrap();
    Glob::new("**/").unwrap();
    Glob::new("/**").unwrap();
    Glob::new("**/a").unwrap();
    Glob::new("a/**").unwrap();
    Glob::new("**/a/**/b/**").unwrap();
    Glob::new("**/**/a").unwrap();
}

#[test]
fn build_glob_with_class_tokens() {
    Glob::new("a/[xy]").unwrap();
    Glob::new("a/[x-z]").unwrap();
    Glob::new("a/[xyi-k]").unwrap();
    Glob::new("a/[i-kxy]").unwrap();
    Glob::new("a/[!xy]").unwrap();
    Glob::new("a/[!x-z]").unwrap();
    Glob::new("a/[xy]b/c").unwrap();
}

#[test]
fn build_glob_with_alternative_tokens() {
    Glob::new("a/{x?z,y$}b*").unwrap();
    Glob::new("a/{???,x$y,frob}b*").unwrap();
    Glob::new("a/{???,x$y,frob}b*").unwrap();
    Glob::new("a/{???,{x*z,y$}}b*").unwrap();
    Glob::new("a/{**/b,b/**}/ca{t,b/**}").unwrap();
}

#[test]
fn build_glob_with_literal_escaped_wildcard_tokens() {
    Glob::new("a/b\\?/c").unwrap();
    Glob::new("a/b\\$/c").unwrap();
    Glob::new("a/b\\*/c").unwrap();
    Glob::new("a/b\\*\\*/c").unwrap();
}

#[test]
fn build_glob_with_class_escaped_wildcard_tokens() {
    Glob::new("a/b[?]/c").unwrap();
    Glob::new("a/b[$]/c").unwrap();
    Glob::new("a/b[*]/c").unwrap();
    Glob::new("a/b[*][*]/c").unwrap();
}

#[test]
fn build_glob_with_literal_escaped_alternative_tokens() {
    Glob::new("a/\\{\\}/c").unwrap();
    Glob::new("a/{x,y\\,,z}/c").unwrap();
}

#[test]
fn build_glob_with_class_escaped_alternative_tokens() {
    Glob::new("a/[{][}]/c").unwrap();
    Glob::new("a/{x,y[,],z}/c").unwrap();
}

#[test]
fn build_glob_with_literal_escaped_class_tokens() {
    Glob::new("a/\\[a-z\\]/c").unwrap();
    Glob::new("a/[\\[]/c").unwrap();
    Glob::new("a/[\\]]/c").unwrap();
    Glob::new("a/[a\\-z]/c").unwrap();
}

#[test]
fn mod_reject_glob_with_adjacent_tree_or_zom_tokens() {
    assert!(Glob::new("***").is_err());
    assert!(Glob::new("****").is_err());
    assert!(Glob::new("**/*/***").is_err());
    assert!(Glob::new("**$").is_err());
    assert!(Glob::new("**/$**").is_err());
}

#[test]
fn mod_reject_glob_with_tree_adjacent_literal_tokens() {
    assert!(Glob::new("**a").is_err());
    assert!(Glob::new("a**").is_err());
    assert!(Glob::new("a**b").is_err());
    assert!(Glob::new("a*b**").is_err());
    assert!(Glob::new("**/**a/**").is_err());
}

#[test]
fn mod_reject_glob_with_adjacent_one_tokens() {
    assert!(Glob::new("**?").is_err());
    assert!(Glob::new("?**").is_err());
    assert!(Glob::new("?**?").is_err());
    assert!(Glob::new("?*?**").is_err());
    assert!(Glob::new("**/**?/**").is_err());
}

#[test]
fn mod_reject_glob_with_unescaped_meta_characters_in_class_tokens() {
    assert!(Glob::new("a/[a-z-]/c").is_err());
    assert!(Glob::new("a/[-a-z]/c").is_err());
    assert!(Glob::new("a/[-]/c").is_err());
    // NOTE: Without special attention to escaping and character parsing,
    //       this could be mistakenly interpreted as an empty range over the
    //       character `-`. This should be rejected.
    assert!(Glob::new("a/[---]/c").is_err());
    assert!(Glob::new("a/[[]/c").is_err());
    assert!(Glob::new("a/[]]/c").is_err());
}

#[test]
fn reject_glob_with_invalid_alternative_zom_tokens() {
    assert!(Glob::new("*{okay,*}").is_err());
    assert!(Glob::new("{okay,*}*").is_err());
    assert!(Glob::new("${okay,*error}").is_err());
    assert!(Glob::new("{okay,error*}$").is_err());
}

#[test]
fn reject_glob_with_invalid_alternative_tree_tokens() {
    assert!(Glob::new("{**}").is_err());
    assert!(Glob::new("prefix{okay/**,**/error}").is_err());
    assert!(Glob::new("{**/okay,error/**}postfix").is_err());
    assert!(Glob::new("{**/okay,prefix{error/**}}postfix").is_err());
    assert!(Glob::new("{**/okay,prefix{**/error}}postfix").is_err());
}

#[test]
fn reject_glob_with_invalid_separator_tokens() {
    assert!(Glob::new("//a").is_err());
    assert!(Glob::new("a//b").is_err());
    assert!(Glob::new("a/b//").is_err());
}

#[test]
fn mod_match_glob_with_tree_tokens() {
    let glob = Glob::new("a/**/b").unwrap();

    assert!(glob.is_match("a/b"));
    assert!(glob.is_match("a/x/b"));
    assert!(glob.is_match("a/x/y/z/b"));

    assert!(!glob.is_match("a"));
    assert!(!glob.is_match("b/a"));

    assert_eq!(
        b"x/y/z/",
        glob.captures(&BytePath::from_path("a/x/y/z/b"))
            .unwrap()
            .get(1)
            .unwrap(),
    );
}

#[test]
fn mod_match_glob_with_tree_and_zom_tokens() {
    let glob = Glob::new("**/*.ext").unwrap();

    assert!(glob.is_match("file.ext"));
    assert!(glob.is_match("a/file.ext"));
    assert!(glob.is_match("a/b/file.ext"));

    let path = BytePath::from_path("a/file.ext");
    let captures = glob.captures(&path).unwrap();
    assert_eq!(b"a/", captures.get(1).unwrap());
    assert_eq!(b"file", captures.get(2).unwrap());
}

#[test]
fn mod_match_glob_with_eager_and_lazy_zom_tokens() {
    let glob = Glob::new("$-*.*").unwrap();

    assert!(glob.is_match("prefix-file.ext"));
    assert!(glob.is_match("a-b-c.ext"));

    let path = BytePath::from_path("a-b-c.ext");
    let captures = glob.captures(&path).unwrap();
    assert_eq!(b"a", captures.get(1).unwrap());
    assert_eq!(b"b-c", captures.get(2).unwrap());
    assert_eq!(b"ext", captures.get(3).unwrap());
}

#[test]
fn mod_match_glob_with_class_tokens() {
    let glob = Glob::new("a/[xyi-k]/**").unwrap();

    assert!(glob.is_match("a/x/file.ext"));
    assert!(glob.is_match("a/y/file.ext"));
    assert!(glob.is_match("a/j/file.ext"));

    assert!(!glob.is_match("a/b/file.ext"));

    let path = BytePath::from_path("a/i/file.ext");
    let captures = glob.captures(&path).unwrap();
    assert_eq!(b"i", captures.get(1).unwrap());
}

#[test]
fn mod_match_glob_with_literal_escaped_class_tokens() {
    let glob = Glob::new("a/[\\[\\]\\-]/**").unwrap();

    assert!(glob.is_match("a/[/file.ext"));
    assert!(glob.is_match("a/]/file.ext"));
    assert!(glob.is_match("a/-/file.ext"));

    assert!(!glob.is_match("a/b/file.ext"));

    let path = BytePath::from_path("a/[/file.ext");
    let captures = glob.captures(&path).unwrap();
    assert_eq!(b"[", captures.get(1).unwrap());
}

#[test]
fn mod_match_glob_with_alternative_tokens() {
    let glob = Glob::new("a/{x?z,y$}b/*").unwrap();

    assert!(glob.is_match("a/xyzb/file.ext"));
    assert!(glob.is_match("a/yb/file.ext"));

    assert!(!glob.is_match("a/xyz/file.ext"));
    assert!(!glob.is_match("a/y/file.ext"));
    assert!(!glob.is_match("a/xyzub/file.ext"));

    let path = BytePath::from_path("a/xyzb/file.ext");
    let captures = glob.captures(&path).unwrap();
    assert_eq!(b"xyz", captures.get(1).unwrap());
}

#[test]
fn mod_match_glob_with_nested_alternative_tokens() {
    let glob = Glob::new("a/{y$,{x?z,?z}}b/*").unwrap();

    let path = BytePath::from_path("a/xyzb/file.ext");
    let captures = glob.captures(&path).unwrap();
    assert_eq!(b"xyz", captures.get(1).unwrap());
}

#[test]
fn mod_match_glob_with_alternative_tree_tokens() {
    let glob = Glob::new("a/{foo,bar,**/baz}/qux").unwrap();

    assert!(glob.is_match("a/foo/qux"));
    assert!(glob.is_match("a/foo/baz/qux"));
    assert!(glob.is_match("a/foo/bar/baz/qux"));

    assert!(!glob.is_match("a/foo/bar/qux"));
}

fn strip<'p>(path: &'p str, prefix: &str) -> &'p str {
    Path::new(path).strip_prefix(prefix).unwrap().to_str().unwrap()
}

#[test]
fn partition_glob_with_literal_and_non_literal_parts() {
    let (prefix, glob) = Glob::partitioned("a/b/x?z/*.ext").unwrap();

    assert_eq!(Path::new(&prefix), Path::new("a/b"));

    assert!(glob.is_match("xyz/file.ext"));
    assert!(glob.is_match(strip("a/b/xyz/file.ext", &prefix)));
}

#[test]
fn partition_glob_with_only_non_literal_parts() {
    let (prefix, glob) = Glob::partitioned("x?z/*.ext").unwrap();

    assert_eq!(Path::new(&prefix), Path::new(""));

    assert!(glob.is_match("xyz/file.ext"));
    assert!(glob.is_match(strip("xyz/file.ext", &prefix)));
}

#[test]
fn partition_glob_with_only_literal_parts() {
    let (prefix, glob) = Glob::partitioned("a/b").unwrap();

    assert_eq!(Path::new(&prefix), Path::new("a/b"));

    assert!(glob.is_match(""));
    assert!(glob.is_match(strip("a/b", &prefix)));
}

#[test]
fn partition_glob_with_literal_dots_and_tree_tokens() {
    let (prefix, glob) = Glob::partitioned("../**/*.ext").unwrap();

    assert_eq!(Path::new(&prefix), Path::new(".."));

    assert!(glob.is_match("xyz/file.ext"));
    assert!(glob.is_match(strip("../xyz/file.ext", &prefix)));
}

#[test]
fn parse_glob_with_any_tokens() {
    Glob::new("*").unwrap();
    Glob::new("a/*").unwrap();
    Glob::new("*a").unwrap();
    Glob::new("a*").unwrap();
    Glob::new("a*b").unwrap();
    Glob::new("/*").unwrap();
}

#[test]
fn glob_parse_glob_with_one_tokens() {
    Glob::new("?").unwrap();
    Glob::new("a/?").unwrap();
    Glob::new("?a").unwrap();
    Glob::new("a?").unwrap();
    Glob::new("a?b").unwrap();
    Glob::new("??a??b??").unwrap();
    Glob::new("/?").unwrap();
}

#[test]
fn parse_glob_with_any_and_one_tokens() {
    Glob::new("?*").unwrap();
    Glob::new("*?").unwrap();
    Glob::new("*/?").unwrap();
    Glob::new("?*?").unwrap();
    Glob::new("/?*").unwrap();
}

#[test]
fn glob_parse_glob_with_tree_tokens() {
    Glob::new("**").unwrap();
    Glob::new("**/").unwrap();
    Glob::new("/**").unwrap();
    Glob::new("**/a").unwrap();
    Glob::new("a/**").unwrap();
    Glob::new("**/a/**/b/**").unwrap();
    Glob::new("**/**/a").unwrap();
}

#[test]
fn reject_glob_with_adjacent_any_or_tree_tokens() {
    assert!(Glob::new("***").is_err());
    assert!(Glob::new("****").is_err());
    assert!(Glob::new("**/*/***").is_err());
}

#[test]
fn reject_glob_with_adjacent_literal_tokens() {
    assert!(Glob::new("**a").is_err());
    assert!(Glob::new("a**").is_err());
    assert!(Glob::new("a**b").is_err());
    assert!(Glob::new("a*b**").is_err());
    assert!(Glob::new("**/**a/**").is_err());
}

#[test]
fn glob_reject_glob_with_adjacent_one_tokens() {
    assert!(Glob::new("**?").is_err());
    assert!(Glob::new("?**").is_err());
    assert!(Glob::new("?**?").is_err());
    assert!(Glob::new("?*?**").is_err());
    assert!(Glob::new("**/**?/**").is_err());
}

#[test]
fn parse_glob_with_eager_zom_tokens() {
    Glob::new("*").unwrap();
    Glob::new("a/*").unwrap();
    Glob::new("*a").unwrap();
    Glob::new("a*").unwrap();
    Glob::new("a*b").unwrap();
    Glob::new("/*").unwrap();
}

#[test]
fn parse_glob_with_lazy_zom_tokens() {
    Glob::new("$").unwrap();
    Glob::new("a/$").unwrap();
    Glob::new("$a").unwrap();
    Glob::new("a$").unwrap();
    Glob::new("a$b").unwrap();
    Glob::new("/$").unwrap();
}

#[test]
fn mod_parse_glob_with_one_tokens() {
    Glob::new("?").unwrap();
    Glob::new("a/?").unwrap();
    Glob::new("?a").unwrap();
    Glob::new("a?").unwrap();
    Glob::new("a?b").unwrap();
    Glob::new("??a??b??").unwrap();
    Glob::new("/?").unwrap();
}

#[test]
fn parse_glob_with_one_and_zom_tokens() {
    Glob::new("?*").unwrap();
    Glob::new("*?").unwrap();
    Glob::new("*/?").unwrap();
    Glob::new("?*?").unwrap();
    Glob::new("/?*").unwrap();
    Glob::new("?$").unwrap();
}

#[test]
fn mod_parse_glob_with_tree_tokens() {
    Glob::new("**").unwrap();
    Glob::new("**/").unwrap();
    Glob::new("/**").unwrap();
    Glob::new("**/a").unwrap();
    Glob::new("a/**").unwrap();
    Glob::new("**/a/**/b/**").unwrap();
    Glob::new("**/**/a").unwrap();
}

#[test]
fn parse_glob_with_class_tokens() {
    Glob::new("a/[xy]").unwrap();
    Glob::new("a/[x-z]").unwrap();
    Glob::new("a/[xyi-k]").unwrap();
    Glob::new("a/[i-kxy]").unwrap();
    Glob::new("a/[!xy]").unwrap();
    Glob::new("a/[!x-z]").unwrap();
    Glob::new("a/[xy]b/c").unwrap();
}

#[test]
fn parse_glob_with_alternative_tokens() {
    Glob::new("a/{x?z,y$}b*").unwrap();
    Glob::new("a/{???,x$y,frob}b*").unwrap();
    Glob::new("a/{???,x$y,frob}b*").unwrap();
    Glob::new("a/{???,{x*z,y$}}b*").unwrap();
}

#[test]
fn parse_glob_with_literal_escaped_wildcard_tokens() {
    Glob::new("a/b\\?/c").unwrap();
    Glob::new("a/b\\$/c").unwrap();
    Glob::new("a/b\\*/c").unwrap();
    Glob::new("a/b\\*\\*/c").unwrap();
}

#[test]
fn parse_glob_with_class_escaped_wildcard_tokens() {
    Glob::new("a/b[?]/c").unwrap();
    Glob::new("a/b[$]/c").unwrap();
    Glob::new("a/b[*]/c").unwrap();
    Glob::new("a/b[*][*]/c").unwrap();
}

#[test]
fn parse_glob_with_literal_escaped_alternative_tokens() {
    Glob::new("a/\\{\\}/c").unwrap();
    Glob::new("a/{x,y\\,,z}/c").unwrap();
}

#[test]
fn parse_glob_with_class_escaped_alternative_tokens() {
    Glob::new("a/[{][}]/c").unwrap();
    Glob::new("a/{x,y[,],z}/c").unwrap();
}

#[test]
fn parse_glob_with_literal_escaped_class_tokens() {
    Glob::new("a/\\[a-z\\]/c").unwrap();
    Glob::new("a/[\\[]/c").unwrap();
    Glob::new("a/[\\]]/c").unwrap();
    Glob::new("a/[a\\-z]/c").unwrap();
}

fn prefix_of(text: &str) -> Option<String> {
    Glob::new(text).unwrap().literal_path_prefix()
}

#[test]
fn literal_path_prefix() {
    assert_eq!(prefix_of("a/b").map(|p| Path::new(&p).to_path_buf()), Some(Path::new("a/b").to_path_buf()));
    assert_eq!(prefix_of("a/*").map(|p| Path::new(&p).to_path_buf()), Some(Path::new("a/").to_path_buf()));
    assert_eq!(prefix_of("a/*b").map(|p| Path::new(&p).to_path_buf()), Some(Path::new("a/").to_path_buf()));
    assert_eq!(prefix_of("a/b*").map(|p| Path::new(&p).to_path_buf()), Some(Path::new("a/").to_path_buf()));
    assert_eq!(prefix_of("a/b/*/c").map(|p| Path::new(&p).to_path_buf()), Some(Path::new("a/b/").to_path_buf()));

    assert!(prefix_of("**").is_none());
    assert!(prefix_of("a*").is_none());
    assert!(prefix_of("*/b").is_none());
    assert!(prefix_of("a?/b").is_none());
}

#[test]
fn glob_errors_name_their_cause() {
    assert_eq!(Glob::new("a\\x").unwrap_err(), GlobError::Parse);
    assert!(matches!(Glob::new("{**}").unwrap_err(), GlobError::Rule(_)));
    assert!(matches!(Glob::new("a//b").unwrap_err(), GlobError::Rule(_)));
    // A range whose ends are out of order is refused by the expression engine.
    assert_eq!(Glob::new("[z-a]").unwrap_err(), GlobError::Compile);
}

#[test]
fn glob_of_only_a_tree_wildcard_matches_every_path() {
    let glob = Glob::new("**").unwrap();
    assert!(glob.is_match("file"));
    assert!(glob.is_match("a/b/c/file.ext"));
}

#[test]
fn exactly_one_wildcards_capture_separately() {
    let glob = Glob::new("???").unwrap();
    let path = BytePath::from_path("abc");
    let captures = glob.captures(&path).unwrap();
    assert_eq!(b"a", captures.get(1).unwrap());
    assert_eq!(b"b", captures.get(2).unwrap());
    assert_eq!(b"c", captures.get(3).unwrap());
    assert!(captures.get(4).is_none());
}

#[test]
fn rooted_globs_have_a_root() {
    let glob = Glob::new("/a/*").unwrap();
    assert!(glob.has_root());
    assert!(glob.is_absolute());
    let glob = Glob::new("a/*").unwrap();
    assert!(!glob.has_root());
}

#[test]
fn byte_paths_keep_their_bytes() {
    let path = BytePath::from_path("a/b.txt");
    assert_eq!(path.as_bytes(), b"a/b.txt");
    assert_eq!(path.path(), Some(b"a/b.txt".to_vec()));
    let raw = BytePath::from_bytes(vec![0xff]);
    assert_eq!(raw.path(), Some(vec![0xff]));
}

#[test]
fn reject_glob_with_escaped_back_slash() {
    assert_eq!(Glob::new("a\\\\b").unwrap_err(), GlobError::Parse);
    assert_eq!(Glob::new("a\\b").unwrap_err(), GlobError::Parse);
}

#[test]
fn literal_dots_are_not_wildcards() {
    let glob = Glob::new("a.b").unwrap();
    assert!(glob.is_match("a.b"));
    assert!(!glob.is_match("axb"));
}

#[test]
fn optimize_merges_runs_of_wildcards() {
    let tokens = vec![
        Token::Wildcard(Wildcard::Tree),
        Token::Wildcard(Wildcard::Tree),
        Token::Literal("a".to_string()),
        Token::Wildcard(Wildcard::ZeroOrMore(Evaluation::Lazy)),
        Token::Wildcard(Wildcard::ZeroOrMore(Evaluation::Lazy)),
        Token::Wildcard(Wildcard::ZeroOrMore(Evaluation::Eager)),
        Token::Literal("b".to_string()),
        Token::Literal("c".to_string()),
    ];
    let r = optimize(tokens);
    assert_eq!(r.len(), 4);
    assert!(r[0].is_tree());
    assert!(matches!(&r[1], Token::Literal(text) if text == "a"));
    assert!(matches!(&r[2], Token::Wildcard(Wildcard::ZeroOrMore(Evaluation::Eager))));
    assert!(matches!(&r[3], Token::Literal(text) if text == "bc"));

    let glob = Glob::new("**/**/a").unwrap();
    let trees = glob.tokens().iter().filter(|t| t.is_tree()).count();
    assert_eq!(trees, 1);
}

#[test]
fn optimize_keeps_a_lazy_run_lazy() {
    let tokens = vec![
        Token::Wildcard(Wildcard::ZeroOrMore(Evaluation::Lazy)),
        Token::Wildcard(Wildcard::ZeroOrMore(Evaluation::Lazy)),
    ];
    let r = optimize(tokens);
    assert_eq!(r.len(), 1);
    assert!(matches!(&r[0], Token::Wildcard(Wildcard::ZeroOrMore(Evaluation::Lazy))));
}

#[test]
fn normalize_separators_writes_flagged_bytes_as_slash() {
    let bytes = b"a\\b/c:d".to_vec();
    let flags = vec![false, true, false, true, false, true];
    assert_eq!(normalize_separators(&bytes, &flags), b"a/b/c/d".to_vec());
    let none = vec![false; bytes.len()];
    assert_eq!(normalize_separators(&bytes, &none), bytes);
    assert_eq!(normalize_separators(&bytes, &vec![false, true]), b"a/b/c:d".to_vec());
    assert_eq!(normalize_separators(&b"ab".to_vec(), &vec![true, true]), b"//".to_vec());
}
