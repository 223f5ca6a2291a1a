use myfind::args::{begins_with_dash, classify, Args, Token};
use myfind::pattern::Matcher;
use myfind::text::str_eq;

fn words(tokens: &[&str]) -> Vec<String> {
    tokens.iter().map(|t| t.to_string()).collect()
}

fn sources(args: &Args) -> Vec<String> {
    args.expressions().iter().map(|m| m.source().to_string()).collect()
}

#[test]
fn dash_is_looked_at_first() {
    assert!(begins_with_dash("-v"));
    assert!(begins_with_dash("-"));
    assert!(begins_with_dash("--"));
    assert!(!begins_with_dash(""));
    assert!(!begins_with_dash("a-b"));
    assert!(!begins_with_dash(" -v"));
    assert!(!begins_with_dash("\u{2212}v"));
}

#[test]
fn classify_flag() {
    match classify("-r", false) {
        Token::Flag(text) => assert_eq!(text, "-r"),
        other => panic!("{:?}", other),
    }
}

#[test]
fn classify_flag_even_if_it_exists() {
    match classify("-odd-name", true) {
        Token::Flag(text) => assert_eq!(text, "-odd-name"),
        other => panic!("{:?}", other),
    }
}

#[test]
fn classify_existing_path() {
    match classify("src", true) {
        Token::Root(text) => assert_eq!(text, "src"),
        other => panic!("{:?}", other),
    }
}

#[test]
fn classify_existing_path_that_is_a_regex_too() {
    match classify("a.c", true) {
        Token::Root(text) => assert_eq!(text, "a.c"),
        other => panic!("{:?}", other),
    }
}

#[test]
fn classify_existing_path_that_is_no_regex() {
    match classify("(", true) {
        Token::Root(text) => assert_eq!(text, "("),
        other => panic!("{:?}", other),
    }
}

#[test]
fn classify_missing_path_as_pattern() {
    match classify("src", false) {
        Token::Pattern(matcher) => {
            assert_eq!(matcher.source(), "src");
            assert!(matcher.is_match("my_src_dir"));
            assert!(!matcher.is_match("lib"));
        }
        other => panic!("{:?}", other),
    }
}

#[test]
fn classify_invalid() {
    match classify("(", false) {
        Token::Invalid(text) => assert_eq!(text, "("),
        other => panic!("{:?}", other),
    }
}

#[test]
fn classify_empty_token_is_a_pattern() {
    match classify("", false) {
        Token::Pattern(matcher) => {
            assert_eq!(matcher.source(), "");
            assert!(matcher.is_match("anything"));
        }
        other => panic!("{:?}", other),
    }
}

#[test]
fn matcher_compiles_regular_expressions_only() {
    assert!(Matcher::new(r"\.rs$").is_some());
    assert!(Matcher::new("foo(bar").is_none());
    assert!(Matcher::new("[a-").is_none());
    assert!(Matcher::new("*").is_none());
}

#[test]
fn matcher_from_compiled_follows_the_outcome() {
    let ok = Matcher::from_compiled("a+", regex::Regex::new("a+"));
    assert_eq!(ok.unwrap().source(), "a+");
    assert!(Matcher::from_compiled("(", regex::Regex::new("(")).is_none());
}

#[test]
fn matcher_searches_anywhere_in_the_name() {
    let m = Matcher::new(r"\.rs$").unwrap();
    assert!(m.is_match("c.rs"));
    assert!(m.is_match(".rs"));
    assert!(!m.is_match("b.txt"));
    assert!(!m.is_match("c.rs.bak"));
    assert!(!m.is_match("crs"));
    let n = Matcher::new("b").unwrap();
    assert!(n.is_match("abc"));
    assert!(!n.is_match("B"));
}

#[test]
fn matcher_is_not_the_identity_on_its_source() {
    let m = Matcher::new("^a.c$").unwrap();
    assert_eq!(m.source(), "^a.c$");
    assert!(m.is_match("abc"));
    assert!(!m.is_match("^a.c$"));
}

#[test]
fn new_keeps_the_name() {
    let args = Args::new(words(&["find"]), vec![true]).unwrap();
    assert_eq!(args.name(), "find");
    assert!(args.paths().is_empty());
    assert!(args.expressions().is_empty());
    let o = args.options();
    assert!(!o.verbose && !o.help && !o.version && !o.recursive);
}

#[test]
fn new_does_not_classify_the_name() {
    let args = Args::new(words(&["-v"]), vec![false]).unwrap();
    assert_eq!(args.name(), "-v");
    assert!(!args.options().verbose);
    let args = Args::new(words(&["("]), vec![false]).unwrap();
    assert_eq!(args.name(), "(");
}

#[test]
fn new_sorts_tokens_by_kind() {
    let args = Args::new(
        words(&["find", "-r", "src", r"\.rs$", "docs", "-v", "toml"]),
        vec![false, false, true, false, true, false, false],
    )
    .unwrap();
    assert_eq!(args.paths(), &words(&["src", "docs"]));
    assert_eq!(sources(&args), words(&[r"\.rs$", "toml"]));
    let o = args.options();
    assert!(o.recursive && o.verbose && !o.help && !o.version);
}

#[test]
fn new_keeps_order_and_duplicates() {
    let args = Args::new(
        words(&["find", "b", "a", "b", "y", "x", "y"]),
        vec![false, true, true, true, false, false, false],
    )
    .unwrap();
    assert_eq!(args.paths(), &words(&["b", "a", "b"]));
    assert_eq!(sources(&args), words(&["y", "x", "y"]));
}

#[test]
fn new_existing_path_is_never_a_pattern() {
    let args =
        Args::new(words(&["find", ".", "a.c", "b+"]), vec![false, true, true, false]).unwrap();
    assert_eq!(args.paths(), &words(&[".", "a.c"]));
    assert_eq!(sources(&args), words(&["b+"]));
}

#[test]
fn new_unknown_flag_asks_for_help() {
    let args = Args::new(words(&["find", "--frobnicate", "x"]), vec![false, false, false]).unwrap();
    assert!(args.options().help);
    assert_eq!(sources(&args), words(&["x"]));
}

#[test]
fn new_rejects_invalid_pattern() {
    let err = Args::new(words(&["find", "("]), vec![false, false]).unwrap_err();
    assert_eq!(err.token, "(");
}

#[test]
fn invalid_argument_names_the_token() {
    let err = Args::new(words(&["find", "a(b"]), vec![false, false]).unwrap_err();
    assert_eq!(err.message(), "invalid argument a(b, not a regex nor a path");
}

#[test]
fn new_reports_the_first_invalid_token() {
    let err = Args::new(
        words(&["find", "ok", "[z", "src", "(", "-v"]),
        vec![false, false, false, true, false, false],
    )
    .unwrap_err();
    assert_eq!(err.token, "[z");
}

#[test]
fn new_rejects_invalid_pattern_even_with_help() {
    let err = Args::new(words(&["find", "-h", "("]), vec![false, false, false]).unwrap_err();
    assert_eq!(err.token, "(");
}

#[test]
fn new_accepts_an_existing_path_that_is_no_regex() {
    let args = Args::new(words(&["find", "("]), vec![false, true]).unwrap();
    assert_eq!(args.paths(), &words(&["("]));
    assert!(args.expressions().is_empty());
}

#[test]
fn str_eq_compares_texts() {
    assert!(str_eq("", ""));
    assert!(str_eq("-v", "-v"));
    assert!(!str_eq("-v", "-V"));
    assert!(!str_eq("-v", "-vv"));
    assert!(!str_eq("-vv", "-v"));
    assert!(str_eq("d\u{e9}j\u{e0}", "d\u{e9}j\u{e0}"));
    assert!(!str_eq("d\u{e9}j\u{e0}", "deja"));
}
