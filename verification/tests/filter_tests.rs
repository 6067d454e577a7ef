use rgfs::driver::normalize_path;
use rgfs::driver::select_action;
use rgfs::driver::substitute_placeholder;
use rgfs::driver::RecordAction;
use rgfs::driver::SkipReason;
use rgfs::pattern::matches_some_path;
use rgfs::pattern::SignedPattern;
use rgfs::record::parse_diff;

fn patterns(texts: &[&str]) -> Vec<SignedPattern> {
    texts.iter().map(|t| SignedPattern::from_str(t).unwrap()).collect()
}

fn bytes(s: &str) -> Vec<u8> {
    s.as_bytes().to_vec()
}

#[test]
fn from_str_reads_the_sign() {
    let p = SignedPattern::from_str("*.js").unwrap();
    assert!(p.is_include);
    assert_eq!(p.text, "*.js");
    let p = SignedPattern::from_str("!test/*.js").unwrap();
    assert!(!p.is_include);
    assert_eq!(p.text, "test/*.js");
}

#[test]
fn from_str_rejects_invalid_glob() {
    assert!(SignedPattern::from_str("a[").is_err());
    assert!(SignedPattern::from_str("!a[").is_err());
}

#[test]
fn order_decides_not_specificity() {
    let include_then_exclude = patterns(&["*.js", "!test/*.js"]);
    assert!(!matches_some_path(&include_then_exclude, &bytes("test/a.js")));
    let exclude_then_include = patterns(&["!test/*.js", "*.js"]);
    assert!(matches_some_path(&exclude_then_include, &bytes("test/a.js")));
}

#[test]
fn no_patterns_denies_every_path() {
    let none = patterns(&[]);
    assert!(!matches_some_path(&none, &bytes("a.js")));
    assert!(!matches_some_path(&none, &bytes("src/deep/path.rs")));
    assert!(!matches_some_path(&none, &bytes("")));
}

#[test]
fn glob_matches_full_path_not_basename() {
    let ps = patterns(&["src/*.js"]);
    assert!(matches_some_path(&ps, &bytes("src/a.js")));
    assert!(!matches_some_path(&ps, &bytes("a.js")));
}

#[test]
fn unreadable_path_fails_closed() {
    let ps = patterns(&["*"]);
    let not_utf8 = vec![0xff, 0xfe, b'a'];
    assert!(!matches_some_path(&ps, &not_utf8));
}

#[test]
fn normalize_path_joins_lexically() {
    assert_eq!(normalize_path(&bytes("src/a.js"), None), bytes("src/a.js"));
    let root = bytes("/repo");
    assert_eq!(normalize_path(&bytes("src/a.js"), Some(&root)), bytes("/repo/src/a.js"));
    let root_slash = bytes("/repo/");
    assert_eq!(normalize_path(&bytes("a"), Some(&root_slash)), bytes("/repo/a"));
    assert_eq!(normalize_path(&bytes("/abs"), Some(&root)), bytes("/abs"));
    let empty_root = bytes("");
    assert_eq!(normalize_path(&bytes("a"), Some(&empty_root)), bytes("a"));
}

const HASH_A: &str = "aaaaaaaaaaaaaaaaaaaaaaaaaaaaaaaaaaaaaaaa";
const HASH_B: &str = "0123456789abcdef0123456789abcdef01234567";

#[test]
fn symlink_is_always_excluded() {
    let input = format!("100644 120000 {} {} M link.js", HASH_A, HASH_B);
    let rec = parse_diff(&input.as_bytes().to_vec()).unwrap();
    let ps = patterns(&["*.js", "*", "link.js"]);
    let action = select_action(&rec, &ps, None);
    assert!(matches!(action, RecordAction::Skip(SkipReason::Symlink)));
}

#[test]
fn added_and_modified_are_candidates_others_not() {
    let ps = patterns(&["*"]);
    for (status, expect_format) in [("A", true), ("M", true), ("D", false), ("R", false)] {
        let input = format!("100644 100644 {} {} {} f.js", HASH_A, HASH_B, status);
        let rec = parse_diff(&input.as_bytes().to_vec()).unwrap();
        let action = select_action(&rec, &ps, None);
        if expect_format {
            assert!(matches!(action, RecordAction::Format(_)), "status {}", status);
        } else {
            assert!(
                matches!(action, RecordAction::Skip(SkipReason::NotContentChange)),
                "status {}",
                status
            );
        }
    }
}

#[test]
fn select_action_filters_on_the_normalized_path() {
    let input = format!("100644 100644 {} {} M a.js", HASH_A, HASH_B);
    let rec = parse_diff(&input.as_bytes().to_vec()).unwrap();
    let ps = patterns(&["/repo/*.js"]);
    let root = bytes("/repo");
    match select_action(&rec, &ps, Some(&root)) {
        RecordAction::Format(path) => assert_eq!(path, bytes("/repo/a.js")),
        other => panic!("expected Format, got {:?}", matches!(other, RecordAction::Skip(_))),
    }
    let ps_unmatched = patterns(&["*.rs"]);
    let action = select_action(&rec, &ps_unmatched, Some(&root));
    assert!(matches!(action, RecordAction::Skip(SkipReason::Unmatched)));
}

#[test]
fn placeholder_substitution() {
    assert_eq!(
        substitute_placeholder(&bytes("fmt --stdin-filepath \"{}\""), &bytes("src/a.js")),
        bytes("fmt --stdin-filepath \"src/a.js\"")
    );
    assert_eq!(substitute_placeholder(&bytes("cat"), &bytes("x")), bytes("cat"));
    assert_eq!(substitute_placeholder(&bytes("{} {}"), &bytes("p")), bytes("p p"));
    assert_eq!(substitute_placeholder(&bytes("{{}}"), &bytes("p")), bytes("{p}"));
}
