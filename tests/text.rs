use dkdc::ignore::{load_patterns, should_ignore};
use dkdc::text::format_string_with_line_limit;

fn pats(p: &[&str]) -> Vec<String> {
    p.iter().map(|s| s.to_string()).collect()
}

#[test]
fn git_directory_is_always_ignored() {
    let p = load_patterns(None);
    assert_eq!(p, pats(&[".git", ".git/**"]));
    assert!(should_ignore(".git", &p));
    assert!(should_ignore(".git/config", &p));
    assert!(!should_ignore("src/main.rs", &p));
}

#[test]
fn gitignore_lines_are_trimmed_and_comments_dropped() {
    let p = load_patterns(Some("# build output\n target \r\n\n*.log\r\n  # note\nnode_modules/**"));
    assert_eq!(
        p,
        pats(&[".git", ".git/**", "target", "*.log", "node_modules/**"])
    );
}

#[test]
fn plain_pattern_covers_itself_and_what_is_under_it() {
    let p = pats(&["target"]);
    assert!(should_ignore("target", &p));
    assert!(should_ignore("target/debug/x", &p));
    assert!(!should_ignore("targets", &p));
    assert!(!should_ignore("src/target", &p));
}

#[test]
fn globstar_suffix_covers_by_prefix() {
    let p = pats(&["build/**"]);
    assert!(should_ignore("build/a/b", &p));
    assert!(should_ignore("builder", &p));
    assert!(!should_ignore("src/build", &p));
}

#[test]
fn star_patterns_match_any_run() {
    let p = pats(&["*.log"]);
    assert!(should_ignore("a.log", &p));
    assert!(should_ignore("dir/a.log", &p));
    assert!(!should_ignore("a.txt", &p));
    let p = pats(&["a*b*c"]);
    assert!(should_ignore("axxbyyc", &p));
    assert!(should_ignore("abc", &p));
    assert!(!should_ignore("acb", &p));
    let p = pats(&["ab*b"]);
    assert!(!should_ignore("ab", &p));
    assert!(should_ignore("abb", &p));
    let p = pats(&["x*"]);
    assert!(should_ignore("x", &p));
    assert!(!should_ignore("yx", &p));
}

#[test]
fn no_patterns_ignore_nothing() {
    assert!(!should_ignore("anything", &[]));
}

#[test]
fn wrapping_breaks_before_a_word_that_would_pass_the_limit() {
    assert_eq!(
        format_string_with_line_limit("aaa bbb ccc", Some(8)),
        "aaa bbb \nccc \n"
    );
    assert_eq!(format_string_with_line_limit("one  two\nthree", None), "one two \nthree \n");
    assert_eq!(format_string_with_line_limit("", None), "");
    assert_eq!(format_string_with_line_limit("\n\n", None), "\n\n");
    assert_eq!(format_string_with_line_limit("abcdef", Some(3)), "\nabcdef \n");
}

#[test]
fn wrapping_counts_bytes() {
    assert_eq!(format_string_with_line_limit("éé éé", Some(8)), "éé \néé \n");
    assert_eq!(format_string_with_line_limit("ab ab", Some(5)), "ab ab \n");
}
