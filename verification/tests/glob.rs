//! The glob engine on its own: wildcards, directory boundaries, character
//! classes, escapes and case folding.

use git_glob::wildmatch::wildmatch;
use git_glob::Case;

fn m(pattern: &[u8], text: &[u8]) -> bool {
    wildmatch(pattern, text, Case::Sensitive)
}

fn mf(pattern: &[u8], text: &[u8]) -> bool {
    wildmatch(pattern, text, Case::Fold)
}

#[test]
fn matching_is_anchored_at_both_ends() {
    assert!(m(b"foo", b"foo"));
    assert!(!m(b"foo", b"xfoo"));
    assert!(!m(b"foo", b"foox"));
    assert!(!m(b"foo", b""));
    assert!(m(b"", b""));
    assert!(!m(b"", b"a"));
}

#[test]
fn question_mark_matches_one_byte_but_not_slash() {
    assert!(m(b"a?c", b"abc"));
    assert!(!m(b"a?c", b"ac"));
    assert!(!m(b"a?c", b"abbc"));
    assert!(!m(b"a?c", b"a/c"));
}

#[test]
fn single_star_never_crosses_a_directory_boundary() {
    assert!(m(b"a*", b"abc"));
    assert!(m(b"*", b""));
    assert!(!m(b"a*c", b"ab/c"));
    assert!(!m(b"*", b"a/b"));
    assert!(m(b"a/*", b"a/b"));
    assert!(!m(b"a/*", b"a/b/c"));
}

#[test]
fn double_star_crosses_directory_boundaries() {
    assert!(m(b"a/**/b", b"a/b"));
    assert!(m(b"a/**/b", b"a/x/b"));
    assert!(m(b"a/**/b", b"a/x/y/b"));
    assert!(!m(b"a/**/b", b"ab"));
    assert!(m(b"**/foo", b"foo"));
    assert!(m(b"**/foo", b"x/y/foo"));
    assert!(m(b"a/**", b"a/b/c"));
    assert!(!m(b"a/**", b"a"));
    assert!(m(b"**", b"a/b/c"));
}

#[test]
fn character_classes_match_one_byte() {
    assert!(m(b"[a-z]", b"q"));
    assert!(!m(b"[a-z]", b"Q"));
    assert!(m(b"x[0-9]y", b"x5y"));
    assert!(!m(b"[a-z]", b"aa"));
    assert!(m(b"[abc]", b"b"));
    assert!(!m(b"[abc]", b"d"));
}

#[test]
fn negated_classes_and_slash_exclusion() {
    assert!(m(b"[!a]", b"b"));
    assert!(!m(b"[!a]", b"a"));
    assert!(m(b"[^a]", b"b"));
    assert!(!m(b"[!a]", b"/"), "a class never matches the separator, even negated");
    assert!(!m(b"[/]", b"/"));
}

#[test]
fn literal_close_bracket_first_and_escapes_in_classes() {
    assert!(m(b"[]]", b"]"));
    assert!(!m(b"[]]", b"a"));
    assert!(m(b"[\\]]", b"]"));
    assert!(m(b"[\\-x]", b"-"));
    assert!(m(b"[a\\-x]", b"a"));
    assert!(m(b"[a\\-x]", b"-"));
    assert!(!m(b"[a\\-x]", b"b"));
}

#[test]
fn unterminated_class_matches_nothing() {
    assert!(!m(b"[abc", b"a"));
    assert!(!m(b"[abc", b"[abc"));
    assert!(!m(b"a[", b"a["));
}

#[test]
fn backslash_escapes_special_bytes() {
    assert!(m(b"\\*", b"*"));
    assert!(!m(b"\\*", b"a"));
    assert!(m(b"\\?", b"?"));
    assert!(!m(b"\\?", b"a"));
    assert!(m(b"\\[a]", b"[a]"));
    assert!(m(b"a\\\\b", b"a\\b"));
}

#[test]
fn dangling_backslash_matches_a_literal_backslash() {
    assert!(m(b"a\\", b"a\\"));
    assert!(!m(b"a\\", b"a"));
}

#[test]
fn folding_applies_to_literals_classes_and_escapes() {
    assert!(mf(b"FoO", b"fOo"));
    assert!(!m(b"FoO", b"fOo"));
    assert!(mf(b"[A-Z]x", b"qX"));
    assert!(mf(b"\\F", b"f"));
    assert!(!mf(b"f=o", b"F+O"), "only letters fold");
    assert!(mf(b"*X", b"abcx"));
}
