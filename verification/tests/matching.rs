//! Path matching through compiled patterns: basename scope, anchoring,
//! directory-only patterns and case folding.

use git_glob::{Case, Pattern};

fn pat(text: &str) -> Pattern {
    Pattern::from_bytes(text.as_bytes()).expect("valid pattern")
}

fn basename_start(path: &str) -> Option<usize> {
    path.bytes().rposition(|b| b == b'/').map(|i| i + 1)
}

fn match_file(pattern: &Pattern, path: &str, case: Case) -> bool {
    pattern.matches_path(path.as_bytes(), basename_start(path), false, case)
}

#[test]
fn non_dirs_for_must_be_dir_patterns_are_ignored() {
    let pattern = pat("hello/");

    assert!(pattern.mode.must_be_dir);
    assert_eq!(
        pattern.text.as_slice(),
        b"hello",
        "a dir pattern doesn't actually end with the trailing slash"
    );
    let path = "hello";
    assert!(
        !pattern.matches_path(path.as_bytes(), None, false, Case::Sensitive),
        "non-dirs never match a dir pattern"
    );
    assert!(
        pattern.matches_path(path.as_bytes(), None, true, Case::Sensitive),
        "dirs can match a dir pattern with the normal rules"
    );
}

#[test]
fn basename_matches_from_end() {
    let pattern = &pat("foo");
    assert!(match_file(pattern, "FoO", Case::Fold));
    assert!(!match_file(pattern, "FoOo", Case::Fold));
    assert!(!match_file(pattern, "Foo", Case::Sensitive));
    assert!(match_file(pattern, "foo", Case::Sensitive));
    assert!(!match_file(pattern, "barfoo", Case::Sensitive));
    assert!(!match_file(pattern, "barfoo", Case::Fold));
}

#[test]
fn absolute_basename_matches_only_from_beginning() {
    let pattern = &pat("/foo");
    assert!(match_file(pattern, "FoO", Case::Fold));
    assert!(!match_file(pattern, "bar/Foo", Case::Fold));
    assert!(match_file(pattern, "foo", Case::Sensitive));
    assert!(!match_file(pattern, "Foo", Case::Sensitive));
    assert!(!match_file(pattern, "bar/foo", Case::Sensitive));
}

#[test]
fn basename_glob_and_literal_is_ends_with() {
    let pattern = &pat("*foo");
    assert!(match_file(pattern, "FoO", Case::Fold));
    assert!(match_file(pattern, "BarFoO", Case::Fold));
    assert!(!match_file(pattern, "BarFoOo", Case::Fold));
    assert!(!match_file(pattern, "Foo", Case::Sensitive));
    assert!(!match_file(pattern, "BarFoo", Case::Sensitive));
    assert!(match_file(pattern, "barfoo", Case::Sensitive));
    assert!(!match_file(pattern, "barfooo", Case::Sensitive));
    assert!(match_file(pattern, "bar/foo", Case::Sensitive));
    assert!(match_file(pattern, "bar/bazfoo", Case::Sensitive));
}

#[test]
fn absolute_basename_glob_and_literal_is_ends_with() {
    let pattern = &pat("/*foo");
    assert!(match_file(pattern, "FoO", Case::Fold));
    assert!(match_file(pattern, "BarFoO", Case::Fold));
    assert!(!match_file(pattern, "BarFoOo", Case::Fold));
    assert!(!match_file(pattern, "Foo", Case::Sensitive));
    assert!(!match_file(pattern, "BarFoo", Case::Sensitive));
    assert!(match_file(pattern, "barfoo", Case::Sensitive));
    assert!(!match_file(pattern, "barfooo", Case::Sensitive));
    assert!(!match_file(pattern, "bar/foo", Case::Sensitive));
    assert!(!match_file(pattern, "bar/bazfoo", Case::Sensitive));
}

#[test]
fn anchored_multi_segment_matches_whole_path_only() {
    let pattern = &pat("bar/foo");
    assert!(!pattern.mode.no_sub_dir);
    assert!(match_file(pattern, "bar/foo", Case::Sensitive));
    assert!(!match_file(pattern, "baz/bar/foo", Case::Sensitive));
    assert!(match_file(pattern, "bar/Foo", Case::Fold));
    assert!(!match_file(pattern, "Baz/bar/Foo", Case::Fold));
    assert!(!match_file(pattern, "foo", Case::Sensitive));
}

#[test]
fn basename_scope_ignores_leading_directories() {
    let pattern = &pat("foo");
    let shallow = match_file(pattern, "foo", Case::Sensitive);
    let deep = match_file(pattern, "deep/er/foo", Case::Sensitive);
    assert!(shallow && deep, "prepending directories must not change the verdict");
    assert!(!match_file(pattern, "deep/er/nope", Case::Sensitive));
}

#[test]
fn directory_gate_wins_over_any_text() {
    let pattern = &pat("*/");
    assert!(pattern.mode.must_be_dir);
    assert!(!pattern.matches_path(b"anything", None, false, Case::Sensitive));
    assert!(!pattern.matches_path(b"anything", None, false, Case::Fold));
    assert!(pattern.matches_path(b"anything", None, true, Case::Sensitive));
}

#[test]
fn sensitive_mode_distinguishes_case() {
    let pattern = &pat("foo");
    assert!(match_file(pattern, "foo", Case::Sensitive));
    assert!(!match_file(pattern, "FOO", Case::Sensitive));
    assert!(match_file(pattern, "FOO", Case::Fold));
}

#[test]
fn compiling_twice_behaves_identically() {
    let first = pat("!/hello/*.[ch]/");
    let second = pat("!/hello/*.[ch]/");
    assert_eq!(first.text, second.text);
    assert_eq!(first.mode, second.mode);
    for path in ["hello/a.c", "hello/b.h", "hello/ab.c", "other/a.c"] {
        for case in [Case::Sensitive, Case::Fold] {
            for is_dir in [false, true] {
                assert_eq!(
                    first.matches_path(path.as_bytes(), basename_start(path), is_dir, case),
                    second.matches_path(path.as_bytes(), basename_start(path), is_dir, case)
                );
            }
        }
    }
}
