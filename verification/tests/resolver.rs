use gut_core::distance::{levenshtein, infer_subcommand};
use gut_core::resolver::{resolve, resolve_action, ResolveAction};

fn catalog(entries: &[&str]) -> Vec<String> {
    entries.iter().map(|s| s.to_string()).collect()
}

#[test]
fn distance_cmt_commit_is_three() {
    assert_eq!(levenshtein("cmt", "commit"), 3);
}

#[test]
fn distance_is_symmetric() {
    assert_eq!(
        levenshtein("kitten", "sitting"),
        levenshtein("sitting", "kitten")
    );
    assert_eq!(levenshtein("kitten", "sitting"), 3);
    assert_eq!(levenshtein("abc", ""), levenshtein("", "abc"));
}

#[test]
fn distance_to_self_is_zero() {
    assert_eq!(levenshtein("commit", "commit"), 0);
    assert_eq!(levenshtein("", ""), 0);
}

#[test]
fn distance_from_empty_is_target_length() {
    assert_eq!(levenshtein("", "abc"), 3);
    assert_eq!(levenshtein("abc", ""), 3);
}

#[test]
fn resolve_cmt_matches_commit() {
    let r = resolve("cmt", &catalog(&["commit", "checkout", "clone"]));
    assert_eq!(r.matched_command.as_deref(), Some("commit"));
    assert_eq!(r.edit_distance, 3);
}

#[test]
fn resolve_prefix_short_circuits_to_zero() {
    let r = resolve("co", &catalog(&["commit", "checkout", "clone"]));
    assert_eq!(r.edit_distance, 0);
    assert_eq!(r.matched_command.as_deref(), Some("commit"));
    // the suffix length does not matter
    let r = resolve("ch", &catalog(&["checkout"]));
    assert_eq!(r.edit_distance, 0);
    let r = resolve("ch", &catalog(&["cherrypickveryverylong"]));
    assert_eq!(r.edit_distance, 0);
}

#[test]
fn resolve_empty_input_is_no_prefix_match() {
    // empty input must not match everything by prefix; its distance to an
    // entry is the entry's length
    let r = resolve("", &catalog(&["add", "commit"]));
    assert_eq!(r.edit_distance, 3);
    assert_eq!(r.matched_command.as_deref(), Some("add"));
}

#[test]
fn resolve_tie_breaks_to_first_entry() {
    let r = resolve("ab", &catalog(&["axb", "ayb"]));
    assert_eq!(r.edit_distance, 1);
    assert_eq!(r.matched_command.as_deref(), Some("axb"));
}

#[test]
fn resolve_empty_catalog() {
    let r = resolve("anything", &Vec::new());
    assert!(r.matched_command.is_none());
    assert_eq!(r.edit_distance, usize::MAX);
}

#[test]
fn resolve_far_input_keeps_best_match() {
    let r = resolve("xyzxyz", &catalog(&["commit", "checkout", "clone"]));
    assert!(r.edit_distance > 3);
    let m = r.matched_command.unwrap();
    assert_eq!(
        resolve_action("xyzxyz", &m, r.edit_distance),
        ResolveAction::Forward
    );
}

#[test]
fn resolve_action_policy() {
    assert_eq!(
        resolve_action("commit", &"commit".to_string(), 0),
        ResolveAction::DispatchSilently
    );
    assert_eq!(
        resolve_action("comit", &"commit".to_string(), 1),
        ResolveAction::DispatchWithNotice
    );
    assert_eq!(
        resolve_action("co", &"commit".to_string(), 0),
        ResolveAction::DispatchWithNotice
    );
    assert_eq!(
        resolve_action("qqqqq", &"commit".to_string(), 5),
        ResolveAction::Forward
    );
}

#[test]
fn infer_subcommand_prefix_and_near_miss() {
    assert!(infer_subcommand("co", "commit"));
    assert!(infer_subcommand("comit", "commit"));
    assert!(infer_subcommand("committ", "commit"));
    assert!(!infer_subcommand("xx", "commit"));
    assert!(!infer_subcommand("cmt", "commit"));
}

#[test]
fn infer_subcommand_empty_input_never_prefix_matches() {
    // an empty input falls through to the distance test alone, so only
    // targets of at most one character pass
    assert!(!infer_subcommand("", "commit"));
    assert!(!infer_subcommand("", "ab"));
    assert!(infer_subcommand("", "a"));
    assert!(infer_subcommand("", ""));
}
