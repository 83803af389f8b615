use gut_core::commands::{
    plan_commit, branch_args, template_git_dir, log_pretty_arg, log_args, log_settings, rlog_args,
    order_branches, split_log_line, merge_commits, commits_for_branch, hook_script, CommitError,
};
use gut_core::formatter::FormatConfig;

fn strings(entries: &[&str]) -> Vec<String> {
    entries.iter().map(|s| s.to_string()).collect()
}

#[test]
fn plan_commit_formats_last_argument() {
    let cfg = FormatConfig::default();
    let args = strings(&["feat: add login"]);
    let ga = plan_commit(&args, false, &cfg).unwrap();
    assert_eq!(ga, strings(&["commit", "-m", "✨ feat: add login"]));
}

#[test]
fn plan_commit_forwards_earlier_arguments() {
    let cfg = FormatConfig::default();
    let args = strings(&["-a", "--no-verify", "fix: bug"]);
    let ga = plan_commit(&args, false, &cfg).unwrap();
    assert_eq!(
        ga,
        strings(&["commit", "-a", "--no-verify", "-m", "🐛 fix: bug"])
    );
}

#[test]
fn plan_commit_without_arguments_is_refused() {
    let cfg = FormatConfig::default();
    let r = plan_commit(&Vec::new(), false, &cfg);
    assert_eq!(r.unwrap_err(), CommitError::MissingMessage);
}

#[test]
fn plan_commit_enforces_conventional_shape() {
    let cfg = FormatConfig::default();
    let args = strings(&["random text"]);
    let r = plan_commit(&args, true, &cfg);
    assert_eq!(r.unwrap_err(), CommitError::NotConventional);
    // the same message passes when enforcement is off
    let ga = plan_commit(&args, false, &cfg).unwrap();
    assert_eq!(ga, strings(&["commit", "-m", "random text"]));
    // and a conventional message passes with enforcement on
    let args = strings(&["feat: x"]);
    let ga = plan_commit(&args, true, &cfg).unwrap();
    assert_eq!(ga, strings(&["commit", "-m", "✨ feat: x"]));
}

#[test]
fn branch_args_create_and_switch() {
    assert_eq!(branch_args(&"dev".to_string()), strings(&["checkout", "-b", "dev"]));
}

#[test]
fn template_git_dir_appends_metadata_path() {
    assert_eq!(template_git_dir("proj"), "proj/.git");
    assert_eq!(template_git_dir("."), "./.git");
}

#[test]
fn log_settings_fall_back_to_defaults() {
    assert_eq!(log_settings(None, None, 10), (10, "less".to_string()));
    assert_eq!(log_settings(None, None, 20), (20, "less".to_string()));
    assert_eq!(
        log_settings(Some(7), Some("more".to_string()), 10),
        (7, "more".to_string())
    );
    assert_eq!(log_settings(Some(0), None, 10), (0, "less".to_string()));
}

#[test]
fn log_pretty_depends_on_info() {
    assert_eq!(log_pretty_arg("more"), "--pretty=format:%h %an %ad %s");
    assert_eq!(log_pretty_arg("less"), "--pretty=format:%h %s");
    assert_eq!(log_pretty_arg("anything"), "--pretty=format:%h %s");
}

#[test]
fn log_and_rlog_argument_lists() {
    assert_eq!(
        log_args(&"10".to_string(), "less"),
        strings(&["log", "-n", "10", "--pretty=format:%h %s"])
    );
    assert_eq!(
        rlog_args(&"5".to_string(), "more", &strings(&["--all"])),
        strings(&[
            "log",
            "-n",
            "5",
            "--reverse",
            "--pretty=format:%h %an %ad %s",
            "--all"
        ])
    );
}

#[test]
fn order_branches_puts_current_first_once() {
    let branches = strings(&["alpha", "beta", "main", "gamma", "main"]);
    let r = order_branches(&branches, &Some("main".to_string()));
    assert_eq!(r, strings(&["main", "alpha", "beta", "gamma"]));
}

#[test]
fn order_branches_without_current_keeps_order() {
    let branches = strings(&["alpha", "beta"]);
    let r = order_branches(&branches, &None);
    assert_eq!(r, branches);
}

#[test]
fn split_log_line_at_first_space() {
    assert_eq!(
        split_log_line("ab12cd fix the parser"),
        Some(("ab12cd".to_string(), "fix the parser".to_string()))
    );
    assert_eq!(split_log_line("nospace"), None);
    assert_eq!(split_log_line("hash "), Some(("hash".to_string(), "".to_string())));
}

fn entry(b: &str, h: &str, m: &str) -> (String, String, String) {
    (b.to_string(), h.to_string(), m.to_string())
}

#[test]
fn merge_commits_keeps_first_occurrence_of_each_hash() {
    let entries = vec![
        entry("main", "aaa", "first"),
        entry("main", "bbb", "second"),
        entry("dev", "aaa", "first again"),
        entry("dev", "ccc", "third"),
    ];
    let r = merge_commits(&entries, 10);
    assert_eq!(
        r,
        vec![
            entry("main", "aaa", "first"),
            entry("main", "bbb", "second"),
            entry("dev", "ccc", "third"),
        ]
    );
}

#[test]
fn merge_commits_respects_limit() {
    let entries = vec![
        entry("main", "aaa", "one"),
        entry("main", "bbb", "two"),
        entry("main", "ccc", "three"),
    ];
    let r = merge_commits(&entries, 2);
    assert_eq!(r, vec![entry("main", "aaa", "one"), entry("main", "bbb", "two")]);
}

#[test]
fn commits_for_branch_filters_in_order() {
    let merged = vec![
        entry("main", "aaa", "one"),
        entry("dev", "bbb", "two"),
        entry("main", "ccc", "three"),
    ];
    let r = commits_for_branch(&merged, &"main".to_string());
    assert_eq!(
        r,
        vec![
            ("aaa".to_string(), "one".to_string()),
            ("ccc".to_string(), "three".to_string()),
        ]
    );
}

#[test]
fn hook_script_with_condition() {
    let script = hook_script(
        "test -f Cargo.toml",
        &strings(&["cargo fmt --check", "cargo test"]),
    );
    assert_eq!(
        script,
        "#!/bin/sh\nset -e\nif ! (test -f Cargo.toml); then exit 0; fi\ncargo fmt --check\ncargo test\n"
    );
}

#[test]
fn hook_script_without_condition() {
    let script = hook_script("", &strings(&["echo hi"]));
    assert_eq!(script, "#!/bin/sh\nset -e\necho hi\n");
}

#[test]
fn chars_round_trip_through_string() {
    let v = gut_core::chars::str_chars("naïve ✨ text");
    assert_eq!(gut_core::chars::chars_to_string(&v), "naïve ✨ text");
}
