use gut_core::formatter::{format_commit_message, is_conventional_commit, FormatConfig, FormatMode};

fn overlay(pairs: &[(&str, &str)]) -> Vec<(String, String)> {
    pairs
        .iter()
        .map(|(k, v)| (k.to_string(), v.to_string()))
        .collect()
}

#[test]
fn plain_type_gets_default_emoji() {
    let cfg = FormatConfig::default();
    assert_eq!(format_commit_message("feat: add login", &cfg), "✨ feat: add login");
}

#[test]
fn scoped_type_gets_default_emoji() {
    let cfg = FormatConfig::default();
    assert_eq!(
        format_commit_message("feat(auth): add login", &cfg),
        "✨ feat(auth): add login"
    );
}

#[test]
fn message_without_colon_is_unchanged() {
    let cfg = FormatConfig::default();
    assert_eq!(
        format_commit_message("random text no colon", &cfg),
        "random text no colon"
    );
}

#[test]
fn upper_case_mode_without_emoji() {
    let cfg = FormatConfig {
        emoji_enabled: false,
        footer_emoji: Vec::new(),
        format_mode: FormatMode::UpperFirst,
    };
    assert_eq!(format_commit_message("fix: bug", &cfg), "Fix: bug");
}

#[test]
fn lower_case_mode_without_emoji() {
    let cfg = FormatConfig {
        emoji_enabled: false,
        footer_emoji: Vec::new(),
        format_mode: FormatMode::LowerFirst,
    };
    assert_eq!(format_commit_message("Fix: bug", &cfg), "fix: bug");
}

#[test]
fn round_trip_no_colon_disabled_emoji() {
    let cfg = FormatConfig {
        emoji_enabled: false,
        footer_emoji: Vec::new(),
        format_mode: FormatMode::Untouched,
    };
    let raw = "just a plain message";
    assert_eq!(format_commit_message(raw, &cfg), raw);
}

#[test]
fn reformatting_output_is_stable() {
    // no idempotence is promised: once the glyph is prepended the head no
    // longer names a known type, so a second pass must not crash and must
    // give a stable result
    let cfg = FormatConfig::default();
    let once = format_commit_message("feat: add login", &cfg);
    let twice = format_commit_message(&once, &cfg);
    let thrice = format_commit_message(&twice, &cfg);
    assert_eq!(twice, thrice);
    assert_eq!(twice, "✨ feat: add login");
}

#[test]
fn empty_head_or_body_is_unchanged() {
    let cfg = FormatConfig::default();
    assert_eq!(format_commit_message(": body only", &cfg), ": body only");
    assert_eq!(format_commit_message("feat:   ", &cfg), "feat:   ");
    assert_eq!(format_commit_message(":", &cfg), ":");
}

#[test]
fn segments_are_trimmed() {
    let cfg = FormatConfig::default();
    assert_eq!(
        format_commit_message("  feat :   add login  ", &cfg),
        "✨ feat: add login"
    );
}

#[test]
fn unknown_type_gets_no_glyph() {
    let cfg = FormatConfig::default();
    assert_eq!(format_commit_message("wip: stuff", &cfg), "wip: stuff");
    // lookup is case-sensitive
    assert_eq!(format_commit_message("Feat: stuff", &cfg), "Feat: stuff");
}

#[test]
fn emoji_disabled_drops_glyph() {
    let cfg = FormatConfig {
        emoji_enabled: false,
        footer_emoji: Vec::new(),
        format_mode: FormatMode::Untouched,
    };
    assert_eq!(format_commit_message("feat: add login", &cfg), "feat: add login");
}

#[test]
fn overlay_overrides_default_glyph() {
    let cfg = FormatConfig {
        emoji_enabled: true,
        footer_emoji: overlay(&[("feat", "🎉")]),
        format_mode: FormatMode::Untouched,
    };
    assert_eq!(format_commit_message("feat: party", &cfg), "🎉 feat: party");
}

#[test]
fn overlay_adds_custom_type() {
    let cfg = FormatConfig {
        emoji_enabled: true,
        footer_emoji: overlay(&[("wip", "🚧")]),
        format_mode: FormatMode::Untouched,
    };
    assert_eq!(format_commit_message("wip: scaffolding", &cfg), "🚧 wip: scaffolding");
    // defaults still apply to other types
    assert_eq!(format_commit_message("fix: bug", &cfg), "🐛 fix: bug");
}

#[test]
fn case_transform_hits_glyph_not_type() {
    // the transform applies to the first character of the composed string:
    // with a glyph present, that is the glyph, and the ASCII-only transform
    // leaves it alone
    let cfg = FormatConfig {
        emoji_enabled: true,
        footer_emoji: Vec::new(),
        format_mode: FormatMode::UpperFirst,
    };
    assert_eq!(format_commit_message("feat: add login", &cfg), "✨ feat: add login");
}

#[test]
fn unclosed_scope_is_not_a_scope() {
    let cfg = FormatConfig::default();
    assert_eq!(format_commit_message("feat(auth: x", &cfg), "feat(auth: x");
}

#[test]
fn close_paren_before_open_is_not_a_scope() {
    let cfg = FormatConfig::default();
    assert_eq!(format_commit_message("fe)at(y: x", &cfg), "fe)at(y: x");
}

#[test]
fn other_default_types() {
    let cfg = FormatConfig::default();
    assert_eq!(format_commit_message("docs: readme", &cfg), "📝 docs: readme");
    assert_eq!(format_commit_message("perf: cache", &cfg), "⚡ perf: cache");
    assert_eq!(format_commit_message("revert: oops", &cfg), "⏪ revert: oops");
}

#[test]
fn from_settings_applies_defaults_and_mode_strings() {
    let cfg = FormatConfig::from_settings(None, Vec::new(), None);
    assert!(cfg.emoji_enabled);
    assert_eq!(cfg.format_mode, FormatMode::Untouched);
    assert!(cfg.footer_emoji.is_empty());

    let cfg = FormatConfig::from_settings(Some(false), Vec::new(), Some("upper_case".to_string()));
    assert!(!cfg.emoji_enabled);
    assert_eq!(cfg.format_mode, FormatMode::UpperFirst);

    let cfg = FormatConfig::from_settings(Some(true), Vec::new(), Some("lower_case".to_string()));
    assert!(cfg.emoji_enabled);
    assert_eq!(cfg.format_mode, FormatMode::LowerFirst);

    // an unrecognized mode string selects no transform
    let cfg = FormatConfig::from_settings(None, Vec::new(), Some("shouting".to_string()));
    assert_eq!(cfg.format_mode, FormatMode::Untouched);

    // the overlay is taken as given
    let cfg = FormatConfig::from_settings(None, overlay(&[("wip", "🚧")]), None);
    assert_eq!(cfg.footer_emoji, overlay(&[("wip", "🚧")]));
}

#[test]
fn from_settings_feeds_the_formatter() {
    let cfg = FormatConfig::from_settings(Some(false), Vec::new(), Some("upper_case".to_string()));
    assert_eq!(format_commit_message("fix: bug", &cfg), "Fix: bug");
}

#[test]
fn conventional_commit_shapes() {
    assert!(is_conventional_commit("feat: x"));
    assert!(is_conventional_commit("feat(auth): add login"));
    assert!(is_conventional_commit("  chore : tidy  "));
    assert!(!is_conventional_commit("no colon here"));
    assert!(!is_conventional_commit(": x"));
    assert!(!is_conventional_commit("feat:"));
    assert!(!is_conventional_commit("feat:   "));
    assert!(!is_conventional_commit("feat(: x"));
    assert!(!is_conventional_commit("fe)at(y: x"));
    assert!(is_conventional_commit("feat(auth: x") == false);
}
