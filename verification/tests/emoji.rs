use devmoji_log::resolve::format_emoji;
use devmoji_log::table::commit_emoji;

#[test]
fn table_known_keys() {
    assert_eq!(commit_emoji("feat"), Some("✨"));
    assert_eq!(commit_emoji("feature"), Some("✨"));
    assert_eq!(commit_emoji("fix"), Some("🐛"));
    assert_eq!(commit_emoji("k8s"), Some("☸️"));
    assert_eq!(commit_emoji("kubernetes"), Some("☸️"));
    assert_eq!(commit_emoji("wip"), Some("🚧"));
}

#[test]
fn table_unknown_keys() {
    assert_eq!(commit_emoji("zzz"), None);
    assert_eq!(commit_emoji("FEAT"), None);
    assert_eq!(commit_emoji(""), None);
}

#[test]
fn single_table_token_resolves_to_its_glyph_alone() {
    let keys = [
        "add",
        "android",
        "breaking",
        "build",
        "deps",
        "dep",
        "dependencies",
        "chore",
        "maintenance",
        "ci",
        "cd",
        "config",
        "doc",
        "docs",
        "documentation",
        "docker",
        "feat",
        "feature",
        "fix",
        "i18n",
        "l10n",
        "kubernetes",
        "k8s",
        "lint",
        "linter",
        "linux",
        "macos",
        "ios",
        "merge",
        "perf",
        "performance",
        "ref",
        "refactor",
        "release",
        "remove",
        "revert",
        "security",
        "style",
        "test",
        "tests",
        "typo",
        "typos",
        "ui",
        "ux",
        "windows",
        "wip",
    ];
    for key in keys {
        let glyph = commit_emoji(key).expect("key must be in the table");
        assert_eq!(format_emoji(key, None, false, ""), glyph);
    }
}

#[test]
fn breaking_adds_boom_for_unknown_names() {
    let r = format_emoji("zzz", Some("qqq"), true, "nope");
    assert!(r.contains("💥"));
    assert_eq!(r, "💥");
}

#[test]
fn breaking_comes_before_type_glyph() {
    assert_eq!(format_emoji("fix", None, true, ""), "💥 🐛");
}

#[test]
fn combined_scope_key_resolves_in_registry() {
    assert_eq!(format_emoji("t", Some("rex"), false, ""), "🦖");
}

#[test]
fn scope_falls_back_to_table_on_combined_miss() {
    assert_eq!(format_emoji("zzz", Some("fix"), false, ""), "🐛");
}

#[test]
fn free_text_codes_extracted_from_description() {
    assert_eq!(format_emoji("chore", None, false, "foo:bug:bar"), "🔧 🐛");
}

#[test]
fn no_colon_means_no_free_text_extraction() {
    assert_eq!(format_emoji("chore", None, false, "no colon here"), "🔧");
    assert_eq!(format_emoji("chore", None, false, "bug"), "🔧");
}

#[test]
fn duplicate_glyphs_collapse() {
    assert_eq!(format_emoji("fix", None, false, "see:bug:"), "🐛");
}

#[test]
fn empty_segments_are_dropped() {
    assert_eq!(format_emoji("zzz", None, false, "::bug::"), "🐛");
}
