use devmoji_log::commit::hyperlink;
use devmoji_log::commit::render_feed;
use devmoji_log::commit::Commit;
use devmoji_log::commit::Timestamp;
use devmoji_log::text::tidy_line;

fn commit_with(message: &str) -> Commit {
    Commit {
        id: "abc123".to_string(),
        message: message.to_string(),
        timestamp: Timestamp { seconds: 0, offset_seconds: 0 },
        url: "https://example.com/org/repo".to_string(),
    }
}

fn one_hour_later() -> Timestamp {
    Timestamp { seconds: 3600, offset_seconds: 0 }
}

#[test]
fn end_to_end_conventional_line() {
    colored::control::set_override(false);
    let c = commit_with("feat(api): add pagination");
    let line = c.format(&one_hour_later()).expect("span must round");
    assert_eq!(line, "feat(api): ✨ add pagination (1 hour ago)");
}

#[test]
fn non_conventional_message_stays_raw() {
    colored::control::set_override(false);
    let c = commit_with("Merge pull request #1");
    let line = c.format(&one_hour_later()).expect("span must round");
    assert_eq!(line, "Merge pull request #1 (1 hour ago)");
}

#[test]
fn zero_glyphs_keep_the_raw_message() {
    colored::control::set_override(false);
    let c = commit_with("zzz: plain description");
    let line = c.format(&one_hour_later()).expect("span must round");
    assert_eq!(line, "zzz: plain description (1 hour ago)");
}

#[test]
fn multi_line_fallback_loses_the_time_suffix() {
    colored::control::set_override(false);
    let c = commit_with("Update the readme\n\nA much longer explanation.");
    let line = c.format(&one_hour_later()).expect("span must round");
    assert_eq!(line, "Update the readme");
    assert!(!line.contains("ago"));
}

#[test]
fn breaking_conventional_line() {
    colored::control::set_override(false);
    let c = commit_with("fix(ui)!: drop old flag");
    let line = c.format(&one_hour_later()).expect("span must round");
    assert_eq!(line, "fix(ui)!: 💥 🐛 💄 drop old flag (1 hour ago)");
}

#[test]
fn span_longer_than_a_day() {
    colored::control::set_override(false);
    let c = commit_with("docs: explain setup");
    // 26 hours later: rounded from years down to hours.
    let now = Timestamp { seconds: 26 * 3600, offset_seconds: 0 };
    let line = c.format(&now).expect("span must round");
    assert_eq!(line, "docs: 📚 explain setup (1 day, 2 hours ago)");
}

#[test]
fn pathological_timestamp_fails() {
    colored::control::set_override(false);
    let c = Commit {
        id: "abc123".to_string(),
        message: "fix: x".to_string(),
        timestamp: Timestamp { seconds: i64::MAX, offset_seconds: 0 },
        url: "https://example.com/r".to_string(),
    };
    assert!(c.format(&one_hour_later()).is_err());
}

#[test]
fn hyperlink_wraps_text_in_osc8() {
    colored::control::set_override(false);
    assert_eq!(
        hyperlink("https://example.com/x", "abc"),
        "\u{1b}]8;;https://example.com/x\u{1b}\\abc\u{1b}]8;;\u{1b}\\"
    );
}

#[test]
fn commit_id_links_to_the_commit_page() {
    colored::control::set_override(false);
    let c = commit_with("fix: x");
    assert_eq!(
        c.id(),
        "\u{1b}]8;;https://example.com/org/repo/commit/abc123\u{1b}\\abc123\u{1b}]8;;\u{1b}\\"
    );
}

#[test]
fn empty_feed_prints_nothing() {
    colored::control::set_override(false);
    let commits: Vec<Commit> = Vec::new();
    let lines = render_feed(&commits, &one_hour_later()).expect("no commit can fail");
    assert!(lines.is_empty());
}

#[test]
fn feed_has_heading_bullets_and_blank_lines() {
    colored::control::set_override(false);
    let commits = vec![commit_with("feat(api): add pagination")];
    let lines = render_feed(&commits, &one_hour_later()).expect("span must round");
    assert_eq!(lines.len(), 4);
    assert_eq!(lines[0], "  ## Recent Activity");
    assert_eq!(lines[1], "");
    assert_eq!(
        lines[2],
        format!(
            "  * {} {}",
            "\u{1b}]8;;https://example.com/org/repo/commit/abc123\u{1b}\\abc123\u{1b}]8;;\u{1b}\\",
            "feat(api): ✨ add pagination (1 hour ago)"
        )
    );
    assert_eq!(lines[3], "");
}

#[test]
fn feed_fails_on_a_pathological_timestamp() {
    colored::control::set_override(false);
    let good = commit_with("fix: fine");
    let bad = Commit {
        id: "abc123".to_string(),
        message: "fix: x".to_string(),
        timestamp: Timestamp { seconds: i64::MAX, offset_seconds: 0 },
        url: "https://example.com/r".to_string(),
    };
    let commits = vec![good, bad];
    assert!(render_feed(&commits, &one_hour_later()).is_err());
}

#[test]
fn feed_keeps_commit_order() {
    colored::control::set_override(false);
    let commits = vec![commit_with("fix: first"), commit_with("fix: second")];
    let lines = render_feed(&commits, &one_hour_later()).expect("span must round");
    assert_eq!(lines.len(), 5);
    assert!(lines[2].contains("first"));
    assert!(lines[3].contains("second"));
}

#[test]
fn tidy_line_trims_and_cuts() {
    assert_eq!(tidy_line("  hello world  "), "hello world");
    assert_eq!(tidy_line("  \n\nhello\nworld"), "hello");
    assert_eq!(tidy_line("a line\r\nrest"), "a line");
    assert_eq!(tidy_line("   "), "");
}
