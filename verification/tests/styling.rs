use devmoji_log::commit::hyperlink;
use devmoji_log::commit::Commit;
use devmoji_log::commit::Timestamp;

#[test]
fn colourized_header_and_link() {
    colored::control::set_override(true);
    let c = Commit {
        id: "abc123".to_string(),
        message: "feat(api): add pagination".to_string(),
        timestamp: Timestamp { seconds: 0, offset_seconds: 0 },
        url: "https://example.com/r".to_string(),
    };
    let line = c.format(&Timestamp { seconds: 3600, offset_seconds: 0 }).expect("span must round");
    // The scope is bold inside the blue header; colored re-opens blue after
    // the inner reset.
    assert_eq!(
        line,
        "\u{1b}[34mfeat(\u{1b}[1mapi\u{1b}[0m\u{1b}[34m):\u{1b}[0m ✨ add pagination (1 hour ago)"
    );
    let link = hyperlink("https://example.com/x", "abc");
    assert_eq!(
        link,
        "\u{1b}[36m\u{1b}]8;;https://example.com/x\u{1b}\\abc\u{1b}]8;;\u{1b}\\\u{1b}[0m"
    );
}
