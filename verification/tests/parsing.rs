use devmoji_log::parser::parse;

#[test]
fn plain_header_parses() {
    let f = parse("feat: add pagination").expect("conventional");
    assert_eq!(f.ty, "feat");
    assert_eq!(f.scope, None);
    assert!(!f.breaking);
    assert_eq!(f.description, "add pagination");
}

#[test]
fn scope_and_breaking_parse() {
    let f = parse("feat(api)!: hello").expect("conventional");
    assert_eq!(f.ty, "feat");
    assert_eq!(f.scope.as_deref(), Some("api"));
    assert!(f.breaking);
    assert_eq!(f.description, "hello");
}

#[test]
fn only_first_line_is_read() {
    let f = parse("fix(ui): align button\n\nLonger body text.").expect("conventional");
    assert_eq!(f.ty, "fix");
    assert_eq!(f.scope.as_deref(), Some("ui"));
    assert_eq!(f.description, "align button");
}

#[test]
fn crlf_line_ending_is_stripped() {
    let f = parse("fix: trailing\r\nbody").expect("conventional");
    assert_eq!(f.description, "trailing");
}

#[test]
fn empty_description_is_allowed() {
    let f = parse("chore: ").expect("conventional");
    assert_eq!(f.ty, "chore");
    assert_eq!(f.description, "");
}

#[test]
fn merge_message_is_not_conventional() {
    assert!(parse("Merge pull request #1 from org/repo").is_none());
}

#[test]
fn missing_space_after_colon_rejected() {
    assert!(parse("feat:x").is_none());
}

#[test]
fn missing_colon_rejected() {
    assert!(parse("feat!").is_none());
    assert!(parse("just words").is_none());
}

#[test]
fn empty_scope_rejected() {
    assert!(parse("feat(): x").is_none());
}

#[test]
fn unclosed_scope_rejected() {
    assert!(parse("feat(api: x").is_none());
}

#[test]
fn empty_type_rejected() {
    assert!(parse("(api): x").is_none());
    assert!(parse(": x").is_none());
    assert!(parse("").is_none());
}

#[test]
fn uppercase_type_rejected() {
    assert!(parse("Feat: x").is_none());
}

#[test]
fn digits_and_dashes_in_tokens() {
    let f = parse("i18n(sub-sys_2): translate").expect("conventional");
    assert_eq!(f.ty, "i18n");
    assert_eq!(f.scope.as_deref(), Some("sub-sys_2"));
}
