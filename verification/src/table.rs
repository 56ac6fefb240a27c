use vstd::prelude::*;

use crate::text::str_eq;

verus! {

/// The static type table: the glyph a commit type or scope token maps to,
/// or nothing for an unknown token. Several keys alias to one glyph.
pub open spec fn type_glyph(key: Seq<char>) -> Option<Seq<char>> {
    if key == "add"@ {
        Some("➕"@)
    } else if key == "android"@ {
        Some("🤖"@)
    } else if key == "breaking"@ {
        Some("💥"@)
    } else if key == "build"@ || key == "deps"@ || key == "dep"@ || key == "dependencies"@ {
        Some("📦"@)
    } else if key == "chore"@ || key == "maintenance"@ {
        Some("🔧"@)
    } else if key == "ci"@ || key == "cd"@ {
        Some("👷"@)
    } else if key == "config"@ {
        Some("⚙️"@)
    } else if key == "doc"@ || key == "docs"@ || key == "documentation"@ {
        Some("📚"@)
    } else if key == "docker"@ {
        Some("🐳"@)
    } else if key == "feat"@ || key == "feature"@ {
        Some("✨"@)
    } else if key == "fix"@ {
        Some("🐛"@)
    } else if key == "i18n"@ || key == "l10n"@ {
        Some("🌐"@)
    } else if key == "kubernetes"@ || key == "k8s"@ {
        Some("☸️"@)
    } else if key == "lint"@ || key == "linter"@ {
        Some("🚨"@)
    } else if key == "linux"@ {
        Some("🐧"@)
    } else if key == "macos"@ || key == "ios"@ {
        Some("🍎"@)
    } else if key == "merge"@ {
        Some("🔀"@)
    } else if key == "perf"@ || key == "performance"@ {
        Some("⚡️"@)
    } else if key == "ref"@ || key == "refactor"@ {
        Some("♻️"@)
    } else if key == "release"@ {
        Some("🚀"@)
    } else if key == "remove"@ {
        Some("➖"@)
    } else if key == "revert"@ {
        Some("⏪"@)
    } else if key == "security"@ {
        Some("🔒"@)
    } else if key == "style"@ {
        Some("🎨"@)
    } else if key == "test"@ || key == "tests"@ {
        Some("✅"@)
    } else if key == "typo"@ || key == "typos"@ {
        Some("✏️"@)
    } else if key == "ui"@ || key == "ux"@ {
        Some("💄"@)
    } else if key == "windows"@ {
        Some("🏁"@)
    } else if key == "wip"@ {
        Some("🚧"@)
    } else {
        None
    }
}

/// Look a token up in the static type table.
#[verifier::rlimit(30)]
pub fn commit_emoji(key: &str) -> (r: Option<&'static str>)
    ensures
        match r {
            Some(g) => type_glyph(key@) == Some(g@),
            None => type_glyph(key@) is None,
        },
{
    if str_eq(key, "add") {
        Some("➕")
    } else if str_eq(key, "android") {
        Some("🤖")
    } else if str_eq(key, "breaking") {
        Some("💥")
    } else if str_eq(key, "build") || str_eq(key, "deps") || str_eq(key, "dep") || str_eq(
        key,
        "dependencies",
    ) {
        Some("📦")
    } else if str_eq(key, "chore") || str_eq(key, "maintenance") {
        Some("🔧")
    } else if str_eq(key, "ci") || str_eq(key, "cd") {
        Some("👷")
    } else if str_eq(key, "config") {
        Some("⚙️")
    } else if str_eq(key, "doc") || str_eq(key, "docs") || str_eq(key, "documentation") {
        Some("📚")
    } else if str_eq(key, "docker") {
        Some("🐳")
    } else if str_eq(key, "feat") || str_eq(key, "feature") {
        Some("✨")
    } else if str_eq(key, "fix") {
        Some("🐛")
    } else if str_eq(key, "i18n") || str_eq(key, "l10n") {
        Some("🌐")
    } else if str_eq(key, "kubernetes") || str_eq(key, "k8s") {
        Some("☸️")
    } else if str_eq(key, "lint") || str_eq(key, "linter") {
        Some("🚨")
    } else if str_eq(key, "linux") {
        Some("🐧")
    } else if str_eq(key, "macos") || str_eq(key, "ios") {
        Some("🍎")
    } else if str_eq(key, "merge") {
        Some("🔀")
    } else if str_eq(key, "perf") || str_eq(key, "performance") {
        Some("⚡️")
    } else if str_eq(key, "ref") || str_eq(key, "refactor") {
        Some("♻️")
    } else if str_eq(key, "release") {
        Some("🚀")
    } else if str_eq(key, "remove") {
        Some("➖")
    } else if str_eq(key, "revert") {
        Some("⏪")
    } else if str_eq(key, "security") {
        Some("🔒")
    } else if str_eq(key, "style") {
        Some("🎨")
    } else if str_eq(key, "test") || str_eq(key, "tests") {
        Some("✅")
    } else if str_eq(key, "typo") || str_eq(key, "typos") {
        Some("✏️")
    } else if str_eq(key, "ui") || str_eq(key, "ux") {
        Some("💄")
    } else if str_eq(key, "windows") {
        Some("🏁")
    } else if str_eq(key, "wip") {
        Some("🚧")
    } else {
        None
    }
}

} // verus!
