use vstd::prelude::*;

use colored::Colorize;

verus! {

/// The SGR reset sequence that ends a coloured span.
pub open spec fn sgr_reset() -> Seq<char> {
    seq!['\u{1b}', '[', '0', 'm']
}

/// The SGR sequence that opens a bold span.
pub open spec fn bold_open() -> Seq<char> {
    seq!['\u{1b}', '[', '1', 'm']
}

/// The SGR sequence that opens a blue span.
pub open spec fn blue_open() -> Seq<char> {
    seq!['\u{1b}', '[', '3', '4', 'm']
}

/// The SGR sequence that opens a cyan span.
pub open spec fn cyan_open() -> Seq<char> {
    seq!['\u{1b}', '[', '3', '6', 'm']
}

/// The input with the opening sequence re-inserted after each SGR reset,
/// scanning left to right: how colored keeps an outer style alive across a
/// nested styled string's reset when it colourizes.
pub open spec fn escape_resets(s: Seq<char>, open: Seq<char>) -> Seq<char>
    decreases s.len(),
{
    if s.len() < 4 {
        s
    } else if s.take(4) == sgr_reset() {
        sgr_reset() + open + escape_resets(s.skip(4), open)
    } else {
        seq![s[0]] + escape_resets(s.drop_first(), open)
    }
}

/// How a styled string relates to its input. Whether colour is applied at
/// all depends on the terminal and the environment, so the two possible
/// outcomes are stated: the text unchanged, or the text — with the opening
/// sequence re-inserted after each embedded reset — wrapped in the opening
/// sequence and a reset. For reset-free text the second outcome is exactly
/// `open + s + sgr_reset()`.
pub open spec fn is_styled(r: Seq<char>, s: Seq<char>, open: Seq<char>) -> bool {
    r == s || r == open + escape_resets(s, open) + sgr_reset()
}

/// Relies on `colored::Colorize::bold` and `ColoredString`'s `Display`:
/// with colouring off the text is unchanged; with it on, the text has the
/// bold sequence re-inserted after each embedded reset and is wrapped in
/// the bold sequence and a reset.
#[verifier::external_body]
pub(crate) fn bold_styled(s: &str) -> (r: String)
    ensures
        is_styled(r@, s@, bold_open()),
{
    s.bold().to_string()
}

/// Relies on `colored::Colorize::blue`, as `bold_styled` on `bold`.
#[verifier::external_body]
pub(crate) fn blue_styled(s: &str) -> (r: String)
    ensures
        is_styled(r@, s@, blue_open()),
{
    s.blue().to_string()
}

/// Relies on `colored::Colorize::cyan`, as `bold_styled` on `bold`.
#[verifier::external_body]
pub(crate) fn cyan_styled(s: &str) -> (r: String)
    ensures
        is_styled(r@, s@, cyan_open()),
{
    s.cyan().to_string()
}

} // verus!
