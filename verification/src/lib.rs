use vstd::prelude::*;

pub mod commit;
pub mod parser;
pub mod resolve;
pub mod shortcodes;
pub mod style;
pub mod table;
pub mod text;
pub mod timespan;

verus! {

/// Whether a character may appear in a conventional-commit type or scope
/// token: lowercase ASCII letters, digits, `-` and `_`.
pub open spec fn is_token_char(c: char) -> bool {
    ('a' <= c && c <= 'z') || ('0' <= c && c <= '9') || c == '-' || c == '_'
}

/// Whether a character may appear in a type or scope token, decided in
/// executable code.
pub fn is_token_char_exec(c: char) -> (r: bool)
    ensures
        r == is_token_char(c),
{
    ('a' <= c && c <= 'z') || ('0' <= c && c <= '9') || c == '-' || c == '_'
}

} // verus!
