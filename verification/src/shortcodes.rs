use vstd::prelude::*;

verus! {

/// The glyph the emoji shortcode registry maps a code to, if any. The
/// registry is a fixed table compiled into the `emojis` crate, so the result
/// is a function of the code alone.
pub uninterp spec fn glyph_of_code(code: Seq<char>) -> Option<Seq<char>>;

/// Relies on `emojis::get_by_shortcode`: a lookup in the crate's static
/// shortcode table, returning the emoji's glyph when the code is known.
#[verifier::external_body]
pub(crate) fn shortcode_glyph(code: &str) -> (r: Option<String>)
    ensures
        match r {
            Some(g) => glyph_of_code(code@) == Some(g@),
            None => glyph_of_code(code@) is None,
        },
{
    emojis::get_by_shortcode(code).map(|e| e.as_str().to_string())
}

} // verus!
