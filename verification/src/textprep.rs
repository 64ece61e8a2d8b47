//! Normalization of raw chapter text before reflow.
//!
//! The engine expects plain printable text: HTML entities are decoded
//! first, then every character is transliterated to its closest ASCII
//! equivalent.  Both steps lean on outside crates through trusted
//! wrappers; what they return is named, not restated.

use vstd::prelude::*;

verus! {

/// The text with its HTML entities decoded.  What it is on given text
/// is left to the `html-escape` crate; it depends on the text alone.
pub uninterp spec fn unescaped_of(s: Seq<char>) -> Seq<char>;

/// Relies on `html_escape::decode_html_entities`: the result depends
/// on the text alone, and text without `&` holds no entity and comes
/// back unchanged.
#[verifier::external_body]
fn decode_entities(s: &str) -> (r: String)
    ensures
        r@ == unescaped_of(s@),
        !s@.contains('&') ==> r@ == s@,
{
    html_escape::decode_html_entities(s).into_owned()
}

/// The ASCII transliteration of the text.  What it is on given text
/// is left to the `deunicode` crate; it depends on the text alone.
pub uninterp spec fn ascii_of(s: Seq<char>) -> Seq<char>;

/// Relies on `deunicode::deunicode`: the transliteration depends on
/// the characters alone, its result is pure ASCII, and every ASCII
/// character maps to itself, so ASCII text comes back unchanged.
#[verifier::external_body]
fn transliterate(s: &str) -> (r: String)
    ensures
        r@ == ascii_of(s@),
        vstd::utf8::is_ascii_chars(r@),
        vstd::utf8::is_ascii_chars(s@) ==> r@ == s@,
{
    deunicode::deunicode(s)
}

/// Normalizes raw chapter text for the engine: HTML entities decoded,
/// then everything transliterated to ASCII.
pub fn prepare_text(raw: &str) -> (r: String)
    ensures
        r@ == ascii_of(unescaped_of(raw@)),
        vstd::utf8::is_ascii_chars(r@),
{
    let decoded = decode_entities(raw);
    transliterate(decoded.as_str())
}

} // verus!
