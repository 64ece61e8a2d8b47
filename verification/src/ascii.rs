//! ASCII byte sequences and their reading as strings.
//!
//! The engine computes on bytes; at its boundary the finished byte
//! lines are turned back into `String`s.  For bytes below 128 the two
//! readings agree character for character.

use vstd::prelude::*;
use vstd::string::StringSliceAdditionalSpecFns;

verus! {

/// True when every byte of `s` is an ASCII code.
pub open spec fn ascii_seq(s: Seq<u8>) -> bool {
    forall|i: int| 0 <= i < s.len() ==> #[trigger] s[i] < 128
}

/// The characters that a sequence of ASCII bytes spells.
pub open spec fn chars_of(s: Seq<u8>) -> Seq<char> {
    s.map_values(|b: u8| b as char)
}

/// The UTF-8 bytes of a string value.
pub open spec fn string_bytes(s: String) -> Seq<u8> {
    vstd::utf8::encode_utf8(s@)
}

/// ASCII bytes survive the round trip through characters: encoding
/// the characters they spell gives the bytes back.
pub proof fn lemma_ascii_bytes_round_trip(b: Seq<u8>)
    requires
        ascii_seq(b),
    ensures
        vstd::utf8::encode_utf8(chars_of(b)) == b,
{
    broadcast use vstd::utf8::is_ascii_chars_encode_utf8;

    let cs = chars_of(b);
    assert(vstd::utf8::is_ascii_chars(cs)) by {
        assert forall|i: int| 0 <= i < cs.len() implies '\0' <= #[trigger] cs[i] <= '\u{7f}' by {
            assert(b[i] < 128);
            assert(cs[i] == b[i] as char);
        }
    }
    assert(vstd::utf8::encode_utf8(cs) =~= b);
}

/// The characters that `String::from_utf8_lossy` reads out of a byte
/// sequence.  What it is on ill-formed bytes is left to std; it
/// depends on the bytes alone.
pub uninterp spec fn lossy_chars_of(b: Seq<u8>) -> Seq<char>;

/// Relies on `String::from_utf8_lossy`: the result depends on the
/// bytes alone, and well-formed UTF-8 decodes to exactly the
/// characters it encodes.
#[verifier::external_body]
pub(crate) fn utf8_bytes_to_string(v: Vec<u8>) -> (r: String)
    ensures
        r@ == lossy_chars_of(v@),
        forall|cs: Seq<char>| v@ == vstd::utf8::encode_utf8(cs) ==> r@ == cs,
{
    String::from_utf8_lossy(&v).into_owned()
}

/// Reads ASCII bytes as the string they spell.
pub(crate) fn ascii_bytes_to_string(v: Vec<u8>) -> (r: String)
    requires
        ascii_seq(v@),
    ensures
        r@ == chars_of(v@),
{
    proof {
        lemma_ascii_bytes_round_trip(v@);
    }
    utf8_bytes_to_string(v)
}

/// An ASCII `&str` seen as its byte sequence, which is below 128
/// pointwise and spells the string's own characters.
pub proof fn lemma_ascii_str_bytes(s: &str)
    requires
        s.is_ascii(),
    ensures
        ascii_seq(s.spec_bytes()),
        s.spec_bytes().len() == s@.len(),
        chars_of(s.spec_bytes()) == s@,
{
    broadcast use vstd::string::is_ascii_spec_bytes;
    broadcast use vstd::utf8::is_ascii_chars_nat_bound;

    assert(s.spec_bytes() =~= Seq::new(s@.len(), |i: int| s@[i] as u8));
    assert forall|i: int| 0 <= i < s.spec_bytes().len() implies #[trigger] s.spec_bytes()[i]
        < 128 by {
        assert(s@[i] as nat <= 127);
    }
    assert(chars_of(s.spec_bytes()) =~= s@);
}

} // verus!
