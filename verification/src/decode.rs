//! From bytes to text: percent decoding and UTF-8.

use percent_encoding::percent_decode_str;
use vstd::prelude::*;

verus! {

/// The text of a sequence of bytes, with replacement characters for what is not UTF-8.
pub uninterp spec fn lossy_text(bytes: Seq<u8>) -> Seq<char>;

/// The value of a hexadecimal digit.
pub open spec fn hex_value(b: u8) -> Option<u8> {
    if 0x30 <= b <= 0x39 {
        Some((b - 0x30) as u8)
    } else if 0x41 <= b <= 0x46 {
        Some((b - 0x37) as u8)
    } else if 0x61 <= b <= 0x66 {
        Some((b - 0x57) as u8)
    } else {
        None
    }
}

/// The bytes after one pass of percent decoding: a percent sign and two hexadecimal digits
/// stand for one byte, every other byte for itself.
pub open spec fn percent_decoded(bytes: Seq<u8>) -> Seq<u8>
    decreases bytes.len(),
{
    if bytes.len() == 0 {
        seq![]
    } else if bytes.len() >= 3 && bytes[0] == 0x25 && hex_value(bytes[1]) is Some && hex_value(bytes[2]) is Some {
        seq![(hex_value(bytes[1])->0 * 16 + hex_value(bytes[2])->0) as u8] + percent_decoded(bytes.skip(3))
    } else {
        seq![bytes[0]] + percent_decoded(bytes.skip(1))
    }
}

/// `percent_decode_str`, with its bytes collected: one pass of percent decoding.
#[verifier::external_body]
fn percent_bytes(s: &str) -> (r: Vec<u8>)
    ensures
        r@ == percent_decoded(vstd::utf8::encode_utf8(s@)),
{
    percent_decode_str(s).collect()
}

/// `String::from_utf8_lossy`. The contract names the text, and says that it is the decoded text
/// where the bytes are valid UTF-8.
#[verifier::external_body]
pub(crate) fn lossy(bytes: &[u8]) -> (r: String)
    ensures
        r@ == lossy_text(bytes@),
        vstd::utf8::valid_utf8(bytes@) ==> r@ == vstd::utf8::decode_utf8(bytes@),
{
    String::from_utf8_lossy(bytes).to_string()
}

/// `std::str::from_utf8`: the decoded text, where the bytes are valid UTF-8.
#[verifier::external_body]
pub(crate) fn utf8_text(bytes: &[u8]) -> (r: Option<String>)
    ensures
        r is Some <==> vstd::utf8::valid_utf8(bytes@),
        r matches Some(s) ==> s@ == vstd::utf8::decode_utf8(bytes@),
{
    std::str::from_utf8(bytes).ok().map(|s| s.to_string())
}

/// The text after one pass of percent decoding.
pub open spec fn decoded_text(s: Seq<char>) -> Seq<char> {
    lossy_text(percent_decoded(vstd::utf8::encode_utf8(s)))
}

pub fn decode(s: &str) -> (r: String)
    ensures
        r@ == decoded_text(s@),
        vstd::utf8::valid_utf8(percent_decoded(vstd::utf8::encode_utf8(s@))) ==> r@ == vstd::utf8::decode_utf8(
            percent_decoded(vstd::utf8::encode_utf8(s@)),
        ),
        !vstd::utf8::encode_utf8(s@).contains(0x25) ==> r@ == s@,
{
    let bytes = percent_bytes(s);
    proof {
        if !vstd::utf8::encode_utf8(s@).contains(0x25) {
            lemma_plain(vstd::utf8::encode_utf8(s@));
            vstd::utf8::encode_utf8_valid_utf8(s@);
            vstd::utf8::encode_utf8_decode_utf8(s@);
        }
    }
    lossy(bytes.as_slice())
}

/// Bytes without a percent sign are left as they are.
pub proof fn lemma_plain(bytes: Seq<u8>)
    requires
        !bytes.contains(0x25),
    ensures
        percent_decoded(bytes) == bytes,
    decreases bytes.len(),
{
    if bytes.len() > 0 {
        assert(bytes.contains(bytes[0]));
        let rest = bytes.skip(1);
        assert forall|b: u8| rest.contains(b) implies bytes.contains(b) by {
            let i = choose|i: int| 0 <= i < rest.len() && rest[i] == b;
            assert(bytes[i + 1] == b);
        }
        lemma_plain(rest);
        assert(percent_decoded(bytes) =~= bytes);
    } else {
        assert(percent_decoded(bytes) =~= bytes);
    }
}

// ---------------------------------------------------------------------------
// Laws
// ---------------------------------------------------------------------------

/// A percent sign and two hexadecimal digits, of either case, stand for one byte.
pub proof fn lemma_escape(h: u8, l: u8, rest: Seq<u8>)
    requires
        hex_value(h) is Some,
        hex_value(l) is Some,
    ensures
        percent_decoded(seq![0x25u8, h, l] + rest) == seq![(16 * hex_value(h)->0 + hex_value(l)->0) as u8]
            + percent_decoded(rest),
{
    let s = seq![0x25u8, h, l] + rest;
    assert(s[0] == 0x25 && s[1] == h && s[2] == l);
    assert(s.skip(3) =~= rest);
}

/// Every other byte stands for itself, a percent sign without two digits behind it too.
pub proof fn lemma_no_escape(b: u8, rest: Seq<u8>)
    requires
        b != 0x25 || rest.len() < 2 || hex_value(rest[0]) is None || hex_value(rest[1]) is None,
    ensures
        percent_decoded(seq![b] + rest) == seq![b] + percent_decoded(rest),
{
    let s = seq![b] + rest;
    assert(s.skip(1) =~= rest);
    if rest.len() >= 2 {
        assert(s[1] == rest[0] && s[2] == rest[1]);
    }
}

/// The hexadecimal digits and their values.
pub proof fn lemma_hex_values(b: u8)
    ensures
        0x30 <= b <= 0x39 ==> hex_value(b) == Some((b - 0x30) as u8),
        0x61 <= b <= 0x66 ==> hex_value(b) == Some((b - 0x61 + 10) as u8),
        0x41 <= b <= 0x46 ==> hex_value(b) == Some((b - 0x41 + 10) as u8),
        hex_value(b) is Some <==> (0x30 <= b <= 0x39 || 0x61 <= b <= 0x66 || 0x41 <= b <= 0x46),
{
}

} // verus!
