//! Digests, message authentication codes and their text forms.

use base64::engine::general_purpose::URL_SAFE_NO_PAD;
use base64::Engine;
use hmac::{Hmac, Mac};
use sha2::{Digest, Sha256};
use crate::num;
use crate::request;
use vstd::prelude::*;

verus! {

/// The SHA-256 digest of a sequence of bytes.
pub uninterp spec fn sha256_of(data: Seq<u8>) -> Seq<u8>;

/// The HMAC-SHA-256 code of a message under a key.
pub uninterp spec fn hmac_of(key: Seq<u8>, message: Seq<u8>) -> Seq<u8>;

/// `Sha256::digest`. The contract names the digest and gives its length.
#[verifier::external_body]
pub(crate) fn sha256(data: &[u8]) -> (r: Vec<u8>)
    ensures
        r@ == sha256_of(data@),
        r@.len() == 32,
{
    Sha256::digest(data).to_vec()
}

/// `Hmac::<Sha256>` over one message: `new_from_slice`, which takes a key of any length, then
/// `update` and `finalize`. The contract names the code and gives its length.
#[verifier::external_body]
pub(crate) fn hmac_sha256(key: &[u8], message: &[u8]) -> (r: Vec<u8>)
    ensures
        r@ == hmac_of(key@, message@),
        r@.len() == 32,
{
    let mut mac = Hmac::<Sha256>::new_from_slice(key).expect("a key of any length");
    mac.update(message);
    mac.finalize().into_bytes().to_vec()
}

/// The digit `d` of the URL-safe base-64 alphabet, for `d < 64`.
pub open spec fn url64_char(d: nat) -> char {
    if d < 26 {
        (65 + d) as char
    } else if d < 52 {
        (71 + d) as char
    } else if d < 62 {
        (d - 4) as char
    } else if d == 62 {
        '-'
    } else {
        '_'
    }
}

/// The byte at `i`, or zero behind the end.
pub open spec fn byte_or_zero(data: Seq<u8>, i: int) -> nat {
    if i < data.len() {
        data[i] as nat
    } else {
        0
    }
}

/// The bits `6 * i` to `6 * i + 5` of `data`, the most significant bit of each byte first.
pub open spec fn sextet(data: Seq<u8>, i: int) -> nat {
    let at = 6 * i / 8;
    let pair = byte_or_zero(data, at) * 256 + byte_or_zero(data, at + 1);
    let skip = 6 * i % 8;
    let shift: nat = if skip == 0 {
        1024
    } else if skip == 2 {
        256
    } else if skip == 4 {
        64
    } else {
        16
    };
    pair / shift % 64
}

/// The URL-safe base-64 text of `data`, without padding.
pub open spec fn url64_text(data: Seq<u8>) -> Seq<char> {
    Seq::new(((8 * data.len() + 5) / 6) as nat, |i: int| url64_char(sextet(data, i)))
}

/// `URL_SAFE_NO_PAD.encode`: six bits to a character of the URL-safe alphabet, no padding.
#[verifier::external_body]
pub(crate) fn url64(data: &[u8]) -> (r: String)
    requires
        data@.len() <= usize::MAX / 4,
    ensures
        r@ == url64_text(data@),
{
    URL_SAFE_NO_PAD.encode(data)
}

/// The lower-case hexadecimal text of `data`, two digits to a byte.
pub open spec fn hex_of(data: Seq<u8>) -> Seq<char> {
    Seq::new(
        2 * data.len(),
        |i: int|
            num::hex_char(
                if i % 2 == 0 {
                    (data[i / 2] / 16) as nat
                } else {
                    (data[i / 2] % 16) as nat
                },
            ),
    )
}

/// `hex::encode`: two lower-case digits to a byte.
#[verifier::external_body]
pub(crate) fn hex_encode(data: &[u8]) -> (r: String)
    requires
        data@.len() <= usize::MAX / 4,
    ensures
        r@ == hex_of(data@),
{
    hex::encode(data)
}

/// Compares two byte strings in a time that does not depend on where they differ.
pub fn ct_eq(a: &[u8], b: &[u8]) -> (r: bool)
    ensures
        r == (a@ == b@),
{
    if a.len() != b.len() {
        return false;
    }
    let mut diff: u8 = 0;
    let mut i: usize = 0;
    while i < a.len()
        invariant
            i <= a@.len(),
            a@.len() == b@.len(),
            diff == 0 <==> (forall|j: int| 0 <= j < i ==> a@[j] == b@[j]),
        decreases a@.len() - i,
    {
        let x = a[i];
        let y = b[i];
        let d = diff;
        assert((d | (x ^ y)) == 0 <==> (d == 0 && x == y)) by (bit_vector);
        diff = diff | (x ^ y);
        i += 1;
    }
    if diff == 0 {
        assert(a@ =~= b@);
    }
    diff == 0
}

/// Whether two texts are equal, compared like `ct_eq`.
pub fn ct_same_text(a: &str, b: &str) -> (r: bool)
    ensures
        r == (a@ == b@),
{
    proof {
        vstd::utf8::encode_utf8_decode_utf8(a@);
        vstd::utf8::encode_utf8_decode_utf8(b@);
    }
    ct_eq(a.as_bytes(), b.as_bytes())
}

/// The base-64 text of the code of `message` under `key`.
pub open spec fn tag_text(key: Seq<u8>, message: Seq<char>) -> Seq<char> {
    url64_text(hmac_of(key, vstd::utf8::encode_utf8(message)))
}

pub fn sign_text(key: &[u8], message: &str) -> (r: String)
    ensures
        r@ == tag_text(key@, message@),
{
    let code = hmac_sha256(key, message.as_bytes());
    url64(code.as_slice())
}

/// Appends `b` to `out`.
pub fn push_bytes(out: &mut Vec<u8>, b: &[u8])
    ensures
        final(out)@ == old(out)@ + b@,
{
    let mut i: usize = 0;
    while i < b.len()
        invariant
            i <= b@.len(),
            out@ == old(out)@ + b@.take(i as int),
        decreases b@.len() - i,
    {
        out.push(b[i]);
        i += 1;
        assert(out@ =~= old(out)@ + b@.take(i as int));
    }
    assert(b@.take(i as int) =~= b@);
}

/// The digest of a text.
pub fn sha256_text(s: &str) -> (r: Vec<u8>)
    ensures
        r@ == sha256_of(vstd::utf8::encode_utf8(s@)),
        r@.len() == 32,
{
    sha256(s.as_bytes())
}

/// The digest of two texts one after the other.
pub open spec fn pair_digest(a: Seq<char>, b: Seq<char>) -> Seq<u8> {
    sha256_of(vstd::utf8::encode_utf8(a) + vstd::utf8::encode_utf8(b))
}

pub fn sha256_pair(a: &str, b: &str) -> (r: Vec<u8>)
    ensures
        r@ == pair_digest(a@, b@),
        r@.len() == 32,
{
    let mut data: Vec<u8> = Vec::new();
    push_bytes(&mut data, a.as_bytes());
    push_bytes(&mut data, b.as_bytes());
    assert(data@ =~= vstd::utf8::encode_utf8(a@) + vstd::utf8::encode_utf8(b@));
    sha256(data.as_slice())
}

/// The lowest `n` bytes of a number, the lowest first.
pub open spec fn low_bytes(x: nat, n: nat) -> Seq<u8>
    decreases n,
{
    if n == 0 {
        seq![]
    } else {
        seq![(x % 256) as u8] + low_bytes(x / 256, (n - 1) as nat)
    }
}

/// The digest of a time in nanoseconds and of what else tells two callers apart.
pub open spec fn seed_digest(nanos: u128, salt: Seq<u8>) -> Seq<u8> {
    sha256_of(low_bytes(nanos as nat, 16) + salt)
}

pub fn seed(nanos: u128, salt: &[u8]) -> (r: Vec<u8>)
    ensures
        r@ == seed_digest(nanos, salt@),
        r@.len() == 32,
{
    let mut data: Vec<u8> = Vec::new();
    let mut rest: u128 = nanos;
    let mut i: usize = 0;
    while i < 16
        invariant
            i <= 16,
            data@ + low_bytes(rest as nat, (16 - i) as nat) == low_bytes(nanos as nat, 16),
        decreases 16 - i,
    {
        let ghost before = data@;
        let ghost tail = low_bytes((rest / 256) as nat, (15 - i) as nat);
        data.push((rest % 256) as u8);
        rest = rest / 256;
        i += 1;
        assert(data@ + tail =~= before + (seq![data@.last()] + tail));
    }
    assert(data@ =~= low_bytes(nanos as nat, 16));
    push_bytes(&mut data, salt);
    sha256(data.as_slice())
}

/// The lower-case hexadecimal text of the first `n` bytes of a digest.
pub fn hex_head(digest: &Vec<u8>, n: usize) -> (r: String)
    requires
        n <= digest@.len(),
        n <= 64,
    ensures
        r@ == hex_of(digest@.take(n as int)),
{
    let mut head: Vec<u8> = Vec::new();
    for i in 0..n
        invariant
            n <= digest@.len(),
            head@ == digest@.take(i as int),
    {
        head.push(digest[i]);
        assert(head@ =~= digest@.take(i + 1));
    }
    hex_encode(head.as_slice())
}

/// A signature consists of letters, digits and the two signs of the URL-safe alphabet.
pub proof fn lemma_tag_chars(key: Seq<u8>, message: Seq<char>, i: int)
    requires
        0 <= i < tag_text(key, message).len(),
    ensures
        request::plain_char(tag_text(key, message)[i]),
{
    let d = sextet(hmac_of(key, vstd::utf8::encode_utf8(message)), i);
    assert(d < 64);
    assert(tag_text(key, message)[i] == url64_char(d));
}

// ---------------------------------------------------------------------------
// Laws
// ---------------------------------------------------------------------------

/// Bytes one after the other are written one after the other, each with two digits, the higher one
/// first.
pub proof fn lemma_hex_parts(a: Seq<u8>, b: Seq<u8>, x: u8)
    ensures
        hex_of(a + b) == hex_of(a) + hex_of(b),
        hex_of(seq![x]) == seq![num::hex_char((x / 16) as nat), num::hex_char((x % 16) as nat)],
{
    assert(hex_of(a + b) =~= hex_of(a) + hex_of(b));
    assert(hex_of(seq![x]) =~= seq![num::hex_char((x / 16) as nat), num::hex_char((x % 16) as nat)]);
}

/// The lowest byte of a number comes first.
pub proof fn lemma_low_bytes(x: nat, n: nat)
    ensures
        low_bytes(x, n).len() == n,
        n > 0 ==> low_bytes(x, n)[0] == x % 256 && low_bytes(x, n).drop_first() == low_bytes(x / 256, (n - 1) as nat),
    decreases n,
{
    if n > 0 {
        lemma_low_bytes(x / 256, (n - 1) as nat);
        assert(low_bytes(x, n).drop_first() =~= low_bytes(x / 256, (n - 1) as nat));
    }
}

/// The digest of two texts is that of their bytes as one: where the first ends makes no difference.
pub proof fn lemma_pair_digest(a: Seq<char>, b: Seq<char>, c: Seq<char>, d: Seq<char>)
    requires
        vstd::utf8::encode_utf8(a) + vstd::utf8::encode_utf8(b) == vstd::utf8::encode_utf8(c)
            + vstd::utf8::encode_utf8(d),
    ensures
        pair_digest(a, b) == pair_digest(c, d),
        pair_digest(a, b) == sha256_of(vstd::utf8::encode_utf8(a) + vstd::utf8::encode_utf8(b)),
{
}

} // verus!
