//! A short hash of texts, for counting distinct ones.

use vstd::prelude::*;

verus! {

pub const FNV_START: u64 = 0xcbf29ce484222325;

pub const FNV_PRIME: u64 = 0x100000001b3;

/// The 64-bit FNV-1a hash of a sequence of bytes, from the state `h` on.
pub open spec fn fnv_from(h: u64, bytes: Seq<u8>) -> u64
    decreases bytes.len(),
{
    if bytes.len() == 0 {
        h
    } else {
        (fnv_from(h, bytes.drop_last()) ^ (bytes.last() as u64)).wrapping_mul(FNV_PRIME)
    }
}

/// The hash of a text.
pub open spec fn fnv_of(s: Seq<char>) -> u64 {
    fnv_from(FNV_START, vstd::utf8::encode_utf8(s))
}

pub fn fnv_more(h: u64, bytes: &[u8]) -> (r: u64)
    ensures
        r == fnv_from(h, bytes@),
{
    let mut x: u64 = h;
    for i in 0..bytes.len()
        invariant
            x == fnv_from(h, bytes@.take(i as int)),
    {
        proof {
            assert(bytes@.take(i + 1).drop_last() =~= bytes@.take(i as int));
            assert(bytes@.take(i + 1).last() == bytes@[i as int]);
        }
        x = (x ^ (bytes[i] as u64)).wrapping_mul(FNV_PRIME);
    }
    assert(bytes@.take(bytes@.len() as int) =~= bytes@);
    x
}

pub fn fnv64(s: &str) -> (r: u64)
    ensures
        r == fnv_of(s@),
{
    fnv_more(FNV_START, s.as_bytes())
}

/// The hash of three texts one after the other.
pub open spec fn fnv_of_three(a: Seq<char>, b: Seq<char>, c: Seq<char>) -> u64 {
    fnv_from(
        fnv_from(fnv_of(a), vstd::utf8::encode_utf8(b)),
        vstd::utf8::encode_utf8(c),
    )
}

pub fn fnv64_three(a: &str, b: &str, c: &str) -> (r: u64)
    ensures
        r == fnv_of_three(a@, b@, c@),
{
    fnv_more(fnv_more(fnv64(a), b.as_bytes()), c.as_bytes())
}

// ---------------------------------------------------------------------------
// Laws
// ---------------------------------------------------------------------------

/// The hash of texts one after the other is the hash of their bytes one after the other.
pub proof fn lemma_hash_goes_on(h: u64, a: Seq<u8>, b: Seq<u8>)
    ensures
        fnv_from(fnv_from(h, a), b) == fnv_from(h, a + b),
    decreases b.len(),
{
    if b.len() == 0 {
        assert(a + b =~= a);
    } else {
        lemma_hash_goes_on(h, a, b.drop_last());
        assert((a + b).drop_last() =~= a + b.drop_last());
    }
}

/// The hash of three texts is that of their bytes as one, from the usual start.
pub proof fn lemma_hash_of_three(a: Seq<char>, b: Seq<char>, c: Seq<char>)
    ensures
        fnv_of_three(a, b, c) == fnv_from(
            0xcbf29ce484222325,
            vstd::utf8::encode_utf8(a) + vstd::utf8::encode_utf8(b) + vstd::utf8::encode_utf8(c),
        ),
        fnv_of(a) == fnv_from(0xcbf29ce484222325, vstd::utf8::encode_utf8(a)),
{
    let x = vstd::utf8::encode_utf8(a);
    let y = vstd::utf8::encode_utf8(b);
    lemma_hash_goes_on(FNV_START, x, y);
    lemma_hash_goes_on(FNV_START, x + y, vstd::utf8::encode_utf8(c));
}

/// Each byte is mixed in and multiplied with the usual prime.
pub proof fn lemma_hash_step(h: u64, b: u8)
    ensures
        fnv_from(h, seq![b]) == (h ^ (b as u64)).wrapping_mul(0x100000001b3),
        fnv_from(h, seq![]) == h,
{
    let none: Seq<u8> = seq![];
    assert(seq![b].drop_last() =~= none);
    assert(seq![b].last() == b);
    assert(fnv_from(h, none) == h);
}

} // verus!
