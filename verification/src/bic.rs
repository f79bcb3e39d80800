//! Silent browser integrity check.
//!
//! A small page computes a proof and gets a signed cookie for it. The cookie is bound to the
//! network that the address of the client belongs to, so that it is of no use elsewhere.

use crate::challenge;
use crate::clock::{now_nanos, now_secs};
use crate::crypto::{self, ct_same_text, hex_head, seed, sha256_pair, sign_text};
use crate::net::{self, subnet_marker, IpAddr};
use crate::num::{self, dec, parse_u64};
use crate::pages;
use crate::text::{self, cat3, cat4, cat5, same_text, split_once, without_quotes};
use vstd::prelude::*;

verus! {

pub const BIC_COOKIE_NAME: &'static str = "__2t1_bic";

/// How long a cookie is valid.
pub const COOKIE_TTL_SECS: u64 = 1800;

/// How long a browser may take to answer.
pub const TOKEN_TTL_SECS: u64 = 60;

pub struct Bic {
    secret: Vec<u8>,
}

#[derive(Debug)]
pub struct Token {
    pub challenge: String,
    pub expires_at: u64,
    pub signature: String,
}

#[verifier::ext_equal]
pub struct TokenView {
    pub challenge: Seq<char>,
    pub expires_at: u64,
    pub signature: Seq<char>,
}

impl View for Token {
    type V = TokenView;

    open spec fn view(&self) -> TokenView {
        TokenView { challenge: self.challenge@, expires_at: self.expires_at, signature: self.signature@ }
    }
}

#[derive(Debug, Clone, Copy, PartialEq, Eq, Structural)]
pub enum BicError {
    BadFormat,
    Expired,
    BadSig,
    BadProof,
}

impl BicError {
    pub open spec fn spec_message(self) -> Seq<char> {
        match self {
            BicError::BadFormat => "token format invalid"@,
            BicError::Expired => "token expired"@,
            BicError::BadSig => "signature mismatch"@,
            BicError::BadProof => "integrity proof invalid"@,
        }
    }

    pub fn message(&self) -> (r: &'static str)
        ensures
            r@ == self.spec_message(),
    {
        match self {
            BicError::BadFormat => "token format invalid",
            BicError::Expired => "token expired",
            BicError::BadSig => "signature mismatch",
            BicError::BadProof => "integrity proof invalid",
        }
    }
}

/// The token that is issued at `now`, at the time `nanos` of the finer clock.
pub open spec fn token_at(secret: Seq<u8>, now: u64, nanos: u128, salt: Seq<u8>) -> TokenView {
    let challenge = crypto::hex_of(crypto::seed_digest(nanos, salt).take(12));
    let expires_at = challenge::later(now, TOKEN_TTL_SECS);
    TokenView { challenge, expires_at, signature: challenge::challenge_tag(secret, challenge, expires_at) }
}

/// The proof that a challenge asks for.
pub open spec fn proof_of(challenge: Seq<char>) -> Seq<char> {
    crypto::hex_of(crypto::pair_digest(challenge, "2t1bic"@).take(8))
}

/// What the check of a submitted proof says.
pub open spec fn proof_verdict(
    secret: Seq<u8>,
    now: u64,
    challenge: Seq<char>,
    exp: u64,
    sig: Seq<char>,
    proof_text: Seq<char>,
) -> Result<(), BicError> {
    if now > exp {
        Err(BicError::Expired)
    } else if sig != challenge::challenge_tag(secret, challenge, exp) {
        Err(BicError::BadSig)
    } else if proof_text != proof_of(challenge) {
        Err(BicError::BadProof)
    } else {
        Ok(())
    }
}

/// The signature of a cookie for the network `subnet` that expires at `exp`.
pub open spec fn cookie_tag(secret: Seq<u8>, exp: u64, subnet: Seq<char>) -> Seq<char> {
    crypto::tag_text(secret, "bic|"@ + num::dec_text(exp as nat) + "|"@ + subnet)
}

/// The cookie for an address that expires at `exp`: expiry, network and signature.
pub open spec fn cookie_text(secret: Seq<u8>, exp: u64, ip: IpAddr) -> Seq<char> {
    num::dec_text(exp as nat) + "."@ + net::marker_text(ip) + "."@ + cookie_tag(secret, exp, net::marker_text(ip))
}

/// Whether a cookie is accepted from an address at `now`.
pub open spec fn cookie_accepted(secret: Seq<u8>, now: u64, value: Seq<char>, ip: IpAddr) -> bool {
    match text::cut_at(value, '.') {
        Some((exp, rest)) => match text::cut_at(rest, '.') {
            Some((subnet, sig)) => match num::parse_up_to(exp, u64::MAX as nat) {
                Some(e) => e > now && subnet == net::marker_text(ip) && sig == cookie_tag(secret, e as u64, subnet),
                None => false,
            },
            None => false,
        },
        None => false,
    }
}

/// A cookie that was minted for one address is accepted before its expiry from the addresses of
/// the same network, and at no other time and from no other address.
pub proof fn lemma_cookie_roundtrip(secret: Seq<u8>, exp: u64, minted_for: IpAddr, now: u64, from: IpAddr)
    ensures
        cookie_accepted(secret, now, cookie_text(secret, exp, minted_for), from) <==> now < exp
            && net::subnet_number(minted_for) == net::subnet_number(from),
{
    let subnet = net::marker_text(minted_for);
    let sig = cookie_tag(secret, exp, subnet);
    let rest = subnet + "."@ + sig;
    reveal_strlit(".");
    assert(cookie_text(secret, exp, minted_for) =~= num::dec_text(exp as nat) + "."@ + rest);
    challenge::lemma_number_before_dot(exp as nat, rest);
    net::lemma_marker_chars(minted_for);
    assert forall|j: int| 0 <= j < subnet.len() implies rest[j] != '.' by {
        assert(rest[j] == subnet[j]);
    }
    assert(rest[subnet.len() as int] == '.');
    text::lemma_first_at(rest, '.', subnet.len() as int);
    assert(rest.take(subnet.len() as int) =~= subnet);
    assert(rest.skip(subnet.len() as int + 1) =~= sig);
    num::lemma_parse_dec(exp as nat);
    net::lemma_marker(minted_for, from);
}

/// The proof that the page computes passes the check of an issued token until it expires, and
/// no other proof does.
pub proof fn lemma_issued_verifies(
    secret: Seq<u8>,
    issued: u64,
    nanos: u128,
    salt: Seq<u8>,
    now: u64,
    proof_text: Seq<char>,
)
    ensures
        ({
            let t = token_at(secret, issued, nanos, salt);
            proof_verdict(secret, now, t.challenge, t.expires_at, t.signature, proof_text) is Ok <==> now
                <= t.expires_at && proof_text == proof_of(t.challenge)
        }),
{
}

/// The text of the page.
pub open spec fn bic_page(t: TokenView, request_id: Seq<char>, original: Seq<char>) -> Seq<char> {
    pages::BIC_0@ + request_id + pages::BIC_1@ + t.challenge + pages::BIC_2@ + num::dec_text(t.expires_at as nat)
        + pages::BIC_3@ + t.signature + pages::BIC_4@ + text::plain_chars(original) + pages::BIC_5@
}

impl Bic {
    pub closed spec fn spec_secret(&self) -> Seq<u8> {
        self.secret@
    }

    pub fn new(secret: &str) -> (r: Bic)
        ensures
            r.spec_secret() == vstd::utf8::encode_utf8(secret@),
    {
        let mut key: Vec<u8> = Vec::new();
        crypto::push_bytes(&mut key, secret.as_bytes());
        assert(key@ =~= vstd::utf8::encode_utf8(secret@));
        Bic { secret: key }
    }

    /// The challenge token that is issued at a given time.
    pub fn issue_at(&self, now: u64, nanos: u128, salt: &[u8]) -> (r: Token)
        ensures
            r@ == token_at(self.spec_secret(), now, nanos, salt@),
    {
        let expires_at: u64 = now.saturating_add(TOKEN_TTL_SECS);
        let digest = seed(nanos, salt);
        let challenge = hex_head(&digest, 12);
        let signature = self.sign(challenge.as_str(), expires_at);
        Token { challenge, expires_at, signature }
    }

    /// Creates a fresh challenge token. `salt` tells callers apart that read the same time.
    pub fn issue(&self, salt: &[u8]) -> (r: Token)
        ensures
            exists|now: u64, nanos: u128| r@ == #[trigger] token_at(self.spec_secret(), now, nanos, salt@),
    {
        self.issue_at(now_secs(), now_nanos(), salt)
    }

    /// Checks a submitted proof at a given time.
    pub fn verify_proof_at(
        &self,
        now: u64,
        challenge: &str,
        exp: u64,
        sig: &str,
        proof_text: &str,
    ) -> (r: Result<(), BicError>)
        ensures
            r == proof_verdict(self.spec_secret(), now, challenge@, exp, sig@, proof_text@),
    {
        if now > exp {
            return Err(BicError::Expired);
        }
        let expect = self.sign(challenge, exp);
        if !ct_same_text(expect.as_str(), sig) {
            return Err(BicError::BadSig);
        }
        let digest = sha256_pair(challenge, "2t1bic");
        let want = hex_head(&digest, 8);
        if !ct_same_text(want.as_str(), proof_text) {
            return Err(BicError::BadProof);
        }
        Ok(())
    }

    /// Checks a submitted proof: the first eight bytes of the digest of the challenge and a
    /// fixed word, in hexadecimal.
    pub fn verify_proof(&self, challenge: &str, exp: u64, sig: &str, proof_text: &str) -> (r: Result<(), BicError>)
        ensures
            exists|now: u64|
                r == #[trigger] proof_verdict(self.spec_secret(), now, challenge@, exp, sig@, proof_text@),
    {
        self.verify_proof_at(now_secs(), challenge, exp, sig, proof_text)
    }

    /// The name and the value of the cookie that is minted for an address at a given time.
    pub fn mint_at(&self, now: u64, ip: IpAddr) -> (r: (String, String))
        ensures
            r.0@ == BIC_COOKIE_NAME@,
            r.1@ == cookie_text(self.spec_secret(), challenge::later(now, COOKIE_TTL_SECS), ip),
    {
        let exp: u64 = now.saturating_add(COOKIE_TTL_SECS);
        let digits = dec(exp);
        let subnet = subnet_marker(ip);
        let payload = cat4("bic|", digits.as_str(), "|", subnet.as_str());
        let sig = sign_text(self.secret.as_slice(), payload.as_str());
        (BIC_COOKIE_NAME.to_string(), cat5(digits.as_str(), ".", subnet.as_str(), ".", sig.as_str()))
    }

    /// Mints the cookie for an address, after a successful check of a proof.
    pub fn mint(&self, ip: IpAddr) -> (r: (String, String))
        ensures
            r.0@ == BIC_COOKIE_NAME@,
            exists|now: u64|
                r.1@ == cookie_text(self.spec_secret(), #[trigger] challenge::later(now, COOKIE_TTL_SECS), ip),
    {
        self.mint_at(now_secs(), ip)
    }

    /// Whether a cookie is valid for an address at a given time.
    pub fn verify_cookie_at(&self, now: u64, value: &str, ip: IpAddr) -> (r: bool)
        ensures
            r == cookie_accepted(self.spec_secret(), now, value@, ip),
    {
        let (exp_text, rest) = match split_once(value, '.') {
            Some(p) => p,
            None => {
                return false;
            },
        };
        let (subnet, sig) = match split_once(rest.as_str(), '.') {
            Some(p) => p,
            None => {
                return false;
            },
        };
        let exp: u64 = match parse_u64(exp_text.as_str()) {
            Some(n) => n,
            None => {
                return false;
            },
        };
        if exp <= now {
            return false;
        }
        let marker = subnet_marker(ip);
        if !same_text(subnet.as_str(), marker.as_str()) {
            return false;
        }
        let payload = cat4("bic|", dec(exp).as_str(), "|", subnet.as_str());
        let expect = sign_text(self.secret.as_slice(), payload.as_str());
        ct_same_text(expect.as_str(), sig.as_str())
    }

    /// Whether a cookie is valid for an address.
    pub fn verify_cookie(&self, value: &str, ip: IpAddr) -> (r: bool)
        ensures
            exists|now: u64| r == #[trigger] cookie_accepted(self.spec_secret(), now, value@, ip),
    {
        self.verify_cookie_at(now_secs(), value, ip)
    }

    pub fn cookie_name(&self) -> (r: &str)
        ensures
            r@ == BIC_COOKIE_NAME@,
    {
        BIC_COOKIE_NAME
    }

    pub fn ttl(&self) -> (r: u64)
        ensures
            r == COOKIE_TTL_SECS,
    {
        COOKIE_TTL_SECS
    }

    fn sign(&self, challenge: &str, exp: u64) -> (r: String)
        ensures
            r@ == challenge::challenge_tag(self.spec_secret(), challenge@, exp),
    {
        sign_text(self.secret.as_slice(), cat3(challenge, "|", dec(exp).as_str()).as_str())
    }

    /// The page, which goes on to `original` after a successful check.
    pub fn render_page(&self, token: &Token, request_id: &str, original: &str) -> (r: String)
        ensures
            r@ == bic_page(token@, request_id@, original@),
    {
        let mut out = String::new();
        out.append(pages::BIC_0);
        out.append(request_id);
        out.append(pages::BIC_1);
        out.append(token.challenge.as_str());
        out.append(pages::BIC_2);
        out.append(dec(token.expires_at).as_str());
        out.append(pages::BIC_3);
        out.append(token.signature.as_str());
        out.append(pages::BIC_4);
        out.append(without_quotes(original).as_str());
        out.append(pages::BIC_5);
        assert(out@ =~= bic_page(token@, request_id@, original@));
        out
    }
}

// ---------------------------------------------------------------------------
// Laws
// ---------------------------------------------------------------------------

/// A submitted proof passes exactly when it comes in time, with the signature that was issued, and
/// is the one that the challenge asks for; what fails first in this order is reported.
pub proof fn lemma_proof_exactly(
    secret: Seq<u8>,
    now: u64,
    challenge: Seq<char>,
    exp: u64,
    sig: Seq<char>,
    proof_text: Seq<char>,
)
    ensures
        ({
            let r = proof_verdict(secret, now, challenge, exp, sig, proof_text);
            let signed = sig == challenge::challenge_tag(secret, challenge, exp);
            let right = proof_text == proof_of(challenge);
            &&& r is Ok <==> now <= exp && signed && right
            &&& r == Err::<(), BicError>(BicError::Expired) <==> now > exp
            &&& r == Err::<(), BicError>(BicError::BadSig) <==> now <= exp && !signed
            &&& r == Err::<(), BicError>(BicError::BadProof) <==> now <= exp && signed && !right
        }),
{
}

/// A token can be answered for one minute.
pub proof fn lemma_one_minute(secret: Seq<u8>, now: u64, nanos: u128, salt: Seq<u8>)
    requires
        now + 60 <= u64::MAX,
    ensures
        token_at(secret, now, nanos, salt).expires_at == now + 60,
{
}

/// The proof of a challenge is the beginning of the digest of the challenge and a fixed word.
pub proof fn lemma_proof_digest(challenge: Seq<char>)
    requires
        crypto::pair_digest(challenge, "2t1bic"@).len() >= 8,
    ensures
        proof_of(challenge).len() == 16,
        proof_of(challenge) == crypto::hex_of(crypto::pair_digest(challenge, "2t1bic"@)).take(16),
{
    let d = crypto::pair_digest(challenge, "2t1bic"@);
    assert(proof_of(challenge) =~= crypto::hex_of(d).take(16));
}

/// Only a text that names a time still to come and the network of the address, and ends with the
/// signature of both, is accepted.
pub proof fn lemma_cookie_signed(secret: Seq<u8>, now: u64, value: Seq<char>, ip: IpAddr)
    requires
        cookie_accepted(secret, now, value, ip),
    ensures
        exists|e: u64|
            e > now && value.len() > cookie_tag(secret, e, net::marker_text(ip)).len() && #[trigger] cookie_tag(
                secret,
                e,
                net::marker_text(ip),
            ) == value.skip(value.len() - cookie_tag(secret, e, net::marker_text(ip)).len()),
{
    text::lemma_first_at_bounds(value, '.');
    let i = text::first_at(value, '.');
    let rest = value.skip(i + 1);
    text::lemma_first_at_bounds(rest, '.');
    let j = text::first_at(rest, '.');
    let e = num::parse_up_to(value.take(i), u64::MAX as nat)->0 as u64;
    let tag = cookie_tag(secret, e, net::marker_text(ip));
    assert(rest.skip(j + 1) == tag);
    assert(rest.skip(j + 1) =~= value.skip(i + 1 + j + 1));
    assert(value.len() - tag.len() == i + 1 + j + 1);
}

/// The page holds what its answer has to carry: the challenge, the expiry and the signature; and the
/// place to go on to, without quotes and control characters.
pub proof fn lemma_page_holds(t: TokenView, request_id: Seq<char>, original: Seq<char>)
    ensures
        ({
            let page = bic_page(t, request_id, original);
            &&& text::has_text(page, t.challenge)
            &&& text::has_text(page, num::dec_text(t.expires_at as nat))
            &&& text::has_text(page, t.signature)
            &&& text::has_text(page, text::plain_chars(original))
        }),
{
    let page = bic_page(t, request_id, original);
    let a = pages::BIC_0@ + request_id + pages::BIC_1@;
    let b = a + t.challenge + pages::BIC_2@;
    let n = num::dec_text(t.expires_at as nat);
    let c = b + n + pages::BIC_3@;
    let d = c + t.signature + pages::BIC_4@;
    let o = text::plain_chars(original);
    let z = pages::BIC_5@;
    assert(page == d + o + z);
    text::lemma_has_text(d, o, z, seq![]);
    let rest = pages::BIC_4@ + o + z;
    assert(page =~= c + t.signature + rest);
    text::lemma_has_text(c, t.signature, rest, seq![]);
    let rest = pages::BIC_3@ + t.signature + rest;
    assert(page =~= b + n + rest);
    text::lemma_has_text(b, n, rest, seq![]);
    let rest = pages::BIC_2@ + n + rest;
    assert(page =~= a + t.challenge + rest);
    text::lemma_has_text(a, t.challenge, rest, seq![]);
}

/// What is signed of a cookie holds its expiry and the network that it was given to.
pub proof fn lemma_signed(secret: Seq<u8>, exp: u64, subnet: Seq<char>)
    ensures
        cookie_tag(secret, exp, subnet) == crypto::tag_text(
            secret,
            seq!['b', 'i', 'c', '|'] + (num::dec_text(exp as nat) + seq!['|'] + subnet),
        ),
{
    reveal_strlit("|");
    reveal_strlit("bic|");
    assert("|"@ =~= seq!['|']);
    assert("bic|"@ =~= seq!['b', 'i', 'c', '|']);
    let e = num::dec_text(exp as nat);
    assert("bic|"@ + e + "|"@ + subnet =~= seq!['b', 'i', 'c', '|'] + (e + seq!['|'] + subnet));
}

} // verus!
