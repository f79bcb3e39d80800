//! Proof-of-work challenge with signed tokens.
//!
//! The server hands out a random challenge with an expiry, both signed. The browser looks for a
//! nonce such that the digest of challenge and nonce starts with a number of hexadecimal zeroes,
//! and submits it. After a successful check the server mints a signed clearance cookie.

use crate::clock::{now_nanos, now_secs};
use crate::crypto::{self, ct_same_text, hex_head, seed, sha256_pair, sign_text};
use crate::num::{self, dec, parse_u64};
use crate::pages;
use crate::text::{self, cat2, cat3, cat5, split_once, trim};
use vstd::prelude::*;

verus! {

pub struct Challenger {
    secret: Vec<u8>,
    cookie_name: String,
    cookie_ttl: u64,
    pow_difficulty: u8,
}

#[derive(Debug)]
pub struct Token {
    /// Hexadecimal.
    pub challenge: String,
    pub expires_at: u64,
    /// URL-safe base 64.
    pub signature: String,
    pub difficulty: u8,
}

#[verifier::ext_equal]
pub struct TokenView {
    pub challenge: Seq<char>,
    pub expires_at: u64,
    pub signature: Seq<char>,
    pub difficulty: u8,
}

impl View for Token {
    type V = TokenView;

    open spec fn view(&self) -> TokenView {
        TokenView {
            challenge: self.challenge@,
            expires_at: self.expires_at,
            signature: self.signature@,
            difficulty: self.difficulty,
        }
    }
}

#[derive(Debug, Clone, Copy, PartialEq, Eq, Structural)]
pub enum ChallengeError {
    BadFormat,
    Expired,
    BadSig,
    BadPow,
}

impl ChallengeError {
    pub open spec fn spec_message(self) -> Seq<char> {
        match self {
            ChallengeError::BadFormat => "token format invalid"@,
            ChallengeError::Expired => "token expired"@,
            ChallengeError::BadSig => "signature mismatch"@,
            ChallengeError::BadPow => "proof of work invalid"@,
        }
    }

    pub fn message(&self) -> (r: &'static str)
        ensures
            r@ == self.spec_message(),
    {
        match self {
            ChallengeError::BadFormat => "token format invalid",
            ChallengeError::Expired => "token expired",
            ChallengeError::BadSig => "signature mismatch",
            ChallengeError::BadPow => "proof of work invalid",
        }
    }
}

/// The hexadecimal digits of a digest.
pub const DIGEST_DIGITS: u8 = 64;

/// How long a browser may take to solve a challenge.
pub const SOLVE_SECS: u64 = 120;

/// `a + b`, kept at the largest time.
pub open spec fn later(a: u64, b: u64) -> u64 {
    if a + b > u64::MAX {
        u64::MAX
    } else {
        (a + b) as u64
    }
}

/// The signature of a challenge that expires at `exp`.
pub open spec fn challenge_tag(secret: Seq<u8>, challenge: Seq<char>, exp: u64) -> Seq<char> {
    crypto::tag_text(secret, challenge + "|"@ + num::dec_text(exp as nat))
}

/// The signature of a challenge that expires at `exp` and asks for a given difficulty.
pub open spec fn bound_tag(secret: Seq<u8>, challenge: Seq<char>, exp: u64, difficulty: u8) -> Seq<char> {
    crypto::tag_text(
        secret,
        challenge + "|"@ + num::dec_text(exp as nat) + "|"@ + num::dec_text(difficulty as nat),
    )
}

/// The token of a chosen difficulty that is issued at `now`, at the time `nanos` of the finer
/// clock. The difficulty is bound into the signature.
pub open spec fn bound_token_at(secret: Seq<u8>, difficulty: u8, now: u64, nanos: u128, salt: Seq<u8>) -> TokenView {
    let t = token_at(secret, difficulty, now, nanos, salt);
    TokenView { signature: bound_tag(secret, t.challenge, t.expires_at, difficulty), ..t }
}

/// The token of the base difficulty that is issued at `now`, at the time `nanos` of the finer
/// clock.
pub open spec fn token_at(secret: Seq<u8>, difficulty: u8, now: u64, nanos: u128, salt: Seq<u8>) -> TokenView {
    let challenge = crypto::hex_of(crypto::seed_digest(nanos, salt).take(16));
    let expires_at = later(now, SOLVE_SECS);
    TokenView {
        challenge,
        expires_at,
        signature: challenge_tag(secret, challenge, expires_at),
        difficulty,
    }
}

/// The hexadecimal digit at `i` of the text of `digest`.
pub open spec fn nibble(digest: Seq<u8>, i: int) -> u8 {
    if i % 2 == 0 {
        digest[i / 2] / 16
    } else {
        digest[i / 2] % 16
    }
}

/// Whether the digest of challenge and nonce starts with `difficulty` hexadecimal zeroes.
pub open spec fn pow_solved(challenge: Seq<char>, nonce: Seq<char>, difficulty: u8) -> bool {
    forall|i: int| 0 <= i < difficulty ==> #[trigger] nibble(crypto::pair_digest(challenge, nonce), i) == 0
}

/// A nonce that solves a challenge solves every easier one.
pub proof fn lemma_pow_monotone(challenge: Seq<char>, nonce: Seq<char>, harder: u8, easier: u8)
    requires
        easier <= harder,
        pow_solved(challenge, nonce, harder),
    ensures
        pow_solved(challenge, nonce, easier),
{
}

/// What the check of a solution says that was submitted with the difficulty that it solves.
pub open spec fn bound_verdict(
    secret: Seq<u8>,
    now: u64,
    challenge: Seq<char>,
    nonce: Seq<char>,
    signature: Seq<char>,
    expires_at: u64,
    difficulty: u8,
) -> Result<(), ChallengeError> {
    if now > expires_at {
        Err(ChallengeError::Expired)
    } else if signature != bound_tag(secret, challenge, expires_at, difficulty) {
        Err(ChallengeError::BadSig)
    } else if difficulty > DIGEST_DIGITS || !pow_solved(challenge, nonce, difficulty) {
        Err(ChallengeError::BadPow)
    } else {
        Ok(())
    }
}

/// What the check of a submitted solution of the base difficulty says.
pub open spec fn solution_verdict(
    secret: Seq<u8>,
    difficulty: u8,
    now: u64,
    challenge: Seq<char>,
    nonce: Seq<char>,
    signature: Seq<char>,
    expires_at: u64,
) -> Result<(), ChallengeError> {
    if now > expires_at {
        Err(ChallengeError::Expired)
    } else if signature != challenge_tag(secret, challenge, expires_at) {
        Err(ChallengeError::BadSig)
    } else if !pow_solved(challenge, nonce, difficulty) {
        Err(ChallengeError::BadPow)
    } else {
        Ok(())
    }
}

/// The signature of a clearance that expires at `exp`.
pub open spec fn clearance_tag(secret: Seq<u8>, exp: u64) -> Seq<char> {
    crypto::tag_text(secret, "clr|"@ + num::dec_text(exp as nat))
}

/// The clearance that is valid until `exp`: the expiry, a dot and the signature.
pub open spec fn clearance_text(secret: Seq<u8>, exp: u64) -> Seq<char> {
    num::dec_text(exp as nat) + "."@ + clearance_tag(secret, exp)
}

/// Whether a clearance is accepted at `now`.
pub open spec fn clearance_accepted(secret: Seq<u8>, now: u64, value: Seq<char>) -> bool {
    match text::cut_at(value, '.') {
        Some((exp, sig)) => match num::parse_up_to(exp, u64::MAX as nat) {
            Some(e) => e > now && sig == clearance_tag(secret, e as u64),
            None => false,
        },
        None => false,
    }
}

/// The part before the first dot of a text that starts with a number and a dot.
pub proof fn lemma_number_before_dot(n: nat, rest: Seq<char>)
    ensures
        text::cut_at(num::dec_text(n) + "."@ + rest, '.') == Some((num::dec_text(n), rest)),
{
    reveal_strlit(".");
    let t = num::dec_text(n);
    let s = t + "."@ + rest;
    num::lemma_dec_without(n, '.');
    assert forall|j: int| 0 <= j < t.len() implies s[j] != '.' by {
        assert(s[j] == t[j]);
    }
    assert(s[t.len() as int] == '.');
    text::lemma_first_at(s, '.', t.len() as int);
    assert(s.take(t.len() as int) =~= t);
    assert(s.skip(t.len() as int + 1) =~= rest);
}

/// A clearance that was minted is accepted at every time before its expiry and at no other.
pub proof fn lemma_clearance_roundtrip(secret: Seq<u8>, exp: u64, now: u64)
    ensures
        clearance_accepted(secret, now, clearance_text(secret, exp)) <==> now < exp,
{
    lemma_number_before_dot(exp as nat, clearance_tag(secret, exp));
    num::lemma_parse_dec(exp as nat);
}

/// A token that was issued passes the check until it expires, with every nonce that solves it.
pub proof fn lemma_issued_verifies(
    secret: Seq<u8>,
    difficulty: u8,
    issued: u64,
    nanos: u128,
    salt: Seq<u8>,
    now: u64,
    nonce: Seq<char>,
)
    ensures
        ({
            let t = token_at(secret, difficulty, issued, nanos, salt);
            solution_verdict(secret, difficulty, now, t.challenge, nonce, t.signature, t.expires_at) is Ok <==> now
                <= t.expires_at && pow_solved(t.challenge, nonce, difficulty)
        }),
{
}

/// A token of a chosen difficulty passes the check until it expires, with every nonce that solves
/// it at that difficulty.
pub proof fn lemma_bound_verifies(
    secret: Seq<u8>,
    difficulty: u8,
    issued: u64,
    nanos: u128,
    salt: Seq<u8>,
    now: u64,
    nonce: Seq<char>,
)
    requires
        difficulty <= DIGEST_DIGITS,
    ensures
        ({
            let t = bound_token_at(secret, difficulty, issued, nanos, salt);
            bound_verdict(secret, now, t.challenge, nonce, t.signature, t.expires_at, t.difficulty) is Ok <==> now
                <= t.expires_at && pow_solved(t.challenge, nonce, difficulty)
        }),
{
}

/// The difficulty that a configured one stands for: at least one zero, at most eight.
pub open spec fn clamped_difficulty(d: u8) -> u8 {
    if d < 1 {
        1
    } else if d > 8 {
        8
    } else {
        d
    }
}

/// The text of the challenge page.
pub open spec fn challenge_page(t: TokenView, request_id: Seq<char>, logo: Seq<char>) -> Seq<char> {
    pages::CHALLENGE_0@ + text::trimmed(logo) + pages::CHALLENGE_1@ + request_id + pages::CHALLENGE_2@ + t.challenge
        + pages::CHALLENGE_3@ + t.signature + pages::CHALLENGE_4@ + num::dec_text(t.expires_at as nat)
        + pages::CHALLENGE_5@ + num::dec_text(t.difficulty as nat) + pages::CHALLENGE_6@
}

/// Whether the digest of challenge and nonce starts with `difficulty` hexadecimal zeroes.
pub fn verify_pow(challenge: &str, nonce: &str, difficulty: u8) -> (r: bool)
    requires
        difficulty <= 64,
    ensures
        r == pow_solved(challenge@, nonce@, difficulty),
{
    let digest = sha256_pair(challenge, nonce);
    let need: usize = difficulty as usize;
    let full_bytes: usize = need / 2;
    for i in 0..full_bytes
        invariant
            digest@.len() == 32,
            digest@ == crypto::pair_digest(challenge@, nonce@),
            full_bytes == need / 2,
            need == difficulty,
            need <= 64,
            forall|j: int| 0 <= j < i ==> digest@[j] == 0,
    {
        if digest[i] != 0 {
            proof {
                assert(nibble(digest@, 2 * i) == digest@[i as int] / 16);
                assert(nibble(digest@, 2 * i + 1) == digest@[i as int] % 16);
            }
            return false;
        }
    }
    if need % 2 == 1 {
        if digest[full_bytes] / 16 != 0 {
            assert(nibble(digest@, need - 1) == digest@[full_bytes as int] / 16);
            return false;
        }
    }
    assert forall|i: int| 0 <= i < difficulty implies #[trigger] nibble(digest@, i) == 0 by {
        if i / 2 < full_bytes {
            assert(digest@[i / 2] == 0);
        }
    }
    true
}

impl Challenger {
    pub closed spec fn spec_secret(&self) -> Seq<u8> {
        self.secret@
    }

    pub closed spec fn spec_name(&self) -> Seq<char> {
        self.cookie_name@
    }

    pub closed spec fn spec_ttl(&self) -> u64 {
        self.cookie_ttl
    }

    pub closed spec fn spec_difficulty(&self) -> u8 {
        self.pow_difficulty
    }

    pub open spec fn wf(&self) -> bool {
        1 <= self.spec_difficulty() <= 8
    }

    pub fn new(secret: &str, cookie_name: &str, cookie_ttl: u64, pow_difficulty: u8) -> (r: Challenger)
        ensures
            r.wf(),
            r.spec_secret() == vstd::utf8::encode_utf8(secret@),
            r.spec_name() == cookie_name@,
            r.spec_ttl() == cookie_ttl,
            r.spec_difficulty() == clamped_difficulty(pow_difficulty),
    {
        let mut key: Vec<u8> = Vec::new();
        crypto::push_bytes(&mut key, secret.as_bytes());
        assert(key@ =~= vstd::utf8::encode_utf8(secret@));
        Challenger {
            secret: key,
            cookie_name: cookie_name.to_string(),
            cookie_ttl,
            pow_difficulty: if pow_difficulty < 1 {
                1
            } else if pow_difficulty > 8 {
                8
            } else {
                pow_difficulty
            },
        }
    }

    /// The challenge token of the base difficulty that is issued at a given time.
    pub fn issue_at(&self, now: u64, nanos: u128, salt: &[u8]) -> (r: Token)
        ensures
            r@ == token_at(self.spec_secret(), self.spec_difficulty(), now, nanos, salt@),
    {
        let expires_at: u64 = now.saturating_add(SOLVE_SECS);
        let digest = seed(nanos, salt);
        let challenge = hex_head(&digest, 16);
        let signature = self.sign(challenge.as_str(), expires_at);
        Token { challenge, expires_at, signature, difficulty: self.pow_difficulty }
    }

    /// The challenge token of the given difficulty that is issued at a given time.
    pub fn issue_with_at(&self, now: u64, nanos: u128, salt: &[u8], difficulty: u8) -> (r: Token)
        ensures
            r@ == bound_token_at(self.spec_secret(), difficulty, now, nanos, salt@),
    {
        let expires_at: u64 = now.saturating_add(SOLVE_SECS);
        let digest = seed(nanos, salt);
        let challenge = hex_head(&digest, 16);
        let signature = self.sign_with(challenge.as_str(), expires_at, difficulty);
        Token { challenge, expires_at, signature, difficulty }
    }

    /// Creates a fresh challenge token of the base difficulty. `salt` tells callers apart that
    /// read the same time.
    pub fn issue(&self, salt: &[u8]) -> (r: Token)
        ensures
            exists|now: u64, nanos: u128|
                r@ == #[trigger] token_at(self.spec_secret(), self.spec_difficulty(), now, nanos, salt@),
    {
        self.issue_at(now_secs(), now_nanos(), salt)
    }

    /// Creates a fresh challenge token of the given difficulty.
    pub fn issue_with(&self, salt: &[u8], difficulty: u8) -> (r: Token)
        ensures
            exists|now: u64, nanos: u128|
                r@ == #[trigger] bound_token_at(self.spec_secret(), difficulty, now, nanos, salt@),
    {
        self.issue_with_at(now_secs(), now_nanos(), salt, difficulty)
    }

    /// Checks, at a given time, a solution that was submitted with its difficulty.
    pub fn verify_with_at(
        &self,
        now: u64,
        challenge: &str,
        nonce: &str,
        signature: &str,
        expires_at: u64,
        difficulty: u8,
    ) -> (r: Result<(), ChallengeError>)
        ensures
            r == bound_verdict(self.spec_secret(), now, challenge@, nonce@, signature@, expires_at, difficulty),
    {
        if now > expires_at {
            return Err(ChallengeError::Expired);
        }
        let expect = self.sign_with(challenge, expires_at, difficulty);
        if !ct_same_text(expect.as_str(), signature) {
            return Err(ChallengeError::BadSig);
        }
        if difficulty > DIGEST_DIGITS || !verify_pow(challenge, nonce, difficulty) {
            return Err(ChallengeError::BadPow);
        }
        Ok(())
    }

    /// Checks a submitted solution of the base difficulty at a given time.
    pub fn verify_at(
        &self,
        now: u64,
        challenge: &str,
        nonce: &str,
        signature: &str,
        expires_at: u64,
    ) -> (r: Result<(), ChallengeError>)
        requires
            self.wf(),
        ensures
            r == solution_verdict(
                self.spec_secret(),
                self.spec_difficulty(),
                now,
                challenge@,
                nonce@,
                signature@,
                expires_at,
            ),
    {
        if now > expires_at {
            return Err(ChallengeError::Expired);
        }
        let expect = self.sign(challenge, expires_at);
        if !ct_same_text(expect.as_str(), signature) {
            return Err(ChallengeError::BadSig);
        }
        if !verify_pow(challenge, nonce, self.pow_difficulty) {
            return Err(ChallengeError::BadPow);
        }
        Ok(())
    }

    /// Checks a submitted solution of the base difficulty.
    pub fn verify(
        &self,
        challenge: &str,
        nonce: &str,
        signature: &str,
        expires_at: u64,
    ) -> (r: Result<(), ChallengeError>)
        requires
            self.wf(),
        ensures
            exists|now: u64|
                r == #[trigger] solution_verdict(
                    self.spec_secret(),
                    self.spec_difficulty(),
                    now,
                    challenge@,
                    nonce@,
                    signature@,
                    expires_at,
                ),
    {
        self.verify_at(now_secs(), challenge, nonce, signature, expires_at)
    }

    /// The clearance cookie that is minted at a given time.
    pub fn mint_clearance_at(&self, now: u64) -> (r: String)
        ensures
            r@ == clearance_text(self.spec_secret(), later(now, self.spec_ttl())),
    {
        let exp: u64 = now.saturating_add(self.cookie_ttl);
        let digits = dec(exp);
        let sig = sign_text(self.secret.as_slice(), cat2("clr|", digits.as_str()).as_str());
        cat3(digits.as_str(), ".", sig.as_str())
    }

    /// Mints a clearance cookie value, after a successful check of a solution.
    pub fn mint_clearance(&self) -> (r: String)
        ensures
            exists|now: u64| r@ == clearance_text(self.spec_secret(), #[trigger] later(now, self.spec_ttl())),
    {
        self.mint_clearance_at(now_secs())
    }

    /// Whether a clearance cookie value is valid at a given time.
    pub fn verify_clearance_at(&self, now: u64, value: &str) -> (r: bool)
        ensures
            r == clearance_accepted(self.spec_secret(), now, value@),
    {
        match split_once(value, '.') {
            None => false,
            Some((exp_text, sig)) => match parse_u64(exp_text.as_str()) {
                None => false,
                Some(exp) => {
                    if exp <= now {
                        return false;
                    }
                    let expect = sign_text(self.secret.as_slice(), cat2("clr|", dec(exp).as_str()).as_str());
                    ct_same_text(expect.as_str(), sig.as_str())
                },
            },
        }
    }

    /// Whether a clearance cookie value is valid.
    pub fn verify_clearance(&self, value: &str) -> (r: bool)
        ensures
            exists|now: u64| r == #[trigger] clearance_accepted(self.spec_secret(), now, value@),
    {
        self.verify_clearance_at(now_secs(), value)
    }

    pub fn cookie_name(&self) -> (r: &str)
        ensures
            r@ == self.spec_name(),
    {
        self.cookie_name.as_str()
    }

    pub fn cookie_ttl(&self) -> (r: u64)
        ensures
            r == self.spec_ttl(),
    {
        self.cookie_ttl
    }

    /// The difficulty that was configured.
    pub fn base_difficulty(&self) -> (r: u8)
        ensures
            r == self.spec_difficulty(),
    {
        self.pow_difficulty
    }

    fn sign(&self, challenge: &str, exp: u64) -> (r: String)
        ensures
            r@ == challenge_tag(self.spec_secret(), challenge@, exp),
    {
        sign_text(self.secret.as_slice(), cat3(challenge, "|", dec(exp).as_str()).as_str())
    }

    fn sign_with(&self, challenge: &str, exp: u64, difficulty: u8) -> (r: String)
        ensures
            r@ == bound_tag(self.spec_secret(), challenge@, exp, difficulty),
    {
        sign_text(
            self.secret.as_slice(),
            cat5(challenge, "|", dec(exp).as_str(), "|", dec(difficulty as u64).as_str()).as_str(),
        )
    }

    /// The challenge page, with the image `logo` in base 64.
    pub fn render_page(&self, token: &Token, request_id: &str, logo: &str) -> (r: String)
        ensures
            r@ == challenge_page(token@, request_id@, logo@),
    {
        let mut out = String::new();
        out.append(pages::CHALLENGE_0);
        out.append(trim(logo).as_str());
        out.append(pages::CHALLENGE_1);
        out.append(request_id);
        out.append(pages::CHALLENGE_2);
        out.append(token.challenge.as_str());
        out.append(pages::CHALLENGE_3);
        out.append(token.signature.as_str());
        out.append(pages::CHALLENGE_4);
        out.append(dec(token.expires_at).as_str());
        out.append(pages::CHALLENGE_5);
        out.append(dec(token.difficulty as u64).as_str());
        out.append(pages::CHALLENGE_6);
        assert(out@ =~= challenge_page(token@, request_id@, logo@));
        out
    }
}

// ---------------------------------------------------------------------------
// Laws
// ---------------------------------------------------------------------------

/// A submitted solution passes exactly when it comes in time, with the signature that was issued,
/// and solves the challenge; what fails first in this order is reported.
pub proof fn lemma_solution_exactly(
    secret: Seq<u8>,
    difficulty: u8,
    now: u64,
    challenge: Seq<char>,
    nonce: Seq<char>,
    signature: Seq<char>,
    expires_at: u64,
)
    ensures
        ({
            let r = solution_verdict(secret, difficulty, now, challenge, nonce, signature, expires_at);
            let b = bound_verdict(secret, now, challenge, nonce, signature, expires_at, difficulty);
            let plain = signature == challenge_tag(secret, challenge, expires_at);
            let bound = signature == bound_tag(secret, challenge, expires_at, difficulty);
            let solved = pow_solved(challenge, nonce, difficulty);
            &&& r is Ok <==> now <= expires_at && plain && solved
            &&& r == Err::<(), ChallengeError>(ChallengeError::Expired) <==> now > expires_at
            &&& r == Err::<(), ChallengeError>(ChallengeError::BadSig) <==> now <= expires_at && !plain
            &&& r == Err::<(), ChallengeError>(ChallengeError::BadPow) <==> now <= expires_at && plain && !solved
            &&& b is Ok <==> now <= expires_at && bound && solved && difficulty <= 64
            &&& b == Err::<(), ChallengeError>(ChallengeError::Expired) <==> now > expires_at
            &&& b == Err::<(), ChallengeError>(ChallengeError::BadSig) <==> now <= expires_at && !bound
        }),
{
}

/// A challenge can be solved for two minutes, whatever its difficulty, which it carries.
pub proof fn lemma_two_minutes(secret: Seq<u8>, difficulty: u8, now: u64, nanos: u128, salt: Seq<u8>)
    requires
        now + 120 <= u64::MAX,
    ensures
        token_at(secret, difficulty, now, nanos, salt).expires_at == now + 120,
        bound_token_at(secret, difficulty, now, nanos, salt).expires_at == now + 120,
        token_at(secret, difficulty, now, nanos, salt).difficulty == difficulty,
        bound_token_at(secret, difficulty, now, nanos, salt).difficulty == difficulty,
{
}

/// A solution is a nonce whose digest, written in hexadecimal, begins with as many zeroes as the
/// difficulty says.
pub proof fn lemma_leading_zeroes(challenge: Seq<char>, nonce: Seq<char>, difficulty: u8)
    requires
        difficulty <= 2 * crypto::pair_digest(challenge, nonce).len(),
    ensures
        pow_solved(challenge, nonce, difficulty) <==> forall|i: int|
            0 <= i < difficulty ==> #[trigger] crypto::hex_of(crypto::pair_digest(challenge, nonce))[i] == '0',
{
    let d = crypto::pair_digest(challenge, nonce);
    let h = crypto::hex_of(d);
    assert forall|i: int| 0 <= i < difficulty implies (#[trigger] h[i] == '0' <==> nibble(d, i) == 0) by {
        let n = nibble(d, i);
        assert(h[i] == num::hex_char(n as nat));
        assert(n < 16);
    }
    if forall|i: int| 0 <= i < difficulty ==> #[trigger] h[i] == '0' {
        assert forall|i: int| 0 <= i < difficulty implies #[trigger] nibble(d, i) == 0 by {
            assert(h[i] == '0');
        }
    }
}

/// A configured difficulty is taken as it is between one and eight, and as the nearer of these
/// otherwise.
pub proof fn lemma_difficulty_range(d: u8)
    ensures
        1 <= d <= 8 ==> clamped_difficulty(d) == d,
        d == 0 ==> clamped_difficulty(d) == 1,
        d > 8 ==> clamped_difficulty(d) == 8,
{
}

/// Only a text that ends with the signature of an expiry still to come is a clearance.
pub proof fn lemma_clearance_signed(secret: Seq<u8>, now: u64, value: Seq<char>)
    requires
        clearance_accepted(secret, now, value),
    ensures
        exists|e: u64|
            e > now && value.len() > clearance_tag(secret, e).len() && #[trigger] clearance_tag(secret, e)
                == value.skip(value.len() - clearance_tag(secret, e).len()),
{
    text::lemma_first_at_bounds(value, '.');
    let i = text::first_at(value, '.');
    let e = num::parse_up_to(value.take(i), u64::MAX as nat)->0 as u64;
    assert(value.skip(i + 1) == clearance_tag(secret, e));
    assert(value.len() - clearance_tag(secret, e).len() == i + 1);
}

/// Times are added up to the largest one.
pub proof fn lemma_later(a: u64, b: u64)
    ensures
        a + b <= u64::MAX ==> later(a, b) == a + b,
        a + b > u64::MAX ==> later(a, b) == u64::MAX,
{
}

/// The page holds what its solution has to carry: the challenge, the signature, the expiry and the
/// difficulty, and the id of the request.
pub proof fn lemma_page_holds(t: TokenView, request_id: Seq<char>, logo: Seq<char>)
    ensures
        ({
            let page = challenge_page(t, request_id, logo);
            &&& text::has_text(page, request_id)
            &&& text::has_text(page, t.challenge)
            &&& text::has_text(page, t.signature)
            &&& text::has_text(page, num::dec_text(t.expires_at as nat))
            &&& text::has_text(page, num::dec_text(t.difficulty as nat))
        }),
{
    let page = challenge_page(t, request_id, logo);
    let a = pages::CHALLENGE_0@ + text::trimmed(logo) + pages::CHALLENGE_1@;
    let b = a + request_id + pages::CHALLENGE_2@;
    let c = b + t.challenge + pages::CHALLENGE_3@;
    let d = c + t.signature + pages::CHALLENGE_4@;
    let e = d + num::dec_text(t.expires_at as nat) + pages::CHALLENGE_5@;
    let f = num::dec_text(t.difficulty as nat);
    let z = pages::CHALLENGE_6@;
    assert(page == e + f + z);
    text::lemma_has_text(e, f, z, seq![]);
    let rest = pages::CHALLENGE_5@ + f + z;
    assert(page =~= d + num::dec_text(t.expires_at as nat) + rest);
    text::lemma_has_text(d, num::dec_text(t.expires_at as nat), rest, seq![]);
    let rest = pages::CHALLENGE_4@ + num::dec_text(t.expires_at as nat) + rest;
    assert(page =~= c + t.signature + rest);
    text::lemma_has_text(c, t.signature, rest, seq![]);
    let rest = pages::CHALLENGE_3@ + t.signature + rest;
    assert(page =~= b + t.challenge + rest);
    text::lemma_has_text(b, t.challenge, rest, seq![]);
    let rest = pages::CHALLENGE_2@ + t.challenge + rest;
    assert(page =~= a + request_id + rest);
    text::lemma_has_text(a, request_id, rest, seq![]);
}

/// What is signed holds everything that the signature vouches for: the challenge, its expiry and, where
/// it was chosen, its difficulty; a clearance its expiry.
pub proof fn lemma_signed(secret: Seq<u8>, challenge: Seq<char>, exp: u64, difficulty: u8)
    ensures
        challenge_tag(secret, challenge, exp) == crypto::tag_text(
            secret,
            challenge + seq!['|'] + num::dec_text(exp as nat),
        ),
        bound_tag(secret, challenge, exp, difficulty) == crypto::tag_text(
            secret,
            challenge + seq!['|'] + (num::dec_text(exp as nat) + seq!['|'] + num::dec_text(difficulty as nat)),
        ),
        clearance_tag(secret, exp) == crypto::tag_text(
            secret,
            seq!['c', 'l', 'r'] + seq!['|'] + num::dec_text(exp as nat),
        ),
{
    reveal_strlit("|");
    reveal_strlit("clr|");
    assert("|"@ =~= seq!['|']);
    assert("clr|"@ =~= seq!['c', 'l', 'r'] + seq!['|']);
    let e = num::dec_text(exp as nat);
    let d = num::dec_text(difficulty as nat);
    assert(challenge + "|"@ + e + "|"@ + d =~= challenge + seq!['|'] + (e + seq!['|'] + d));
}

/// No two challenges, expiries or difficulties are signed as one text.
pub proof fn lemma_signed_apart(a: Seq<char>, e: u64, d: u8, b: Seq<char>, f: u64, g: u8)
    requires
        !a.contains('|'),
        !b.contains('|'),
        a + seq!['|'] + (num::dec_text(e as nat) + seq!['|'] + num::dec_text(d as nat)) == b + seq!['|'] + (
        num::dec_text(f as nat) + seq!['|'] + num::dec_text(g as nat)),
    ensures
        a == b,
        e == f,
        d == g,
{
    let x = num::dec_text(e as nat);
    let y = num::dec_text(f as nat);
    let p = num::dec_text(d as nat);
    let q = num::dec_text(g as nat);
    text::lemma_cut(a, '|', x + seq!['|'] + p);
    text::lemma_cut(b, '|', y + seq!['|'] + q);
    assert(x + seq!['|'] + p == y + seq!['|'] + q);
    num::lemma_dec_without(e as nat, '|');
    num::lemma_dec_without(f as nat, '|');
    text::lemma_cut(x, '|', p);
    text::lemma_cut(y, '|', q);
    num::lemma_parse_dec(e as nat);
    num::lemma_parse_dec(f as nat);
    num::lemma_parse_dec(d as nat);
    num::lemma_parse_dec(g as nat);
}

/// A challenge is made of thirty-two hexadecimal digits of the digest of the time and the salt.
pub proof fn lemma_token_digits(secret: Seq<u8>, difficulty: u8, now: u64, nanos: u128, salt: Seq<u8>)
    requires
        crypto::seed_digest(nanos, salt).len() >= 16,
    ensures
        ({
            let t = token_at(secret, difficulty, now, nanos, salt);
            &&& t.challenge.len() == 32
            &&& t.challenge == crypto::hex_of(crypto::seed_digest(nanos, salt)).take(32)
            &&& bound_token_at(secret, difficulty, now, nanos, salt).challenge == t.challenge
        }),
{
    let d = crypto::seed_digest(nanos, salt);
    let t = token_at(secret, difficulty, now, nanos, salt);
    assert(t.challenge =~= crypto::hex_of(d).take(32));
}

} // verus!
