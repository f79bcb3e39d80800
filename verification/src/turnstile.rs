//! Verification of captchas with an outside service, as far as it needs no network: what is sent,
//! how the answer is taken apart, and the page.

use crate::decode;
use crate::http::{self, after_head};
use crate::num::{self, dec, hex_upper_digit};
use crate::pages;
use crate::text::{self, byte_len, cat6, same_text, to_lower, without_quotes};
use vstd::prelude::*;

verus! {

/// How long the service may take.
pub const VERIFY_TIMEOUT_SECS: u64 = 5;

/// How much of an answer is read.
pub const MAX_RESPONSE: usize = 16384;

#[derive(Debug, Clone, Copy, PartialEq, Eq, Structural)]
pub enum Provider {
    Turnstile,
    Hcaptcha,
}

pub open spec fn provider_of(s: Seq<char>) -> Provider {
    if text::lower_text(s) == "hcaptcha"@ {
        Provider::Hcaptcha
    } else {
        Provider::Turnstile
    }
}

impl Provider {
    pub fn from_str(s: &str) -> (r: Provider)
        ensures
            r == provider_of(s@),
    {
        if same_text(to_lower(s).as_str(), "hcaptcha") {
            Provider::Hcaptcha
        } else {
            Provider::Turnstile
        }
    }

    pub open spec fn spec_host(self) -> Seq<char> {
        match self {
            Provider::Turnstile => "challenges.cloudflare.com"@,
            Provider::Hcaptcha => "hcaptcha.com"@,
        }
    }

    pub fn host(&self) -> (r: &'static str)
        ensures
            r@ == self.spec_host(),
    {
        match self {
            Provider::Turnstile => "challenges.cloudflare.com",
            Provider::Hcaptcha => "hcaptcha.com",
        }
    }

    pub open spec fn spec_path(self) -> Seq<char> {
        match self {
            Provider::Turnstile => "/turnstile/v0/siteverify"@,
            Provider::Hcaptcha => "/siteverify"@,
        }
    }

    pub fn path(&self) -> (r: &'static str)
        ensures
            r@ == self.spec_path(),
    {
        match self {
            Provider::Turnstile => "/turnstile/v0/siteverify",
            Provider::Hcaptcha => "/siteverify",
        }
    }

    pub open spec fn spec_script_src(self) -> Seq<char> {
        match self {
            Provider::Turnstile => "https://challenges.cloudflare.com/turnstile/v0/api.js"@,
            Provider::Hcaptcha => "https://js.hcaptcha.com/1/api.js"@,
        }
    }

    pub fn script_src(&self) -> (r: &'static str)
        ensures
            r@ == self.spec_script_src(),
    {
        match self {
            Provider::Turnstile => "https://challenges.cloudflare.com/turnstile/v0/api.js",
            Provider::Hcaptcha => "https://js.hcaptcha.com/1/api.js",
        }
    }

    pub open spec fn spec_widget_class(self) -> Seq<char> {
        match self {
            Provider::Turnstile => "cf-turnstile"@,
            Provider::Hcaptcha => "h-captcha"@,
        }
    }

    pub fn widget_class(&self) -> (r: &'static str)
        ensures
            r@ == self.spec_widget_class(),
    {
        match self {
            Provider::Turnstile => "cf-turnstile",
            Provider::Hcaptcha => "h-captcha",
        }
    }

    pub open spec fn spec_token_field(self) -> Seq<char> {
        match self {
            Provider::Turnstile => "cf-turnstile-response"@,
            Provider::Hcaptcha => "h-captcha-response"@,
        }
    }

    pub fn token_field(&self) -> (r: &'static str)
        ensures
            r@ == self.spec_token_field(),
    {
        match self {
            Provider::Turnstile => "cf-turnstile-response",
            Provider::Hcaptcha => "h-captcha-response",
        }
    }

    pub open spec fn spec_label(self) -> Seq<char> {
        match self {
            Provider::Turnstile => "Turnstile"@,
            Provider::Hcaptcha => "hCaptcha"@,
        }
    }

    pub fn label(&self) -> (r: &'static str)
        ensures
            r@ == self.spec_label(),
    {
        match self {
            Provider::Turnstile => "Turnstile",
            Provider::Hcaptcha => "hCaptcha",
        }
    }
}

/// Whether a byte stands for itself in a form.
pub open spec fn unreserved(b: u8) -> bool {
    ||| 0x41 <= b <= 0x5a
    ||| 0x61 <= b <= 0x7a
    ||| 0x30 <= b <= 0x39
    ||| b == 0x2d
    ||| b == 0x5f
    ||| b == 0x2e
    ||| b == 0x7e
}

/// A byte as it stands in a form.
pub open spec fn form_byte(b: u8) -> Seq<char> {
    if unreserved(b) {
        seq![b as char]
    } else {
        seq!['%', num::hex_upper_char((b / 16) as nat), num::hex_upper_char((b % 16) as nat)]
    }
}

/// Bytes as they stand in a form.
pub open spec fn form_bytes(bytes: Seq<u8>) -> Seq<char>
    decreases bytes.len(),
{
    if bytes.len() == 0 {
        seq![]
    } else {
        form_byte(bytes[0]) + form_bytes(bytes.drop_first())
    }
}

/// A text as it stands in a form.
pub open spec fn form_text(s: Seq<char>) -> Seq<char> {
    form_bytes(vstd::utf8::encode_utf8(s))
}

/// The characters of a form value are ASCII.
pub open spec fn ascii_bytes(s: Seq<char>) -> Seq<u8> {
    Seq::new(s.len(), |i: int| s[i] as u8)
}

proof fn lemma_form_byte(b: u8, rest: Seq<u8>)
    ensures
        decode::percent_decoded(ascii_bytes(form_byte(b)) + rest) == seq![b] + decode::percent_decoded(rest),
{
    let x = ascii_bytes(form_byte(b));
    let all = x + rest;
    if unreserved(b) {
        assert(all[0] == b);
        assert(all.skip(1) =~= rest);
        assert(b != 0x25);
    } else {
        assert(all[0] == 0x25);
        let h = (b / 16) as nat;
        let l = (b % 16) as nat;
        assert(all[1] == num::hex_upper_char(h) as u8);
        assert(all[2] == num::hex_upper_char(l) as u8);
        assert(decode::hex_value(all[1]) == Some(h as u8));
        assert(decode::hex_value(all[2]) == Some(l as u8));
        assert(all.skip(3) =~= rest);
        assert(h * 16 + l == b);
    }
}

/// What was written into a form is read back by percent decoding.
pub proof fn lemma_form_roundtrip(bytes: Seq<u8>)
    ensures
        decode::percent_decoded(ascii_bytes(form_bytes(bytes))) == bytes,
    decreases bytes.len(),
{
    if bytes.len() > 0 {
        let rest = bytes.drop_first();
        lemma_form_roundtrip(rest);
        assert(ascii_bytes(form_bytes(bytes)) =~= ascii_bytes(form_byte(bytes[0])) + ascii_bytes(form_bytes(rest)));
        lemma_form_byte(bytes[0], ascii_bytes(form_bytes(rest)));
        assert(seq![bytes[0]] + rest =~= bytes);
    } else {
        assert(ascii_bytes(form_bytes(bytes)) =~= seq![]);
        assert(decode::percent_decoded(seq![]) =~= bytes);
    }
}

pub fn urlenc(s: &str) -> (r: String)
    ensures
        r@ == form_text(s@),
{
    let b = s.as_bytes();
    let mut out = String::new();
    let ghost all = b@;
    assert(all.skip(0) =~= all);
    for i in 0..b.len()
        invariant
            all == b@,
            out@ + form_bytes(all.skip(i as int)) == form_bytes(all),
    {
        let x: u8 = b[i];
        let ghost before = out@;
        let ghost rest = all.skip(i as int);
        let plain = (0x41 <= x && x <= 0x5a) || (0x61 <= x && x <= 0x7a) || (0x30 <= x && x <= 0x39) || x == 0x2d || x
            == 0x5f || x == 0x2e || x == 0x7e;
        if plain {
            out.push(x as char);
        } else {
            out.push('%');
            out.push(hex_upper_digit(x / 16));
            out.push(hex_upper_digit(x % 16));
        }
        proof {
            assert(rest[0] == x);
            assert(rest.drop_first() =~= all.skip(i + 1));
            assert(out@ =~= before + form_byte(x));
            assert(out@ + form_bytes(all.skip(i + 1)) =~= before + form_bytes(rest));
        }
    }
    assert(out@ =~= form_bytes(all));
    out
}

/// The form that is sent to the service.
pub open spec fn form_body(secret: Seq<char>, token: Seq<char>, remote_ip: Seq<char>) -> Seq<char> {
    "secret="@ + form_text(secret) + "&response="@ + form_text(token) + "&remoteip="@ + form_text(remote_ip)
}

/// The request that is sent to the service.
pub open spec fn request_text(provider: Provider, secret: Seq<char>, token: Seq<char>, remote_ip: Seq<char>) -> Seq<
    char,
> {
    let body = form_body(secret, token, remote_ip);
    "POST "@ + provider.spec_path() + " HTTP/1.1\r\nHost: "@ + provider.spec_host()
        + "\r\nUser-Agent: 2t1-waf\r\nContent-Type: application/x-www-form-urlencoded\r\nContent-Length: "@
        + num::dec_text(text::utf8_len(body))
        + "\r\nConnection: close\r\nAccept: application/json\r\n\r\n"@ + body
}

pub fn build_request(provider: Provider, secret: &str, token: &str, remote_ip: &str) -> (r: String)
    ensures
        r@ == request_text(provider, secret@, token@, remote_ip@),
{
    let body = cat6(
        "secret=",
        urlenc(secret).as_str(),
        "&response=",
        urlenc(token).as_str(),
        "&remoteip=",
        urlenc(remote_ip).as_str(),
    );
    let mut out = String::new();
    out.append("POST ");
    out.append(provider.path());
    out.append(" HTTP/1.1\r\nHost: ");
    out.append(provider.host());
    out.append("\r\nUser-Agent: 2t1-waf\r\nContent-Type: application/x-www-form-urlencoded\r\nContent-Length: ");
    out.append(dec(byte_len(body.as_str()) as u64).as_str());
    out.append("\r\nConnection: close\r\nAccept: application/json\r\n\r\n");
    out.append(body.as_str());
    assert(out@ =~= request_text(provider, secret@, token@, remote_ip@));
    out
}

/// The body of the answer of the service, if the answer has one.
pub fn split_response(buf: &[u8]) -> (r: Option<Vec<u8>>)
    ensures
        r is None <==> forall|j: int| !#[trigger] http::blank_line_at(buf@, j),
        r matches Some(body) ==> exists|i: int|
            http::first_blank_line(buf@, Some(i)) && body@ == #[trigger] buf@.skip(i + 4),
{
    after_head(buf)
}

/// Whether a captcha counts as solved, after what the service said.
pub open spec fn captcha_solved(secret: Seq<char>, token: Seq<char>, answer: Option<bool>) -> bool {
    secret.len() > 0 && token.len() > 0 && answer == Some(true)
}

/// Whether a captcha counts as solved: only where everything is configured and the service has
/// said so. `answer` is what the service said; nothing stands for any failure on the way.
pub fn captcha_passed(secret: &str, token: &str, answer: Option<bool>) -> (r: bool)
    ensures
        r == captcha_solved(secret@, token@, answer),
{
    proof {
        reveal_strlit("");
        assert(secret@.len() == 0 ==> secret@ =~= ""@);
        assert(token@.len() == 0 ==> token@ =~= ""@);
    }
    if same_text(secret, "") || same_text(token, "") {
        return false;
    }
    match answer {
        Some(ok) => ok,
        None => false,
    }
}

/// The text of the captcha page.
pub open spec fn captcha_page(
    provider: Provider,
    site_key: Seq<char>,
    request_id: Seq<char>,
    original: Seq<char>,
) -> Seq<char> {
    pages::CAPTCHA_0@ + provider.spec_script_src() + pages::CAPTCHA_1@ + provider.spec_label() + pages::CAPTCHA_2@
        + provider.spec_widget_class() + pages::CAPTCHA_3@ + site_key + pages::CAPTCHA_4@ + request_id
        + pages::CAPTCHA_5@ + text::plain_chars(original) + pages::CAPTCHA_6@
}

/// The captcha page, which goes on to `original` after a successful check.
pub fn render_page(provider: Provider, site_key: &str, request_id: &str, original: &str) -> (r: String)
    ensures
        r@ == captcha_page(provider, site_key@, request_id@, original@),
{
    let mut out = String::new();
    out.append(pages::CAPTCHA_0);
    out.append(provider.script_src());
    out.append(pages::CAPTCHA_1);
    out.append(provider.label());
    out.append(pages::CAPTCHA_2);
    out.append(provider.widget_class());
    out.append(pages::CAPTCHA_3);
    out.append(site_key);
    out.append(pages::CAPTCHA_4);
    out.append(request_id);
    out.append(pages::CAPTCHA_5);
    out.append(without_quotes(original).as_str());
    out.append(pages::CAPTCHA_6);
    assert(out@ =~= captcha_page(provider, site_key@, request_id@, original@));
    out
}

// ---------------------------------------------------------------------------
// Laws
// ---------------------------------------------------------------------------

/// Only the name of the other service, in whatever case, chooses it.
pub proof fn lemma_provider(s: Seq<char>)
    ensures
        provider_of(s) == Provider::Hcaptcha <==> text::lower_text(s) == "hcaptcha"@,
        provider_of(s) == Provider::Turnstile <==> text::lower_text(s) != "hcaptcha"@,
{
}

/// What is written into a form holds neither of the signs that part its fields.
pub proof fn lemma_form_closed(bytes: Seq<u8>)
    ensures
        forall|i: int|
            0 <= i < form_bytes(bytes).len() ==> (#[trigger] form_bytes(bytes)[i]) != '&' && form_bytes(bytes)[i]
                != '=' && form_bytes(bytes)[i] != '+' && form_bytes(bytes)[i] != ' ',
    decreases bytes.len(),
{
    if bytes.len() > 0 {
        let rest = bytes.drop_first();
        lemma_form_closed(rest);
        let f = form_byte(bytes[0]);
        let all = form_bytes(bytes);
        assert forall|i: int| 0 <= i < all.len() implies (#[trigger] all[i]) != '&' && all[i] != '=' && all[i] != '+'
            && all[i] != ' ' by {
            if i < f.len() {
                assert(all[i] == f[i]);
            } else {
                assert(all[i] == form_bytes(rest)[i - f.len()]);
            }
        }
    }
}

/// Letters, digits and the four unreserved signs are written as they are, one character each; every
/// other byte takes three.
pub proof fn lemma_form_size(b: u8)
    ensures
        form_byte(b).len() == 1 || form_byte(b).len() == 3,
        form_byte(b).len() == 1 ==> form_byte(b)[0] as u32 == b,
        form_byte(b).len() == 3 ==> form_byte(b)[0] == '%',
        form_byte(b).len() == 1 <==> (0x30 <= b <= 0x39 || 0x41 <= b <= 0x5a || 0x61 <= b <= 0x7a || b == 0x2d || b
            == 0x2e || b == 0x5f || b == 0x7e),
{
}

/// The request ends with the form, and each field of the form holds what was given for it.
pub proof fn lemma_request_carries(provider: Provider, secret: Seq<char>, token: Seq<char>, remote_ip: Seq<char>)
    ensures
        ({
            let body = form_body(secret, token, remote_ip);
            let all = request_text(provider, secret, token, remote_ip);
            &&& all.len() >= body.len()
            &&& all.skip(all.len() - body.len()) == body
            &&& body == "secret="@ + form_text(secret) + ("&response="@ + form_text(token)) + ("&remoteip="@ + form_text(
                remote_ip,
            ))
        }),
{
    let body = form_body(secret, token, remote_ip);
    let all = request_text(provider, secret, token, remote_ip);
    assert(all.skip(all.len() - body.len()) =~= body);
    assert(body =~= "secret="@ + form_text(secret) + ("&response="@ + form_text(token)) + ("&remoteip="@ + form_text(
        remote_ip,
    )));
}

/// A captcha is solved exactly by what its service confirms: no failure on the way, no missing token
/// and no missing secret ever stands for a solution.
pub proof fn lemma_confirmed_alone(secret: Seq<char>, token: Seq<char>, answer: Option<bool>)
    ensures
        captcha_solved(secret, token, None) == false,
        captcha_solved(secret, token, Some(false)) == false,
        captcha_solved(seq![], token, answer) == false,
        captcha_solved(secret, seq![], answer) == false,
        secret.len() > 0 && token.len() > 0 ==> captcha_solved(secret, token, Some(true)),
{
}

/// The page asks the service that is set up, with its key, and goes on to the place that was asked for,
/// without quotes and control characters.
pub proof fn lemma_page_holds(provider: Provider, site_key: Seq<char>, request_id: Seq<char>, original: Seq<char>)
    ensures
        ({
            let page = captcha_page(provider, site_key, request_id, original);
            &&& text::has_text(page, provider.spec_script_src())
            &&& text::has_text(page, site_key)
            &&& text::has_text(page, text::plain_chars(original))
        }),
{
    let page = captcha_page(provider, site_key, request_id, original);
    let src = provider.spec_script_src();
    let a = pages::CAPTCHA_0@;
    let b = a + src + pages::CAPTCHA_1@ + provider.spec_label() + pages::CAPTCHA_2@ + provider.spec_widget_class()
        + pages::CAPTCHA_3@;
    let c = b + site_key + pages::CAPTCHA_4@ + request_id + pages::CAPTCHA_5@;
    let o = text::plain_chars(original);
    let z = pages::CAPTCHA_6@;
    assert(page == c + o + z);
    text::lemma_has_text(c, o, z, seq![]);
    let rest = pages::CAPTCHA_4@ + request_id + pages::CAPTCHA_5@ + o + z;
    assert(page =~= b + site_key + rest);
    text::lemma_has_text(b, site_key, rest, seq![]);
    let rest = pages::CAPTCHA_1@ + provider.spec_label() + pages::CAPTCHA_2@ + provider.spec_widget_class()
        + pages::CAPTCHA_3@ + site_key + rest;
    assert(page =~= a + src + rest);
    text::lemma_has_text(a, src, rest, seq![]);
}

} // verus!
