//! Could the client plausibly be a real, modern browser?
//!
//! Every tell of a browser is held against every other one. `Forged` is returned only for a
//! combination that is impossible for the browser that the client claims to be; what is merely
//! incomplete is `Unverified`.

use crate::request::{self, RequestCtx};
use crate::text::{self, contains, contains_any, same_fold, same_text, starts_with, to_lower, trim};
use vstd::prelude::*;

verus! {

#[derive(Debug, Clone, PartialEq, Eq)]
pub enum BrowserVerdict {
    /// A complete and consistent fingerprint of a modern browser.
    Trusted,
    /// Not obviously forged, but too incomplete to vouch for.
    Unverified,
    /// A combination that is impossible for the claimed browser, with a short reason.
    Forged(&'static str),
}

#[verifier::ext_equal]
pub enum VerdictView {
    Trusted,
    Unverified,
    Forged(Seq<char>),
}

impl View for BrowserVerdict {
    type V = VerdictView;

    open spec fn view(&self) -> VerdictView {
        match self {
            BrowserVerdict::Trusted => VerdictView::Trusted,
            BrowserVerdict::Unverified => VerdictView::Unverified,
            BrowserVerdict::Forged(why) => VerdictView::Forged(why@),
        }
    }
}

/// The browser families that can be told apart.
#[derive(Debug, Clone, Copy, PartialEq, Eq, Structural)]
pub enum Family {
    Chromium,
    Firefox,
    /// Real Safari, not the Safari word of Chrome.
    Safari,
    /// Claims to be a browser in a way that says no more.
    Other,
    /// Does not claim to be a browser.
    NonBrowser,
}

pub open spec fn chromium_words() -> Seq<Seq<char>> {
    seq!["chrome/"@, "chromium/"@, "edg/"@, "edga/"@, "edgios/"@, "opr/"@, "samsungbrowser/"@]
}

/// The family that a User-Agent claims to belong to.
pub open spec fn family_of(ua: Seq<char>) -> Family {
    let low = text::lower_text(ua);
    if text::has_any(low, chromium_words()) {
        Family::Chromium
    } else if text::has_text(low, "firefox/"@) || text::has_text(low, "fxios/"@) {
        Family::Firefox
    } else if text::has_text(low, "safari/"@) && text::has_text(low, "version/"@) {
        Family::Safari
    } else if text::has_text(low, "mozilla/"@) {
        Family::Other
    } else {
        Family::NonBrowser
    }
}

pub fn family(ua: &str) -> (r: Family)
    ensures
        r == family_of(ua@),
{
    let low = to_lower(ua);
    let words = ["chrome/", "chromium/", "edg/", "edga/", "edgios/", "opr/", "samsungbrowser/"];
    assert(text::texts(words@) =~= chromium_words());
    let ua = low.as_str();
    if contains_any(ua, &words) {
        return Family::Chromium;
    }
    if contains(ua, "firefox/") || contains(ua, "fxios/") {
        return Family::Firefox;
    }
    if contains(ua, "safari/") && contains(ua, "version/") {
        return Family::Safari;
    }
    if contains(ua, "mozilla/") {
        return Family::Other;
    }
    Family::NonBrowser
}

/// The words of which a Chromium client hint holds at least one.
pub open spec fn brand_words() -> Seq<Seq<char>> {
    seq!["chromium"@, "chrome"@, "edge"@, "opera"@, "brave"@, "not"@, "brand"@]
}

/// The families whose tells are known.
pub open spec fn known_family(fam: Family) -> bool {
    fam == Family::Chromium || fam == Family::Firefox || fam == Family::Safari
}

/// Whether the request loads a document.
pub open spec fn loads_document(headers: Seq<request::Pair>) -> bool {
    match request::lookup(headers, "sec-fetch-dest"@) {
        Some(v) => text::equal_fold(v, "document"@),
        None => false,
    }
}

/// The TLS fingerprints of which no browser has one.
pub open spec fn bad_ja4_prefixes() -> Seq<Seq<char>> {
    seq!["t13d190900"@, "t10d"@, "t11d"@]
}

/// Whether a forwarded TLS fingerprint is that of a scripting stack although the client claims
/// to be a known browser.
pub open spec fn tls_contradicts(ja4: Seq<char>, fam: Family) -> bool {
    known_family(fam) && exists|i: int|
        0 <= i < bad_ja4_prefixes().len() && text::has_prefix(
            text::lower_text(ja4),
            #[trigger] bad_ja4_prefixes()[i],
        )
}

/// Whether a forwarded TLS fingerprint is that of a modern browser, as the client claims.
pub open spec fn tls_agrees(ja4: Seq<char>, fam: Family) -> bool {
    known_family(fam) && text::has_prefix(text::lower_text(ja4), "t13"@)
}

/// The reason for which the client hints of a Chromium browser are impossible.
pub open spec fn hint_fault(headers: Seq<request::Pair>) -> Option<Seq<char>> {
    let hint = request::lookup(headers, "sec-ch-ua"@);
    let mobile = request::lookup(headers, "sec-ch-ua-mobile"@);
    if hint is None && !request::has_key_prefix(headers, "sec-fetch-"@) {
        Some("Chrome UA without any sec-ch-ua / sec-fetch headers"@)
    } else if hint matches Some(v) && !text::has_any(text::lower_text(v), brand_words()) {
        Some("sec-ch-ua present but lists no Chromium brand"@)
    } else if mobile matches Some(m) && text::trimmed(m) != "?0"@ && text::trimmed(m) != "?1"@ {
        Some("malformed sec-ch-ua-mobile"@)
    } else {
        None
    }
}

/// The value of the accept header, or nothing.
pub open spec fn accept_of(headers: Seq<request::Pair>) -> Seq<char> {
    match request::lookup(headers, "accept"@) {
        Some(v) => v,
        None => seq![],
    }
}

/// The reason for which a request that claims a browser is impossible, if it is.
pub open spec fn forgery(ctx: RequestCtx, fam: Family) -> Option<Seq<char>> {
    if text::has_text(ctx.http_version@, "1.0"@) {
        Some("modern browser UA over HTTP/1.0"@)
    } else if fam == Family::Chromium && hint_fault(ctx.headers@) is Some {
        hint_fault(ctx.headers@)
    } else if known_family(fam) && text::equal_fold(ctx.method@, "GET"@) && loads_document(ctx.headers@) && accept_of(
        ctx.headers@,
    ) == "*/*"@ {
        Some("browser document navigation with Accept: */*"@)
    } else if tls_contradicts(ctx.ja4@, fam) {
        Some("TLS fingerprint is a known scripting stack, UA claims a browser"@)
    } else {
        None
    }
}

/// Whether a request shows everything that the claimed browser always shows.
pub open spec fn complete(ctx: RequestCtx, fam: Family) -> bool {
    let languages = request::has_key(ctx.headers@, "accept-language"@) && request::has_key(
        ctx.headers@,
        "accept-encoding"@,
    );
    let accept = accept_of(ctx.headers@);
    ||| {
        &&& known_family(fam)
        &&& fam == Family::Chromium ==> request::has_key(ctx.headers@, "sec-ch-ua"@)
        &&& request::has_key_prefix(ctx.headers@, "sec-fetch-"@)
        &&& languages
        &&& accept.len() > 0
        &&& accept != "*/*"@
    }
    ||| tls_agrees(ctx.ja4@, fam) && languages
}

pub open spec fn verdict_of(ctx: RequestCtx) -> VerdictView {
    let fam = family_of(text::trimmed(ctx.user_agent@));
    if fam == Family::NonBrowser {
        VerdictView::Unverified
    } else {
        match forgery(ctx, fam) {
            Some(why) => VerdictView::Forged(why),
            None => if complete(ctx, fam) {
                VerdictView::Trusted
            } else {
                VerdictView::Unverified
            },
        }
    }
}

/// A client that does not claim to be a browser is never called forged and never trusted.
pub proof fn lemma_honest_client(ctx: RequestCtx)
    requires
        family_of(text::trimmed(ctx.user_agent@)) == Family::NonBrowser,
    ensures
        verdict_of(ctx) == VerdictView::Unverified,
{
}

/// A trusted request shows no forgery.
pub proof fn lemma_trusted_is_consistent(ctx: RequestCtx)
    requires
        verdict_of(ctx) == VerdictView::Trusted,
    ensures
        forgery(ctx, family_of(text::trimmed(ctx.user_agent@))) is None,
        known_family(family_of(text::trimmed(ctx.user_agent@))),
        request::has_key(ctx.headers@, "accept-language"@),
        request::has_key(ctx.headers@, "accept-encoding"@),
{
}

fn has_sec_fetch_dest_document(ctx: &RequestCtx) -> (r: bool)
    ensures
        r == loads_document(ctx.headers@),
{
    match ctx.headers.get("sec-fetch-dest") {
        Some(v) => same_fold(v.as_str(), "document"),
        None => false,
    }
}

fn known(fam: Family) -> (r: bool)
    ensures
        r == known_family(fam),
{
    match fam {
        Family::Chromium | Family::Firefox | Family::Safari => true,
        _ => false,
    }
}

fn tls_contradicts_browser(ja4: &str, fam: Family) -> (r: bool)
    ensures
        r == tls_contradicts(ja4@, fam),
{
    if !known(fam) {
        return false;
    }
    let low = to_lower(ja4);
    let ghost list = bad_ja4_prefixes();
    if starts_with(low.as_str(), "t13d190900") {
        assert(text::has_prefix(low@, list[0]));
        return true;
    }
    if starts_with(low.as_str(), "t10d") {
        assert(text::has_prefix(low@, list[1]));
        return true;
    }
    if starts_with(low.as_str(), "t11d") {
        assert(text::has_prefix(low@, list[2]));
        return true;
    }
    false
}

fn tls_agrees_with_browser(ja4: &str, fam: Family) -> (r: bool)
    ensures
        r == tls_agrees(ja4@, fam),
{
    known(fam) && starts_with(to_lower(ja4).as_str(), "t13")
}

fn hint_check(ctx: &RequestCtx, has_sec_fetch: bool) -> (r: Option<&'static str>)
    requires
        has_sec_fetch == request::has_key_prefix(ctx.headers@, "sec-fetch-"@),
    ensures
        r is Some <==> hint_fault(ctx.headers@) is Some,
        r matches Some(why) ==> hint_fault(ctx.headers@) == Some(why@),
{
    match ctx.headers.get("sec-ch-ua") {
        None => {
            if !has_sec_fetch {
                return Some("Chrome UA without any sec-ch-ua / sec-fetch headers");
            }
        },
        Some(v) => {
            let words = ["chromium", "chrome", "edge", "opera", "brave", "not", "brand"];
            assert(text::texts(words@) =~= brand_words());
            if !contains_any(to_lower(v.as_str()).as_str(), &words) {
                return Some("sec-ch-ua present but lists no Chromium brand");
            }
        },
    }
    if let Some(m) = ctx.headers.get("sec-ch-ua-mobile") {
        let m = trim(m.as_str());
        if !same_text(m.as_str(), "?0") && !same_text(m.as_str(), "?1") {
            return Some("malformed sec-ch-ua-mobile");
        }
    }
    None
}

/// The verdict on a request. The TLS fingerprint sharpens it where a front end forwarded one,
/// but is never required.
pub fn verify(ctx: &RequestCtx) -> (r: BrowserVerdict)
    ensures
        r@ == verdict_of(*ctx),
{
    let ua = trim(ctx.user_agent.as_str());
    let fam = family(ua.as_str());
    if fam == Family::NonBrowser {
        return BrowserVerdict::Unverified;
    }
    let has_sec_fetch = ctx.headers.any_key_starts("sec-fetch-");
    let has_sec_ch_ua = ctx.headers.contains_key("sec-ch-ua");
    let accept: &str = match ctx.headers.get("accept") {
        Some(v) => v.as_str(),
        None => "",
    };
    proof {
        reveal_strlit("");
        assert(""@ =~= Seq::<char>::empty());
        assert(accept@ == accept_of(ctx.headers@));
        assert(accept@.len() == 0 ==> accept@ =~= ""@);
    }
    if contains(ctx.http_version.as_str(), "1.0") {
        return BrowserVerdict::Forged("modern browser UA over HTTP/1.0");
    }
    if fam == Family::Chromium {
        if let Some(why) = hint_check(ctx, has_sec_fetch) {
            return BrowserVerdict::Forged(why);
        }
    }
    let any_type = same_text(accept, "*/*");
    if known(fam) && same_fold(ctx.method.as_str(), "GET") && has_sec_fetch_dest_document(ctx) && any_type {
        return BrowserVerdict::Forged("browser document navigation with Accept: */*");
    }
    if tls_contradicts_browser(ctx.ja4.as_str(), fam) {
        return BrowserVerdict::Forged("TLS fingerprint is a known scripting stack, UA claims a browser");
    }
    let accept_lang = ctx.headers.contains_key("accept-language");
    let accept_enc = ctx.headers.contains_key("accept-encoding");
    let accept_ok = !same_text(accept, "") && !any_type;
    let trusted = match fam {
        Family::Chromium => has_sec_ch_ua && has_sec_fetch && accept_lang && accept_enc && accept_ok,
        Family::Firefox | Family::Safari => has_sec_fetch && accept_lang && accept_enc && accept_ok,
        _ => false,
    };
    let tls_agrees = tls_agrees_with_browser(ctx.ja4.as_str(), fam);
    if trusted || (tls_agrees && accept_lang && accept_enc) {
        return BrowserVerdict::Trusted;
    }
    BrowserVerdict::Unverified
}

// ---------------------------------------------------------------------------
// Laws
// ---------------------------------------------------------------------------

/// Whether a text, in lower case, holds one of the names by which Chromium browsers go.
pub open spec fn says_chromium(low: Seq<char>) -> bool {
    ||| text::has_text(low, "chrome/"@)
    ||| text::has_text(low, "chromium/"@)
    ||| text::has_text(low, "edg/"@)
    ||| text::has_text(low, "edga/"@)
    ||| text::has_text(low, "edgios/"@)
    ||| text::has_text(low, "opr/"@)
    ||| text::has_text(low, "samsungbrowser/"@)
}

pub open spec fn says_firefox(low: Seq<char>) -> bool {
    text::has_text(low, "firefox/"@) || text::has_text(low, "fxios/"@)
}

pub open spec fn says_safari(low: Seq<char>) -> bool {
    text::has_text(low, "safari/"@) && text::has_text(low, "version/"@)
}

/// The families by the words of the User-Agent, whatever their case.
pub proof fn lemma_families(ua: Seq<char>)
    ensures
        ({
            let low = text::lower_text(ua);
            let fam = family_of(ua);
            &&& fam == Family::Chromium <==> says_chromium(low)
            &&& fam == Family::Firefox <==> !says_chromium(low) && says_firefox(low)
            &&& fam == Family::Safari <==> !says_chromium(low) && !says_firefox(low) && says_safari(low)
            &&& fam == Family::Other <==> !says_chromium(low) && !says_firefox(low) && !says_safari(low)
                && text::has_text(low, "mozilla/"@)
            &&& fam == Family::NonBrowser <==> !says_chromium(low) && !says_firefox(low) && !says_safari(low)
                && !text::has_text(low, "mozilla/"@)
        }),
{
    let low = text::lower_text(ua);
    let w = chromium_words();
    assert(w[0] == "chrome/"@ && w[1] == "chromium/"@ && w[2] == "edg/"@ && w[3] == "edga/"@);
    assert(w[4] == "edgios/"@ && w[5] == "opr/"@ && w[6] == "samsungbrowser/"@ && w.len() == 7);
}

/// Whether the claim is one of a browser whose tells are known.
pub open spec fn claims_known(ctx: RequestCtx) -> bool {
    let low = text::lower_text(text::trimmed(ctx.user_agent@));
    says_chromium(low) || says_firefox(low) || says_safari(low)
}

/// Whether the claim is one of a Chromium browser.
pub open spec fn claims_chromium(ctx: RequestCtx) -> bool {
    says_chromium(text::lower_text(text::trimmed(ctx.user_agent@)))
}

/// Whether the claim is one of some browser.
pub open spec fn claims_browser(ctx: RequestCtx) -> bool {
    claims_known(ctx) || text::has_text(text::lower_text(text::trimmed(ctx.user_agent@)), "mozilla/"@)
}

/// Whether a hint holds one of the brand words.
pub open spec fn shows_brand(low: Seq<char>) -> bool {
    ||| text::has_text(low, "chromium"@)
    ||| text::has_text(low, "chrome"@)
    ||| text::has_text(low, "edge"@)
    ||| text::has_text(low, "opera"@)
    ||| text::has_text(low, "brave"@)
    ||| text::has_text(low, "not"@)
    ||| text::has_text(low, "brand"@)
}

/// A claim is called forged exactly when the version of the protocol, the client hints, the accept
/// header of a navigation or the TLS fingerprint rules it out.
pub proof fn lemma_forged_exactly(ctx: RequestCtx)
    ensures
        ({
            let h = ctx.headers@;
            let hint = request::lookup(h, "sec-ch-ua"@);
            let mobile = request::lookup(h, "sec-ch-ua-mobile"@);
            let dest = request::lookup(h, "sec-fetch-dest"@);
            let ja4 = text::lower_text(ctx.ja4@);
            verdict_of(ctx) is Forged <==> claims_browser(ctx) && {
                ||| text::has_text(ctx.http_version@, "1.0"@)
                ||| claims_chromium(ctx) && hint is None && !request::has_key_prefix(h, "sec-fetch-"@)
                ||| claims_chromium(ctx) && hint is Some && !shows_brand(text::lower_text(hint->0))
                ||| claims_chromium(ctx) && mobile is Some && text::trimmed(mobile->0) != "?0"@ && text::trimmed(
                    mobile->0,
                ) != "?1"@
                ||| claims_known(ctx) && text::equal_fold(ctx.method@, "GET"@) && dest is Some && text::equal_fold(
                    dest->0,
                    "document"@,
                ) && request::lookup(h, "accept"@) == Some("*/*"@)
                ||| claims_known(ctx) && (text::has_prefix(ja4, "t13d190900"@) || text::has_prefix(ja4, "t10d"@)
                    || text::has_prefix(ja4, "t11d"@))
            }
        }),
{
    lemma_families(text::trimmed(ctx.user_agent@));
    let w = brand_words();
    assert(w[0] == "chromium"@ && w[1] == "chrome"@ && w[2] == "edge"@ && w[3] == "opera"@);
    assert(w[4] == "brave"@ && w[5] == "not"@ && w[6] == "brand"@ && w.len() == 7);
    let l = bad_ja4_prefixes();
    assert(l[0] == "t13d190900"@ && l[1] == "t10d"@ && l[2] == "t11d"@ && l.len() == 3);
    reveal_strlit("*/*");
    assert("*/*"@.len() == 3);
}

/// A browser whose tells are known, that shows everything such a browser shows and no forgery, is
/// trusted, of whichever of the families it is.
pub proof fn lemma_complete_is_trusted(ctx: RequestCtx)
    requires
        claims_known(ctx),
        !(verdict_of(ctx) is Forged),
        claims_chromium(ctx) ==> request::has_key(ctx.headers@, "sec-ch-ua"@),
        request::has_key_prefix(ctx.headers@, "sec-fetch-"@),
        request::has_key(ctx.headers@, "accept-language"@),
        request::has_key(ctx.headers@, "accept-encoding"@),
        request::lookup(ctx.headers@, "accept"@) matches Some(v) && v.len() > 0 && v != "*/*"@,
    ensures
        verdict_of(ctx) == VerdictView::Trusted,
{
    lemma_families(text::trimmed(ctx.user_agent@));
}

/// The TLS fingerprint of a modern browser stands in for the other headers, but not for the
/// languages and encodings.
pub proof fn lemma_fingerprint_vouches(ctx: RequestCtx)
    requires
        claims_known(ctx),
        !(verdict_of(ctx) is Forged),
        text::has_prefix(text::lower_text(ctx.ja4@), "t13"@),
        request::has_key(ctx.headers@, "accept-language"@),
        request::has_key(ctx.headers@, "accept-encoding"@),
    ensures
        verdict_of(ctx) == VerdictView::Trusted,
{
    lemma_families(text::trimmed(ctx.user_agent@));
}

/// Only a complete browser of a known family is trusted: one of the two ways to vouch for itself is there.
pub proof fn lemma_trusted_exactly(ctx: RequestCtx)
    ensures
        ({
            let h = ctx.headers@;
            let accept = request::lookup(h, "accept"@);
            verdict_of(ctx) == VerdictView::Trusted <==> {
                &&& claims_known(ctx)
                &&& !(verdict_of(ctx) is Forged)
                &&& request::has_key(h, "accept-language"@)
                &&& request::has_key(h, "accept-encoding"@)
                &&& {
                    ||| text::has_prefix(text::lower_text(ctx.ja4@), "t13"@)
                    ||| {
                        &&& claims_chromium(ctx) ==> request::has_key(h, "sec-ch-ua"@)
                        &&& request::has_key_prefix(h, "sec-fetch-"@)
                        &&& accept is Some
                        &&& accept->0.len() > 0
                        &&& accept->0 != "*/*"@
                    }
                }
            }
        }),
{
    lemma_families(text::trimmed(ctx.user_agent@));
}

/// The case of the User-Agent makes no difference.
pub proof fn lemma_family_folds(a: Seq<char>, b: Seq<char>)
    requires
        text::equal_fold(a, b),
    ensures
        family_of(a) == family_of(b),
{
}

} // verus!
