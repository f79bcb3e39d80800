//! Protocol-level anomalies of HTTP/2 and HTTP/3. Several header shapes that are merely odd in
//! HTTP/1 are illegal there (RFC 9113, section 8.2).

use crate::decision::{self, push_when, reason, DecisionReason, ReasonView};
use crate::num::{self, dec};
use crate::request::{self, RequestCtx};
use crate::text::{self, cat2, cat3, contains, first_chars, quoted, same_fold, same_text, starts_with};
use vstd::prelude::*;

verus! {

pub const W_FORBIDDEN_HDR: u32 = 70;

pub const W_TE_INVALID: u32 = 60;

pub const W_NO_UA_H2: u32 = 25;

pub const W_MIN_HDRS_H2: u32 = 30;

pub const W_BAD_PATH: u32 = 20;

/// The headers of one connection, which HTTP/2 forbids.
pub open spec fn forbidden_headers() -> Seq<Seq<char>> {
    seq!["connection"@, "keep-alive"@, "proxy-connection"@, "transfer-encoding"@, "upgrade"@]
}

/// Whether a protocol version is 2 or 3.
pub open spec fn is_h2_or_h3(version: Seq<char>) -> bool {
    text::has_text(version, "/2"@) || text::has_text(version, "/3"@)
}

pub open spec fn forbidden_reason(name: Seq<char>) -> ReasonView {
    decision::reason_of(
        "H2-FORBIDDEN-HDR"@,
        "h2"@,
        W_FORBIDDEN_HDR,
        "HTTP/2 request carries forbidden header `"@ + name + "`"@,
    )
}

/// One reason for each forbidden header that is present.
pub open spec fn forbidden_present(names: Seq<Seq<char>>, headers: Seq<request::Pair>) -> Seq<ReasonView>
    decreases names.len(),
{
    if names.len() == 0 {
        seq![]
    } else {
        forbidden_present(names.drop_last(), headers) + decision::when(
            request::has_key(headers, names.last()),
            forbidden_reason(names.last()),
        )
    }
}

/// The only legal value of the TE header is `trailers`.
pub open spec fn bad_te(ctx: RequestCtx) -> Seq<ReasonView> {
    match request::lookup(ctx.headers@, "te"@) {
        Some(te) => decision::when(
            !text::equal_fold(te, "trailers"@),
            decision::reason_of(
                "H2-TE-INVALID"@,
                "h2"@,
                W_TE_INVALID,
                "HTTP/2 TE header has illegal value: "@ + text::debug_text(te),
            ),
        ),
        None => seq![],
    }
}

pub open spec fn no_user_agent(ctx: RequestCtx) -> Seq<ReasonView> {
    decision::when(
        !request::has_key(ctx.headers@, "user-agent"@),
        decision::reason_of("H2-NO-UA"@, "h2"@, W_NO_UA_H2, "HTTP/2 request without User-Agent"@),
    )
}

pub open spec fn few_headers(ctx: RequestCtx) -> Seq<ReasonView> {
    decision::when(
        ctx.headers@.len() < 4,
        decision::reason_of(
            "H2-MIN-HDRS"@,
            "h2"@,
            W_MIN_HDRS_H2,
            "HTTP/2 request with only "@ + num::dec_text(ctx.headers@.len()) + " named headers"@,
        ),
    )
}

/// A path that is neither absolute nor the asterisk form.
pub open spec fn bad_path(ctx: RequestCtx) -> Seq<ReasonView> {
    decision::when(
        ctx.path@.len() > 0 && !text::has_prefix(ctx.path@, "/"@) && ctx.path@ != "*"@,
        decision::reason_of(
            "H2-BAD-PATH"@,
            "h2"@,
            W_BAD_PATH,
            "HTTP/2 :path doesn't start with /: "@ + text::debug_text(text::head(ctx.path@, 48)),
        ),
    )
}

/// All anomalies of a request, in their order; none for earlier versions of the protocol.
pub open spec fn anomalies(ctx: RequestCtx) -> Seq<ReasonView> {
    if is_h2_or_h3(ctx.http_version@) {
        forbidden_present(forbidden_headers(), ctx.headers@) + bad_te(ctx) + no_user_agent(ctx) + few_headers(ctx)
            + bad_path(ctx)
    } else {
        seq![]
    }
}

pub fn score(ctx: &RequestCtx) -> (r: Vec<DecisionReason>)
    ensures
        decision::views(r@) == anomalies(*ctx),
{
    let mut out: Vec<DecisionReason> = Vec::new();
    let version = ctx.http_version.as_str();
    if !(contains(version, "/2") || contains(version, "/3")) {
        assert(decision::views(out@) =~= seq![]);
        return out;
    }
    let names = ["connection", "keep-alive", "proxy-connection", "transfer-encoding", "upgrade"];
    let ghost all = text::texts(names@);
    assert(all =~= forbidden_headers());
    assert(decision::views(out@) =~= forbidden_present(all.take(0), ctx.headers@));
    for i in 0..names.len()
        invariant
            all == text::texts(names@),
            decision::views(out@) == forbidden_present(all.take(i as int), ctx.headers@),
    {
        proof {
            assert(all.take(i + 1).drop_last() =~= all.take(i as int));
            assert(all.take(i + 1).last() == names@[i as int]@);
        }
        push_when(
            &mut out,
            ctx.headers.contains_key(names[i]),
            reason(
                "H2-FORBIDDEN-HDR",
                "h2",
                W_FORBIDDEN_HDR,
                cat3("HTTP/2 request carries forbidden header `", names[i], "`"),
            ),
        );
    }
    assert(all.take(all.len() as int) =~= all);
    if let Some(te) = ctx.headers.get("te") {
        push_when(
            &mut out,
            !same_fold(te.as_str(), "trailers"),
            reason(
                "H2-TE-INVALID",
                "h2",
                W_TE_INVALID,
                cat2("HTTP/2 TE header has illegal value: ", quoted(te.as_str()).as_str()),
            ),
        );
    }
    assert(decision::views(out@) =~= forbidden_present(all, ctx.headers@) + bad_te(*ctx));
    push_when(
        &mut out,
        !ctx.headers.contains_key("user-agent"),
        reason("H2-NO-UA", "h2", W_NO_UA_H2, "HTTP/2 request without User-Agent".to_string()),
    );
    let n: usize = ctx.headers.len();
    push_when(
        &mut out,
        n < 4,
        reason(
            "H2-MIN-HDRS",
            "h2",
            W_MIN_HDRS_H2,
            cat3("HTTP/2 request with only ", dec(n as u64).as_str(), " named headers"),
        ),
    );
    let path = ctx.path.as_str();
    push_when(
        &mut out,
        !same_text(path, "") && !starts_with(path, "/") && !same_text(path, "*"),
        reason(
            "H2-BAD-PATH",
            "h2",
            W_BAD_PATH,
            cat2("HTTP/2 :path doesn't start with /: ", quoted(first_chars(path, 48).as_str()).as_str()),
        ),
    );
    proof {
        reveal_strlit("");
        assert(path@.len() == 0 <==> path@ =~= ""@);
    }
    out
}

// ---------------------------------------------------------------------------
// Laws
// ---------------------------------------------------------------------------

proof fn lemma_ids()
    ensures
        "H2-FORBIDDEN-HDR"@ != "H2-TE-INVALID"@,
        "H2-FORBIDDEN-HDR"@ != "H2-NO-UA"@,
        "H2-FORBIDDEN-HDR"@ != "H2-MIN-HDRS"@,
        "H2-FORBIDDEN-HDR"@ != "H2-BAD-PATH"@,
        "H2-TE-INVALID"@ != "H2-NO-UA"@,
        "H2-TE-INVALID"@ != "H2-MIN-HDRS"@,
        "H2-TE-INVALID"@ != "H2-BAD-PATH"@,
        "H2-NO-UA"@ != "H2-MIN-HDRS"@,
        "H2-NO-UA"@ != "H2-BAD-PATH"@,
        "H2-MIN-HDRS"@ != "H2-BAD-PATH"@,
{
    reveal_strlit("H2-FORBIDDEN-HDR");
    reveal_strlit("H2-TE-INVALID");
    reveal_strlit("H2-NO-UA");
    reveal_strlit("H2-MIN-HDRS");
    reveal_strlit("H2-BAD-PATH");
    assert("H2-FORBIDDEN-HDR"@.len() == 16);
    assert("H2-TE-INVALID"@.len() == 13);
    assert("H2-NO-UA"@.len() == 8);
    assert("H2-MIN-HDRS"@.len() == 11);
    assert("H2-BAD-PATH"@.len() == 11);
    assert("H2-MIN-HDRS"@[3] == 'M' && "H2-BAD-PATH"@[3] == 'B');
}

proof fn lemma_forbidden_list(names: Seq<Seq<char>>, headers: Seq<request::Pair>, rule_id: Seq<char>, score: u32)
    ensures
        decision::names(forbidden_present(names, headers), rule_id) <==> rule_id == "H2-FORBIDDEN-HDR"@ && exists|i: int|
            0 <= i < names.len() && request::has_key(headers, #[trigger] names[i]),
        decision::gives(forbidden_present(names, headers), rule_id, score) <==> rule_id == "H2-FORBIDDEN-HDR"@ && score
            == 70 && exists|i: int| 0 <= i < names.len() && request::has_key(headers, #[trigger] names[i]),
    decreases names.len(),
{
    broadcast use decision::group_reasons;

    if names.len() > 0 {
        let rest = names.drop_last();
        lemma_forbidden_list(rest, headers, rule_id, score);
        assert(names.last() == names[names.len() - 1]);
        if exists|i: int| 0 <= i < rest.len() && request::has_key(headers, #[trigger] rest[i]) {
            let i = choose|i: int| 0 <= i < rest.len() && request::has_key(headers, #[trigger] rest[i]);
            assert(request::has_key(headers, names[i]));
        }
        if exists|i: int| 0 <= i < names.len() && request::has_key(headers, #[trigger] names[i]) {
            let i = choose|i: int| 0 <= i < names.len() && request::has_key(headers, #[trigger] names[i]);
            if i < rest.len() {
                assert(request::has_key(headers, rest[i]));
            }
        }
    }
}

proof fn lemma_nothing(rule_id: Seq<char>, score: u32)
    ensures
        !decision::names(seq![], rule_id),
        !decision::gives(seq![], rule_id, score),
{
}

/// The protocol versions that are looked at name a 2 or a 3 behind their slash; nothing is held
/// against any other.
pub proof fn lemma_older_protocol(ctx: RequestCtx)
    requires
        !text::has_text(ctx.http_version@, "/2"@),
        !text::has_text(ctx.http_version@, "/3"@),
    ensures
        anomalies(ctx).len() == 0,
{
}

/// In HTTP/2 and HTTP/3 every header of one connection is forbidden.
pub proof fn lemma_forbidden_flagged(ctx: RequestCtx)
    requires
        text::has_text(ctx.http_version@, "/2"@) || text::has_text(ctx.http_version@, "/3"@),
    ensures
        ({
            let h = ctx.headers@;
            let flagged = request::has_key(h, "connection"@) || request::has_key(h, "keep-alive"@) || request::has_key(
                h,
                "proxy-connection"@,
            ) || request::has_key(h, "transfer-encoding"@) || request::has_key(h, "upgrade"@);
            &&& decision::names(anomalies(ctx), "H2-FORBIDDEN-HDR"@) <==> flagged
            &&& decision::gives(anomalies(ctx), "H2-FORBIDDEN-HDR"@, 70) <==> flagged
        }),
{
    broadcast use decision::group_reasons;

    lemma_ids();
    lemma_nothing("H2-FORBIDDEN-HDR"@, 70);
    let l = forbidden_headers();
    lemma_forbidden_list(l, ctx.headers@, "H2-FORBIDDEN-HDR"@, 70);
    assert(l[0] == "connection"@ && l[1] == "keep-alive"@ && l[2] == "proxy-connection"@);
    assert(l[3] == "transfer-encoding"@ && l[4] == "upgrade"@);
}

/// The other anomalies of HTTP/2 and HTTP/3: a TE header with anything but `trailers`, a missing
/// User-Agent, fewer than four headers, and a path that is neither absolute nor an asterisk.
pub proof fn lemma_shape_flagged(ctx: RequestCtx)
    requires
        text::has_text(ctx.http_version@, "/2"@) || text::has_text(ctx.http_version@, "/3"@),
    ensures
        ({
            let a = anomalies(ctx);
            let te = request::lookup(ctx.headers@, "te"@);
            let bad_te = te is Some && !text::equal_fold(te->0, "trailers"@);
            let no_ua = !request::has_key(ctx.headers@, "user-agent"@);
            let few = ctx.headers@.len() <= 3;
            let path = ctx.path@;
            let bad_path = path.len() > 0 && path[0] != '/' && path != seq!['*'];
            &&& decision::names(a, "H2-TE-INVALID"@) <==> bad_te
            &&& decision::gives(a, "H2-TE-INVALID"@, 60) <==> bad_te
            &&& decision::names(a, "H2-NO-UA"@) <==> no_ua
            &&& decision::gives(a, "H2-NO-UA"@, 25) <==> no_ua
            &&& decision::names(a, "H2-MIN-HDRS"@) <==> few
            &&& decision::gives(a, "H2-MIN-HDRS"@, 30) <==> few
            &&& decision::names(a, "H2-BAD-PATH"@) <==> bad_path
            &&& decision::gives(a, "H2-BAD-PATH"@, 20) <==> bad_path
        }),
{
    broadcast use decision::group_reasons;

    lemma_ids();
    lemma_nothing("H2-TE-INVALID"@, 60);
    let l = forbidden_headers();
    let h = ctx.headers@;
    lemma_forbidden_list(l, h, "H2-TE-INVALID"@, 60);
    lemma_forbidden_list(l, h, "H2-NO-UA"@, 25);
    lemma_forbidden_list(l, h, "H2-MIN-HDRS"@, 30);
    lemma_forbidden_list(l, h, "H2-BAD-PATH"@, 20);
    lemma_nothing("H2-NO-UA"@, 25);
    lemma_nothing("H2-MIN-HDRS"@, 30);
    lemma_nothing("H2-BAD-PATH"@, 20);
    reveal_strlit("/");
    reveal_strlit("*");
    assert("/"@ =~= seq!['/']);
    assert("*"@ =~= seq!['*']);
    if ctx.path@.len() > 0 {
        assert(ctx.path@.take(1) =~= seq![ctx.path@[0]]);
        assert(seq![ctx.path@[0]][0] == ctx.path@[0]);
        assert(seq!['/'][0] == '/');
    }
}

} // verus!
