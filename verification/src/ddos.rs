//! Anomalies that flood scripts and stress testers show and browsers do not.

use crate::decision::{self, push_when, reason, DecisionReason, ReasonView};
use crate::num::{self, dec};
use crate::request::{self, RequestCtx};
use crate::text::{self, byte_len, cat2, cat3, cat4, contains, contains_char, same_fold, same_text, split, trim};
use vstd::prelude::*;

verus! {

pub const W_GET_WITH_BODY: u32 = 25;

pub const W_EMPTY_CONNECTION: u32 = 18;

pub const W_CACHE_BUSTER: u32 = 20;

pub const W_DUP_HEADERS: u32 = 18;

pub const W_OPTIONS_NOORIG: u32 = 22;

pub const W_NULLBYTE: u32 = 100;

pub const W_QUERY_BLOAT: u32 = 25;

/// The query parameters that are used to defeat caches.
pub open spec fn buster_keys() -> Seq<Seq<char>> {
    seq!["_t"@, "_ts"@, "_r"@, "_rand"@, "rand"@, "nocache"@, "cb"@, "cachebust"@, "_="@]
}

/// How many of the keys stand before an equals sign in the query.
pub open spec fn keys_in(keys: Seq<Seq<char>>, query: Seq<char>) -> nat
    decreases keys.len(),
{
    if keys.len() == 0 {
        0
    } else {
        keys_in(keys.drop_last(), query) + if text::has_text(query, keys.last() + "="@) {
            1nat
        } else {
            0
        }
    }
}

fn count_keys(keys: &[&str], query: &str) -> (r: usize)
    ensures
        r == keys_in(text::texts(keys@), query@),
        r <= keys@.len(),
{
    let mut n: usize = 0;
    let ghost all = text::texts(keys@);
    for i in 0..keys.len()
        invariant
            all == text::texts(keys@),
            n == keys_in(all.take(i as int), query@),
            n <= i,
    {
        proof {
            assert(all.take(i + 1).drop_last() =~= all.take(i as int));
            assert(all.take(i + 1).last() == keys@[i as int]@);
        }
        if contains(query, cat2(keys[i], "=").as_str()) {
            n += 1;
        }
    }
    assert(all.take(all.len() as int) =~= all);
    n
}

/// A body where none belongs.
pub open spec fn get_with_body(ctx: RequestCtx) -> Seq<ReasonView> {
    match ctx.content_length {
        Some(n) => decision::when(
            n > 0 && (text::equal_fold(ctx.method@, "GET"@) || text::equal_fold(ctx.method@, "HEAD"@)),
            decision::reason_of(
                "DDOS-GET-BODY"@,
                "ddos"@,
                W_GET_WITH_BODY,
                ctx.method@ + " with content-length="@ + num::dec_text(n as nat),
            ),
        ),
        None => seq![],
    }
}

/// A connection header without a value.
pub open spec fn empty_connection(ctx: RequestCtx) -> Seq<ReasonView> {
    match request::lookup(ctx.headers@, "connection"@) {
        Some(v) => decision::when(
            text::trimmed(v).len() == 0,
            decision::reason_of("DDOS-EMPTY-CONN"@, "ddos"@, W_EMPTY_CONNECTION, "empty Connection header"@),
        ),
        None => seq![],
    }
}

/// A preflight request without what a preflight request is for.
pub open spec fn bare_options(ctx: RequestCtx) -> Seq<ReasonView> {
    decision::when(
        text::equal_fold(ctx.method@, "OPTIONS"@) && !request::has_key(ctx.headers@, "origin"@) && !request::has_key(
            ctx.headers@,
            "access-control-request-method"@,
        ),
        decision::reason_of(
            "DDOS-OPTIONS-NOORIG"@,
            "ddos"@,
            W_OPTIONS_NOORIG,
            "OPTIONS without CORS preflight headers"@,
        ),
    )
}

pub open spec fn nul_in_uri(ctx: RequestCtx) -> Seq<ReasonView> {
    decision::when(
        ctx.uri@.contains('\0'),
        decision::reason_of("DDOS-NUL"@, "ddos"@, W_NULLBYTE, "NUL byte in URI"@),
    )
}

/// More than two kilobytes or more than sixty-five parameters.
pub open spec fn bloated_query(ctx: RequestCtx) -> Seq<ReasonView> {
    let bytes = text::utf8_len(ctx.query@);
    let params = text::pieces(ctx.query@, '&').len();
    decision::when(
        bytes > 2048 || params > 65,
        decision::reason_of(
            "DDOS-QUERY-BLOAT"@,
            "ddos"@,
            W_QUERY_BLOAT,
            "query="@ + num::dec_text(bytes) + "B params="@ + num::dec_text(params),
        ),
    )
}

pub open spec fn cache_busters(ctx: RequestCtx) -> Seq<ReasonView> {
    let n = keys_in(buster_keys(), ctx.query@);
    decision::when(
        n >= 2,
        decision::reason_of(
            "DDOS-CACHEBUST"@,
            "ddos"@,
            W_CACHE_BUSTER,
            num::dec_text(n) + " cache-buster keys in query"@,
        ),
    )
}

/// The marker that the front end sets for headers that may occur once and occurred twice.
pub open spec fn repeated_headers(ctx: RequestCtx) -> Seq<ReasonView> {
    match request::lookup(ctx.headers@, "x-duplicated-headers"@) {
        Some(d) => decision::when(
            d != "0"@,
            decision::reason_of("DDOS-DUP-HDR"@, "ddos"@, W_DUP_HEADERS, d + " duplicated singleton headers"@),
        ),
        None => seq![],
    }
}

/// All anomalies of a request, in their order.
pub open spec fn anomalies(ctx: RequestCtx) -> Seq<ReasonView> {
    get_with_body(ctx) + empty_connection(ctx) + bare_options(ctx) + nul_in_uri(ctx) + bloated_query(ctx)
        + cache_busters(ctx) + repeated_headers(ctx)
}

pub fn score(ctx: &RequestCtx) -> (r: Vec<DecisionReason>)
    ensures
        decision::views(r@) == anomalies(*ctx),
{
    let mut out: Vec<DecisionReason> = Vec::new();
    let method = ctx.method.as_str();
    if let Some(n) = ctx.content_length {
        push_when(
            &mut out,
            n > 0 && (same_fold(method, "GET") || same_fold(method, "HEAD")),
            reason(
                "DDOS-GET-BODY",
                "ddos",
                W_GET_WITH_BODY,
                cat3(method, " with content-length=", dec(n).as_str()),
            ),
        );
    }
    assert(decision::views(out@) =~= get_with_body(*ctx));
    if let Some(c) = ctx.headers.get("connection") {
        push_when(
            &mut out,
            byte_len(trim(c.as_str()).as_str()) == 0,
            reason("DDOS-EMPTY-CONN", "ddos", W_EMPTY_CONNECTION, "empty Connection header".to_string()),
        );
        proof {
            text::lemma_utf8_empty(text::trimmed(c@));
        }
    }
    assert(decision::views(out@) =~= get_with_body(*ctx) + empty_connection(*ctx));
    push_when(
        &mut out,
        same_fold(method, "OPTIONS") && !ctx.headers.contains_key("origin") && !ctx.headers.contains_key(
            "access-control-request-method",
        ),
        reason(
            "DDOS-OPTIONS-NOORIG",
            "ddos",
            W_OPTIONS_NOORIG,
            "OPTIONS without CORS preflight headers".to_string(),
        ),
    );
    push_when(
        &mut out,
        contains_char(ctx.uri.as_str(), '\0'),
        reason("DDOS-NUL", "ddos", W_NULLBYTE, "NUL byte in URI".to_string()),
    );
    let bytes: usize = byte_len(ctx.query.as_str());
    let params: usize = split(ctx.query.as_str(), '&').len();
    push_when(
        &mut out,
        bytes > 2048 || params > 65,
        reason(
            "DDOS-QUERY-BLOAT",
            "ddos",
            W_QUERY_BLOAT,
            cat4("query=", dec(bytes as u64).as_str(), "B params=", dec(params as u64).as_str()),
        ),
    );
    let keys = ["_t", "_ts", "_r", "_rand", "rand", "nocache", "cb", "cachebust", "_="];
    assert(text::texts(keys@) =~= buster_keys());
    let hits: usize = count_keys(&keys, ctx.query.as_str());
    push_when(
        &mut out,
        hits >= 2,
        reason(
            "DDOS-CACHEBUST",
            "ddos",
            W_CACHE_BUSTER,
            cat2(dec(hits as u64).as_str(), " cache-buster keys in query"),
        ),
    );
    if let Some(d) = ctx.headers.get("x-duplicated-headers") {
        push_when(
            &mut out,
            !same_text(d.as_str(), "0"),
            reason("DDOS-DUP-HDR", "ddos", W_DUP_HEADERS, cat2(d.as_str(), " duplicated singleton headers")),
        );
    }
    assert(decision::views(out@) =~= anomalies(*ctx));
    out
}

// ---------------------------------------------------------------------------
// Laws
// ---------------------------------------------------------------------------

proof fn lemma_ids()
    ensures
        "DDOS-GET-BODY"@ != "DDOS-EMPTY-CONN"@,
        "DDOS-GET-BODY"@ != "DDOS-OPTIONS-NOORIG"@,
        "DDOS-GET-BODY"@ != "DDOS-NUL"@,
        "DDOS-GET-BODY"@ != "DDOS-QUERY-BLOAT"@,
        "DDOS-GET-BODY"@ != "DDOS-CACHEBUST"@,
        "DDOS-GET-BODY"@ != "DDOS-DUP-HDR"@,
        "DDOS-EMPTY-CONN"@ != "DDOS-OPTIONS-NOORIG"@,
        "DDOS-EMPTY-CONN"@ != "DDOS-NUL"@,
        "DDOS-EMPTY-CONN"@ != "DDOS-QUERY-BLOAT"@,
        "DDOS-EMPTY-CONN"@ != "DDOS-CACHEBUST"@,
        "DDOS-EMPTY-CONN"@ != "DDOS-DUP-HDR"@,
        "DDOS-OPTIONS-NOORIG"@ != "DDOS-NUL"@,
        "DDOS-OPTIONS-NOORIG"@ != "DDOS-QUERY-BLOAT"@,
        "DDOS-OPTIONS-NOORIG"@ != "DDOS-CACHEBUST"@,
        "DDOS-OPTIONS-NOORIG"@ != "DDOS-DUP-HDR"@,
        "DDOS-NUL"@ != "DDOS-QUERY-BLOAT"@,
        "DDOS-NUL"@ != "DDOS-CACHEBUST"@,
        "DDOS-NUL"@ != "DDOS-DUP-HDR"@,
        "DDOS-QUERY-BLOAT"@ != "DDOS-CACHEBUST"@,
        "DDOS-QUERY-BLOAT"@ != "DDOS-DUP-HDR"@,
        "DDOS-CACHEBUST"@ != "DDOS-DUP-HDR"@,
{
    reveal_strlit("DDOS-GET-BODY");
    reveal_strlit("DDOS-EMPTY-CONN");
    reveal_strlit("DDOS-OPTIONS-NOORIG");
    reveal_strlit("DDOS-NUL");
    reveal_strlit("DDOS-QUERY-BLOAT");
    reveal_strlit("DDOS-CACHEBUST");
    reveal_strlit("DDOS-DUP-HDR");
    assert("DDOS-GET-BODY"@.len() == 13);
    assert("DDOS-EMPTY-CONN"@.len() == 15);
    assert("DDOS-OPTIONS-NOORIG"@.len() == 19);
    assert("DDOS-NUL"@.len() == 8);
    assert("DDOS-QUERY-BLOAT"@.len() == 16);
    assert("DDOS-CACHEBUST"@.len() == 14);
    assert("DDOS-DUP-HDR"@.len() == 12);
}

proof fn lemma_nothing(rule_id: Seq<char>, score: u32)
    ensures
        !decision::names(seq![], rule_id),
        !decision::gives(seq![], rule_id, score),
{
}

/// A body is held against GET and HEAD alone, and an announced length of zero is none.
pub proof fn lemma_get_body_flagged(ctx: RequestCtx)
    ensures
        ({
            let flagged = ctx.content_length is Some && ctx.content_length->0 > 0 && (text::equal_fold(ctx.method@, "GET"@)
                || text::equal_fold(ctx.method@, "HEAD"@));
            &&& decision::names(anomalies(ctx), "DDOS-GET-BODY"@) <==> flagged
            &&& decision::gives(anomalies(ctx), "DDOS-GET-BODY"@, 25) <==> flagged
        }),
{
    broadcast use decision::group_reasons;

    lemma_ids();
    lemma_nothing("DDOS-GET-BODY"@, 25);
}

/// A connection header is held against a request exactly when it is there and blank.
pub proof fn lemma_empty_connection_flagged(ctx: RequestCtx)
    ensures
        ({
            let flagged = request::has_key(ctx.headers@, "connection"@) && text::trimmed(
                request::lookup(ctx.headers@, "connection"@)->0,
            ).len() == 0;
            &&& decision::names(anomalies(ctx), "DDOS-EMPTY-CONN"@) <==> flagged
            &&& decision::gives(anomalies(ctx), "DDOS-EMPTY-CONN"@, 18) <==> flagged
        }),
{
    broadcast use decision::group_reasons;

    lemma_ids();
    lemma_nothing("DDOS-EMPTY-CONN"@, 18);
}

/// OPTIONS is held against a request exactly when neither header of a preflight is there.
pub proof fn lemma_options_flagged(ctx: RequestCtx)
    ensures
        ({
            let flagged = text::equal_fold(ctx.method@, "OPTIONS"@) && !request::has_key(ctx.headers@, "origin"@)
                && !request::has_key(ctx.headers@, "access-control-request-method"@);
            &&& decision::names(anomalies(ctx), "DDOS-OPTIONS-NOORIG"@) <==> flagged
            &&& decision::gives(anomalies(ctx), "DDOS-OPTIONS-NOORIG"@, 22) <==> flagged
        }),
{
    broadcast use decision::group_reasons;

    lemma_ids();
    lemma_nothing("DDOS-OPTIONS-NOORIG"@, 22);
}

/// A NUL in the address is held against every request that has one.
pub proof fn lemma_nul_flagged(ctx: RequestCtx)
    ensures
        ({
            let flagged = ctx.uri@.contains('\0');
            &&& decision::names(anomalies(ctx), "DDOS-NUL"@) <==> flagged
            &&& decision::gives(anomalies(ctx), "DDOS-NUL"@, 100) <==> flagged
        }),
{
    broadcast use decision::group_reasons;

    lemma_ids();
    lemma_nothing("DDOS-NUL"@, 100);
}

/// A query is bloated from 2049 bytes or 66 parts on.
pub proof fn lemma_bloat_flagged(ctx: RequestCtx)
    ensures
        ({
            let flagged = text::utf8_len(ctx.query@) > 2048 || text::pieces(ctx.query@, '&').len() > 65;
            &&& decision::names(anomalies(ctx), "DDOS-QUERY-BLOAT"@) <==> flagged
            &&& decision::gives(anomalies(ctx), "DDOS-QUERY-BLOAT"@, 25) <==> flagged
        }),
{
    broadcast use decision::group_reasons;

    lemma_ids();
    lemma_nothing("DDOS-QUERY-BLOAT"@, 25);
}

/// Repeated headers are held against a request exactly when the front end reports some.
pub proof fn lemma_repeated_flagged(ctx: RequestCtx)
    ensures
        ({
            let flagged = request::has_key(ctx.headers@, "x-duplicated-headers"@) && request::lookup(
                ctx.headers@,
                "x-duplicated-headers"@,
            ) != Some("0"@);
            &&& decision::names(anomalies(ctx), "DDOS-DUP-HDR"@) <==> flagged
            &&& decision::gives(anomalies(ctx), "DDOS-DUP-HDR"@, 18) <==> flagged
        }),
{
    broadcast use decision::group_reasons;

    lemma_ids();
    lemma_nothing("DDOS-DUP-HDR"@, 18);
}

/// Whether a query sets one of the parameters that defeat caches.
pub open spec fn sets_key(query: Seq<char>, key: Seq<char>) -> bool {
    text::has_text(query, key + "="@)
}

proof fn lemma_two_keys(keys: Seq<Seq<char>>, query: Seq<char>)
    ensures
        keys_in(keys, query) >= 1 <==> exists|i: int| 0 <= i < keys.len() && sets_key(query, #[trigger] keys[i]),
        keys_in(keys, query) >= 2 <==> exists|i: int, j: int|
            0 <= i < j < keys.len() && sets_key(query, #[trigger] keys[i]) && sets_key(query, #[trigger] keys[j]),
    decreases keys.len(),
{
    if keys.len() > 0 {
        let rest = keys.drop_last();
        let n = keys.len() - 1;
        lemma_two_keys(rest, query);
        assert(keys.last() == keys[n]);
        assert forall|i: int| 0 <= i < rest.len() implies #[trigger] rest[i] == keys[i] by {}
        if keys_in(rest, query) >= 1 {
            let i = choose|i: int| 0 <= i < rest.len() && sets_key(query, #[trigger] rest[i]);
            assert(sets_key(query, keys[i]));
            if sets_key(query, keys[n]) {
                assert(0 <= i < n < keys.len() && sets_key(query, keys[i]) && sets_key(query, keys[n]));
            }
        }
        if keys_in(rest, query) >= 2 {
            let (i, j) = choose|i: int, j: int|
                0 <= i < j < rest.len() && sets_key(query, #[trigger] rest[i]) && sets_key(query, #[trigger] rest[j]);
            assert(sets_key(query, keys[i]) && sets_key(query, keys[j]));
        }
        if exists|i: int| 0 <= i < keys.len() && sets_key(query, #[trigger] keys[i]) {
            let i = choose|i: int| 0 <= i < keys.len() && sets_key(query, #[trigger] keys[i]);
            if i < n {
                assert(sets_key(query, rest[i]));
            }
        }
        if exists|i: int, j: int|
            0 <= i < j < keys.len() && sets_key(query, #[trigger] keys[i]) && sets_key(query, #[trigger] keys[j]) {
            let (i, j) = choose|i: int, j: int|
                0 <= i < j < keys.len() && sets_key(query, #[trigger] keys[i]) && sets_key(query, #[trigger] keys[j]);
            assert(sets_key(query, rest[i]));
            if j < n {
                assert(sets_key(query, rest[j]));
            }
        }
    }
}

/// The parameters that defeat caches are held against a request exactly when it sets two of them.
pub proof fn lemma_cache_busters_flagged(ctx: RequestCtx)
    ensures
        ({
            let keys = seq!["_t"@, "_ts"@, "_r"@, "_rand"@, "rand"@, "nocache"@, "cb"@, "cachebust"@, "_="@];
            let flagged = exists|i: int, j: int|
                0 <= i < j < 9 && sets_key(ctx.query@, #[trigger] keys[i]) && sets_key(ctx.query@, #[trigger] keys[j]);
            &&& decision::names(anomalies(ctx), "DDOS-CACHEBUST"@) <==> flagged
            &&& decision::gives(anomalies(ctx), "DDOS-CACHEBUST"@, 20) <==> flagged
        }),
{
    broadcast use decision::group_reasons;

    lemma_ids();
    lemma_nothing("DDOS-CACHEBUST"@, 20);
    let keys = seq!["_t"@, "_ts"@, "_r"@, "_rand"@, "rand"@, "nocache"@, "cb"@, "cachebust"@, "_="@];
    assert(keys =~= buster_keys());
    lemma_two_keys(keys, ctx.query@);
}

/// An ordinary request gives no reason: no body where none belongs, no blank connection header, no
/// bare OPTIONS, no NUL, a short query without cache busters, and no repeated headers.
pub proof fn lemma_ordinary_request(ctx: RequestCtx)
    requires
        ctx.content_length is None,
        !request::has_key(ctx.headers@, "connection"@),
        !text::equal_fold(ctx.method@, "OPTIONS"@),
        !ctx.uri@.contains('\0'),
        text::utf8_len(ctx.query@) <= 2048,
        text::pieces(ctx.query@, '&').len() <= 65,
        keys_in(buster_keys(), ctx.query@) < 2,
        !request::has_key(ctx.headers@, "x-duplicated-headers"@),
    ensures
        anomalies(ctx).len() == 0,
{
}

} // verus!
