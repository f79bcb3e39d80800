//! Behaviour per address over a sliding window of a minute: how many paths are asked for, which
//! methods are used and how often the User-Agent changes; and how regular the latest requests
//! came.

use crate::clock::now_ms;
use crate::decision::{self, push_when, reason, DecisionReason, ReasonView};
use crate::hash::{self, fnv64};
use crate::net::IpAddr;
use crate::num::{self, dec, dec_pair};
use crate::signature;
use crate::subnet;
use crate::table::{self, Key, Table};
use crate::text::{self, cat4, cat6, same_text, to_upper};
use crate::window::{self, Recent};
use std::collections::VecDeque;
use vstd::prelude::*;

verus! {

pub const WINDOW_SECS: u64 = 60;

/// How far back the first of the sixty seconds lies that end with the running one.
pub const WINDOW_SPAN: u64 = 59;

/// How often idle addresses are dropped.
pub const SWEEP_SECS: u64 = 30;

pub const PATHS_CAP: usize = 32;

pub const INTERVAL_CAP: usize = 16;

pub const UA_CAP: usize = 8;

pub const W_LOW_DIVERSITY: u32 = 30;

pub const W_REGULAR_INTERVAL: u32 = 35;

pub const W_METHOD_FLOOD: u32 = 25;

pub const W_UA_CHURN: u32 = 30;

/// What is kept of the requests of one address.
pub struct State {
    first_seen: u64,
    last_ms: u64,
    request_count: u32,
    recent: Recent,
    probes: Recent,
    paths: Vec<(u64, u64)>,
    intervals: VecDeque<u32>,
    uas: Vec<(u64, u64)>,
}

#[verifier::ext_equal]
pub struct StateView {
    /// The second of the first request since the address was last idle.
    pub first_seen: u64,
    /// The millisecond of the latest request.
    pub last_ms: u64,
    /// The requests since the address was last idle.
    pub request_count: u32,
    /// The seconds of the requests in the window.
    pub recent: Seq<u64>,
    /// The seconds of the OPTIONS and HEAD requests in the window.
    pub probes: Seq<u64>,
    /// The hashes of the distinct paths in the window, each with the second of its latest use.
    pub paths: Seq<(u64, u64)>,
    /// The latest times between requests, in milliseconds, the newest at the end.
    pub intervals: Seq<u32>,
    /// The hashes of the distinct User-Agents in the window, each with the second of its latest
    /// use.
    pub uas: Seq<(u64, u64)>,
}

impl View for State {
    type V = StateView;

    closed spec fn view(&self) -> StateView {
        StateView {
            first_seen: self.first_seen,
            last_ms: self.last_ms,
            request_count: self.request_count,
            recent: self.recent@,
            probes: self.probes@,
            paths: self.paths@,
            intervals: self.intervals@,
            uas: self.uas@,
        }
    }
}

/// The state of an address that was not seen yet.
pub open spec fn unseen() -> StateView {
    StateView {
        first_seen: 0,
        last_ms: 0,
        request_count: 0,
        recent: seq![],
        probes: seq![],
        paths: seq![],
        intervals: seq![],
        uas: seq![],
    }
}

/// Whether no hash stands in a list twice.
pub open spec fn distinct(list: Seq<(u64, u64)>) -> bool {
    forall|i: int, j: int| 0 <= i < j < list.len() ==> (#[trigger] list[i]).0 != (#[trigger] list[j]).0
}

/// Whether the lists of a state are within their bounds and without repetitions.
pub open spec fn bounded(s: StateView) -> bool {
    &&& s.paths.len() <= PATHS_CAP
    &&& distinct(s.paths)
    &&& s.intervals.len() <= INTERVAL_CAP
    &&& s.uas.len() <= UA_CAP
    &&& distinct(s.uas)
}

/// What a list holds beside the hash `x` and has been used in the window.
pub open spec fn live(list: Seq<(u64, u64)>, x: Option<u64>, now_s: u64) -> Seq<(u64, u64)>
    decreases list.len(),
{
    if list.len() == 0 {
        seq![]
    } else if x != Some(list.last().0) && window::not_past(list.last().1, now_s, WINDOW_SPAN) {
        live(list.drop_last(), x, now_s).push(list.last())
    } else {
        live(list.drop_last(), x, now_s)
    }
}

/// A list with the use of `x` at `now_s` noted in it: `x` goes to the end, what was not used in
/// the window leaves, and so does the one from a full list that was not used for longest.
pub open spec fn noted(list: Seq<(u64, u64)>, x: u64, now_s: u64, cap: usize) -> Seq<(u64, u64)> {
    let others = live(list, Some(x), now_s);
    if others.len() >= cap {
        others.drop_first().push((x, now_s))
    } else {
        others.push((x, now_s))
    }
}

/// The intervals with `d` at the end; the oldest one leaves a full list.
pub open spec fn with_interval(list: Seq<u32>, d: u32) -> Seq<u32> {
    if list.len() == INTERVAL_CAP {
        list.drop_first().push(d)
    } else {
        list.push(d)
    }
}

/// The place of a method in the counters.
pub open spec fn method_place(method: Seq<char>) -> int {
    let m = text::upper_text(method);
    if m == "GET"@ {
        0
    } else if m == "POST"@ {
        1
    } else if m == "PUT"@ {
        2
    } else if m == "DELETE"@ {
        3
    } else if m == "PATCH"@ {
        4
    } else if m == "OPTIONS"@ {
        5
    } else if m == "HEAD"@ {
        6
    } else {
        7
    }
}

/// The state to which a request at `now_ms` is added: an address that was idle for the whole
/// window starts anew.
pub open spec fn current_state(s: StateView, now_ms: u64) -> StateView {
    if subnet::since(now_ms / 1000, s.last_ms / 1000) > WINDOW_SECS {
        unseen()
    } else {
        s
    }
}

/// The milliseconds between two requests, or zero where the clock went back.
pub open spec fn gap(last_ms: u64, now_ms: u64) -> u32 {
    if now_ms > last_ms {
        (now_ms - last_ms) as u32
    } else {
        0
    }
}

/// Whether a method is OPTIONS or HEAD.
pub open spec fn is_probe(method: Seq<char>) -> bool {
    method_place(method) == 5 || method_place(method) == 6
}

/// The state after a request.
pub open spec fn next_state(s: StateView, now_ms: u64, path: Seq<char>, method: Seq<char>, ua: Seq<char>) -> StateView {
    let now_s = now_ms / 1000;
    let b = current_state(s, now_ms);
    let probes = window::still(b.probes, now_s, WINDOW_SPAN);
    StateView {
        first_seen: if b.request_count == 0 {
            now_s
        } else {
            b.first_seen
        },
        last_ms: now_ms,
        request_count: signature::more(b.request_count),
        recent: window::still(b.recent, now_s, WINDOW_SPAN).push(now_s),
        probes: if is_probe(method) {
            probes.push(now_s)
        } else {
            probes
        },
        paths: noted(b.paths, hash::fnv_of(path), now_s, PATHS_CAP),
        intervals: if b.request_count != 0 {
            with_interval(b.intervals, gap(b.last_ms, now_ms))
        } else {
            b.intervals
        },
        uas: if ua.len() > 0 {
            noted(b.uas, hash::fnv_of(ua), now_s, UA_CAP)
        } else {
            live(b.uas, None, now_s)
        },
    }
}

/// The lists of a state stay within their bounds.
pub proof fn lemma_next_bounded(s: StateView, now_ms: u64, path: Seq<char>, method: Seq<char>, ua: Seq<char>)
    requires
        bounded(s),
    ensures
        bounded(next_state(s, now_ms, path, method, ua)),
{
    let b = current_state(s, now_ms);
    lemma_noted(b.paths, hash::fnv_of(path), now_ms / 1000, PATHS_CAP);
    lemma_noted(b.uas, hash::fnv_of(ua), now_ms / 1000, UA_CAP);
    lemma_live(b.uas, None, now_ms / 1000);
}

/// The time between two requests is kept as it is: one that the counter could not hold comes after
/// an idle window.
pub proof fn lemma_gap(s: StateView, now_ms: u64)
    requires
        s.last_ms <= now_ms,
        current_state(s, now_ms) == s,
        s.request_count > 0,
    ensures
        gap(s.last_ms, now_ms) == now_ms - s.last_ms,
{
}

proof fn lemma_live(list: Seq<(u64, u64)>, x: Option<u64>, now_s: u64)
    requires
        distinct(list),
    ensures
        distinct(live(list, x, now_s)),
        live(list, x, now_s).len() <= list.len(),
        forall|i: int| 0 <= i < live(list, x, now_s).len() ==> x != Some((#[trigger] live(list, x, now_s)[i]).0),
        forall|i: int| 0 <= i < live(list, x, now_s).len() ==> list.contains(#[trigger] live(list, x, now_s)[i]),
    decreases list.len(),
{
    if list.len() > 0 {
        let rest = list.drop_last();
        lemma_live(rest, x, now_s);
        let l = live(rest, x, now_s);
        assert forall|i: int| 0 <= i < l.len() implies list.contains(#[trigger] l[i]) && l[i].0 != list.last().0 by {
            assert(rest.contains(l[i]));
            let j = choose|j: int| 0 <= j < rest.len() && rest[j] == l[i];
            assert(list[j] == l[i]);
            assert(list[list.len() - 1] == list.last());
        }
        assert(list.contains(list[list.len() - 1]));
    }
}

proof fn lemma_noted(list: Seq<(u64, u64)>, x: u64, now_s: u64, cap: usize)
    requires
        distinct(list),
        list.len() <= cap,
        cap > 0,
    ensures
        distinct(noted(list, x, now_s, cap)),
        noted(list, x, now_s, cap).len() <= cap,
{
    lemma_live(list, Some(x), now_s);
}

/// The sum of a list.
pub open spec fn sum(list: Seq<u32>) -> nat
    decreases list.len(),
{
    if list.len() == 0 {
        0
    } else {
        sum(list.drop_last()) + list.last() as nat
    }
}

/// The sum of the squares of a list.
pub open spec fn square_sum(list: Seq<u32>) -> nat
    decreases list.len(),
{
    if list.len() == 0 {
        0
    } else {
        square_sum(list.drop_last()) + list.last() as nat * list.last() as nat
    }
}

/// Whether the intervals are regular: a mean above five milliseconds, and a standard deviation
/// below 15 % of the mean. With the number `n`, the sum `s` and the sum `q` of the squares, the
/// square of their quotient is `(n * q - s * s) / (s * s)`.
pub open spec fn regular(list: Seq<u32>) -> bool {
    let s = sum(list);
    &&& s > 5 * list.len()
    &&& 400 * (list.len() * square_sum(list)) < 409 * (s * s)
}

proof fn lemma_even_sums(list: Seq<u32>, d: u32)
    requires
        forall|i: int| 0 <= i < list.len() ==> #[trigger] list[i] == d,
    ensures
        sum(list) == list.len() * d,
        square_sum(list) == list.len() * (d * d),
    decreases list.len(),
{
    if list.len() > 0 {
        let rest = list.drop_last();
        lemma_even_sums(rest, d);
        let n = rest.len();
        let q = d * d;
        assert(n * d + d == (n + 1) * d) by (nonlinear_arith);
        assert(n * q + q == (n + 1) * q) by (nonlinear_arith);
    }
}

/// Requests that come exactly evenly, more than five milliseconds apart, are regular.
pub proof fn lemma_even_is_regular(list: Seq<u32>, d: u32)
    requires
        list.len() > 0,
        d > 5,
        forall|i: int| 0 <= i < list.len() ==> #[trigger] list[i] == d,
    ensures
        regular(list),
{
    lemma_even_sums(list, d);
    let n = list.len();
    let s = n * d;
    assert(s > 5 * n) by (nonlinear_arith)
        requires
            s == n * d,
            d > 5,
            n > 0,
    ;
    assert(n * (n * (d * d)) == s * s) by (nonlinear_arith)
        requires
            s == n * d,
    ;
    assert(s * s > 0) by (nonlinear_arith)
        requires
            s > 0,
    ;
}

/// Whether the quotient of standard deviation and mean is at most `k` hundredths and a half: an
/// exact half counts for an even `k` only.
pub open spec fn at_most_hundredths(k: nat, nq: nat, ss: nat) -> bool {
    let bound = ((2 * k + 1) * (2 * k + 1) + 40000) * ss;
    40000 * nq < bound || (40000 * nq == bound && k % 2 == 0)
}

/// The quotient of standard deviation and mean in hundredths, for a quotient below 15 %.
pub open spec fn hundredths_from(k: nat, nq: nat, ss: nat) -> nat
    decreases 15 - k,
{
    if k >= 15 || at_most_hundredths(k, nq, ss) {
        k
    } else {
        hundredths_from(k + 1, nq, ss)
    }
}

/// A quotient of natural numbers, rounded; an exact half to the even side.
pub open spec fn rounded(a: nat, b: nat) -> nat {
    let q = a / b;
    let r = a % b;
    if 2 * r > b || (2 * r == b && q % 2 == 1) {
        q + 1
    } else {
        q
    }
}

/// One path asked for over and over. Browsers do that as well, so that more is allowed to them.
pub open spec fn low_diversity(s: StateView, browserish: bool) -> Seq<ReasonView> {
    decision::when(
        if browserish {
            s.recent.len() >= 180 && s.paths.len() < 2
        } else {
            s.recent.len() >= 30 && s.paths.len() < 3
        },
        decision::reason_of(
            "BHV-LOWDIV"@,
            "behavior"@,
            W_LOW_DIVERSITY,
            num::dec_text(window::capped(s.recent.len()) as nat) + " requests on "@ + num::dec_text(s.paths.len())
                + " unique paths in window"@,
        ),
    )
}

/// Requests that come like clockwork, which is no sign against a browser.
pub open spec fn clockwork(s: StateView, browserish: bool) -> Seq<ReasonView> {
    decision::when(
        !browserish && s.intervals.len() >= 8 && regular(s.intervals) && s.request_count >= 15,
        decision::reason_of(
            "BHV-REGULAR"@,
            "behavior"@,
            W_REGULAR_INTERVAL,
            "interval cv=0."@ + num::dec_two(
                hundredths_from(
                    0,
                    s.intervals.len() * square_sum(s.intervals),
                    sum(s.intervals) * sum(s.intervals),
                ),
            ) + " mean="@ + num::dec_text(rounded(sum(s.intervals), s.intervals.len())) + "ms n="@ + num::dec_text(
                s.intervals.len(),
            ),
        ),
    )
}

/// At least nine of ten requests in the window are OPTIONS or HEAD.
pub open spec fn method_bias(s: StateView) -> Seq<ReasonView> {
    let count = window::capped(s.recent.len());
    let opt = window::capped(s.probes.len());
    decision::when(
        count >= 25 && 10 * opt >= 9 * count,
        decision::reason_of(
            "BHV-METHOD-BIAS"@,
            "behavior"@,
            W_METHOD_FLOOD,
            num::dec_text((opt * 100 / count as int) as nat) + "% OPTIONS+HEAD of "@ + num::dec_text(count as nat)
                + " requests"@,
        ),
    )
}

/// Many User-Agents from one address in the window.
pub open spec fn ua_churn(s: StateView) -> Seq<ReasonView> {
    decision::when(
        s.uas.len() >= 5 && s.recent.len() >= 20,
        decision::reason_of(
            "BHV-UA-CHURN"@,
            "behavior"@,
            W_UA_CHURN,
            num::dec_text(s.uas.len()) + " distinct User-Agents from same IP over "@ + num::dec_text(
                window::capped(s.recent.len()) as nat,
            ) + " requests"@,
        ),
    )
}

/// The reasons that a state gives.
pub open spec fn anomalies(s: StateView, browserish: bool) -> Seq<ReasonView> {
    low_diversity(s, browserish) + clockwork(s, browserish) + method_bias(s) + ua_churn(s)
}

/// A browser that asks for one path on a timer fewer than 180 times in a minute, with ordinary
/// methods and few User-Agents, gives no reason at all.
pub proof fn lemma_polling_browser(s: StateView)
    requires
        s.recent.len() < 180,
        s.uas.len() < 5,
        10 * s.probes.len() < 9 * s.recent.len(),
    ensures
        anomalies(s, true) == Seq::<ReasonView>::empty(),
{
    assert(anomalies(s, true) =~= Seq::<ReasonView>::empty());
}

/// The requests that are counted lie in the sixty seconds that end with the latest one, so that a
/// slow client never adds up to a flood, however long it goes on.
pub proof fn lemma_counted_in_window(
    s: StateView,
    now_ms: u64,
    path: Seq<char>,
    method: Seq<char>,
    ua: Seq<char>,
)
    ensures
        ({
            let n = next_state(s, now_ms, path, method, ua);
            forall|i: int|
                0 <= i < n.recent.len() ==> window::not_past(#[trigger] n.recent[i], now_ms / 1000, WINDOW_SPAN)
        }),
{
    window::lemma_still(current_state(s, now_ms).recent, now_ms / 1000, WINDOW_SPAN);
}

pub struct BehaviorTracker {
    by_ip: Table<State>,
    last_gc: u64,
}

#[verifier::ext_equal]
pub struct BehaviorView {
    pub by_ip: Map<Key, StateView>,
    pub last_gc: u64,
}

impl View for BehaviorTracker {
    type V = BehaviorView;

    closed spec fn view(&self) -> BehaviorView {
        BehaviorView { by_ip: self.by_ip@, last_gc: self.last_gc }
    }
}

/// The state after the sweep that is due at `now_s`, if one is.
pub open spec fn swept(t: BehaviorView, now_s: u64) -> BehaviorView {
    if subnet::since(now_s, t.last_gc) > SWEEP_SECS {
        BehaviorView {
            by_ip: table::kept(t.by_ip, |s: StateView| subnet::since(now_s, s.last_ms / 1000) <= WINDOW_SECS * 2),
            last_gc: now_s,
        }
    } else {
        t
    }
}

/// The state of an address.
pub open spec fn state_at(m: Map<Key, StateView>, k: Key) -> StateView {
    if m.contains_key(k) {
        m[k]
    } else {
        unseen()
    }
}

/// The tracker after a request of an address at `now_ms`.
pub open spec fn observed(
    t: BehaviorView,
    now_ms: u64,
    ip: IpAddr,
    path: Seq<char>,
    method: Seq<char>,
    ua: Seq<char>,
) -> BehaviorView {
    let u = swept(t, now_ms / 1000);
    BehaviorView {
        by_ip: u.by_ip.insert(
            ip.spec_key(),
            next_state(state_at(u.by_ip, ip.spec_key()), now_ms, path, method, ua),
        ),
        ..u
    }
}

/// The reasons that a request of an address at `now_ms` gives.
pub open spec fn reasons_for(
    t: BehaviorView,
    now_ms: u64,
    ip: IpAddr,
    path: Seq<char>,
    method: Seq<char>,
    ua: Seq<char>,
    browserish: bool,
) -> Seq<ReasonView> {
    anomalies(observed(t, now_ms, ip, path, method, ua).by_ip[ip.spec_key()], browserish)
}

/// What one address does leaves the state of every other address as the sweep leaves it.
pub proof fn lemma_addresses_apart(
    t: BehaviorView,
    now_ms: u64,
    ip: IpAddr,
    path: Seq<char>,
    method: Seq<char>,
    ua: Seq<char>,
    other: IpAddr,
)
    requires
        other != ip,
    ensures
        state_at(observed(t, now_ms, ip, path, method, ua).by_ip, other.spec_key()) == state_at(
            swept(t, now_ms / 1000).by_ip,
            other.spec_key(),
        ),
{
    crate::net::lemma_key_injective(ip, other);
}

pub fn method_index(m: &str) -> (r: usize)
    ensures
        r == method_place(m@),
        r < 8,
{
    let upper = to_upper(m);
    let m = upper.as_str();
    if same_text(m, "GET") {
        0
    } else if same_text(m, "POST") {
        1
    } else if same_text(m, "PUT") {
        2
    } else if same_text(m, "DELETE") {
        3
    } else if same_text(m, "PATCH") {
        4
    } else if same_text(m, "OPTIONS") {
        5
    } else if same_text(m, "HEAD") {
        6
    } else {
        7
    }
}

/// Keeps what was used in the window, without the hash `x`.
fn keep_live(list: &Vec<(u64, u64)>, x: Option<u64>, now_s: u64) -> (r: Vec<(u64, u64)>)
    ensures
        r@ == live(list@, x, now_s),
{
    let mut out: Vec<(u64, u64)> = Vec::new();
    let n: usize = list.len();
    for i in 0..n
        invariant
            n == list@.len(),
            out@ == live(list@.take(i as int), x, now_s),
    {
        let (h, at): (u64, u64) = list[i];
        assert(list@.take(i + 1).drop_last() =~= list@.take(i as int));
        let wanted = match x {
            Some(y) => y == h,
            None => false,
        };
        if !wanted && (now_s <= at || now_s - at <= WINDOW_SPAN) {
            out.push((h, at));
        }
    }
    assert(list@.take(n as int) =~= list@);
    out
}

fn note(list: &mut Vec<(u64, u64)>, x: u64, now_s: u64, cap: usize)
    requires
        0 < cap,
    ensures
        final(list)@ == noted(old(list)@, x, now_s, cap),
{
    let mut others = keep_live(list, Some(x), now_s);
    let ghost all = others@;
    if others.len() >= cap {
        let _ = others.remove(0);
        assert(others@ =~= all.drop_first());
    }
    others.push((x, now_s));
    *list = others;
}

proof fn lemma_sums(list: Seq<u32>)
    ensures
        sum(list) <= list.len() * 0xffff_ffff,
        square_sum(list) <= list.len() * 0xffff_fffe_0000_0001,
    decreases list.len(),
{
    if list.len() > 0 {
        lemma_sums(list.drop_last());
        let x = list.last() as nat;
        assert(x * x <= 0xffff_fffe_0000_0001) by (nonlinear_arith)
            requires
                x <= 0xffff_ffff,
        ;
    }
}

/// The sum of the intervals and the sum of their squares.
fn sums(list: &VecDeque<u32>) -> (r: (u128, u128))
    requires
        list@.len() <= INTERVAL_CAP,
    ensures
        r.0 == sum(list@),
        r.1 == square_sum(list@),
{
    let n: usize = list.len();
    let mut s: u128 = 0;
    let mut q: u128 = 0;
    for i in 0..n
        invariant
            n == list@.len(),
            n <= INTERVAL_CAP,
            s == sum(list@.take(i as int)),
            q == square_sum(list@.take(i as int)),
    {
        let x: u128 = list[i] as u128;
        proof {
            let part = list@.take(i + 1);
            assert(part.drop_last() =~= list@.take(i as int));
            assert(part.last() == list@[i as int]);
            lemma_sums(list@.take(i as int));
            assert(x * x <= 0xffff_fffe_0000_0001) by (nonlinear_arith)
                requires
                    x <= 0xffff_ffff,
            ;
        }
        s = s + x;
        q = q + x * x;
    }
    assert(list@.take(n as int) =~= list@);
    (s, q)
}

fn hundredths(nq: u128, ss: u128) -> (r: u64)
    requires
        nq <= 0x1_0000_0000_0000_0000_00,
        ss <= 0x1_0000_0000_0000_0000_00,
    ensures
        r == hundredths_from(0, nq as nat, ss as nat),
        r <= 15,
{
    let mut k: u64 = 0;
    while k < 15
        invariant
            k <= 15,
            nq <= 0x1_0000_0000_0000_0000_00,
            ss <= 0x1_0000_0000_0000_0000_00,
            hundredths_from(k as nat, nq as nat, ss as nat) == hundredths_from(0, nq as nat, ss as nat),
        decreases 15 - k,
    {
        let odd: u128 = 2 * (k as u128) + 1;
        assert(odd * odd <= 961) by (nonlinear_arith)
            requires
                odd <= 31,
        ;
        let factor: u128 = odd * odd + 40000;
        assert(factor * ss <= 40961 * 0x1_0000_0000_0000_0000_00) by (nonlinear_arith)
            requires
                factor <= 40961,
                ss <= 0x1_0000_0000_0000_0000_00,
        ;
        let bound: u128 = factor * ss;
        let x: u128 = 40000 * nq;
        if x < bound || (x == bound && k % 2 == 0) {
            return k;
        }
        k += 1;
    }
    k
}

fn round_quotient(a: u128, b: u128) -> (r: u128)
    requires
        0 < b <= 64,
        a <= 0x1_0000_0000_0000,
    ensures
        r == rounded(a as nat, b as nat),
        r <= 0x1_0000_0000_0000 + 1,
{
    let q: u128 = a / b;
    let rest: u128 = a % b;
    assert(q <= a) by (nonlinear_arith)
        requires
            q == a / b,
            b > 0,
    ;
    if 2 * rest > b || (2 * rest == b && q % 2 == 1) {
        q + 1
    } else {
        q
    }
}

impl State {
    fn new() -> (r: State)
        ensures
            r@ == unseen(),
    {
        let r = State {
            first_seen: 0,
            last_ms: 0,
            request_count: 0,
            recent: Recent::new(),
            probes: Recent::new(),
            paths: Vec::new(),
            intervals: VecDeque::new(),
            uas: Vec::new(),
        };
        assert(r@ =~= unseen());
        r
    }

    /// Adds a request to the state.
    pub fn advance(&mut self, now_ms: u64, path: &str, method: &str, ua: &str)
        requires
            bounded(old(self)@),
        ensures
            final(self)@ == next_state(old(self)@, now_ms, path@, method@, ua@),
            bounded(final(self)@),
    {
        proof {
            lemma_next_bounded(self@, now_ms, path@, method@, ua@);
            reveal_strlit("");
            assert(ua@.len() == 0 ==> ua@ =~= ""@);
        }
        let ghost before = current_state(self@, now_ms);
        let now_s: u64 = now_ms / 1000;
        if now_s.saturating_sub(self.last_ms / 1000) > WINDOW_SECS {
            *self = State::new();
        }
        assert(self@ == before);
        if self.request_count == 0 {
            self.first_seen = now_s;
        } else {
            let delta: u32 = if now_ms > self.last_ms {
                (now_ms - self.last_ms) as u32
            } else {
                0
            };
            if self.intervals.len() == INTERVAL_CAP {
                let _ = self.intervals.pop_front();
                assert(self.intervals@ =~= before.intervals.drop_first());
            }
            self.intervals.push_back(delta);
        }
        self.last_ms = now_ms;
        self.request_count = self.request_count.saturating_add(1);
        self.recent.hit(now_s, WINDOW_SPAN);
        let mi: usize = method_index(method);
        if mi == 5 || mi == 6 {
            self.probes.hit(now_s, WINDOW_SPAN);
        } else {
            self.probes.forget(now_s, WINDOW_SPAN);
        }
        note(&mut self.paths, fnv64(path), now_s, PATHS_CAP);
        if !same_text(ua, "") {
            note(&mut self.uas, fnv64(ua), now_s, UA_CAP);
        } else {
            self.uas = keep_live(&self.uas, None, now_s);
        }
        assert(self@ =~= next_state(old(self)@, now_ms, path@, method@, ua@));
    }

    /// The reasons that the state gives.
    pub fn score(&self, browserish: bool) -> (r: Vec<DecisionReason>)
        requires
            bounded(self@),
        ensures
            decision::views(r@) == anomalies(self@, browserish),
    {
        let mut out: Vec<DecisionReason> = Vec::new();
        let count: u32 = self.recent.count();
        let unique_paths: usize = self.paths.len();
        let lowdiv = if browserish {
            count >= 180 && unique_paths < 2
        } else {
            count >= 30 && unique_paths < 3
        };
        assert(decision::views(out@) =~= seq![]);
        push_when(
            &mut out,
            lowdiv,
            reason(
                "BHV-LOWDIV",
                "behavior",
                W_LOW_DIVERSITY,
                cat4(
                    dec(count as u64).as_str(),
                    " requests on ",
                    dec(unique_paths as u64).as_str(),
                    " unique paths in window",
                ),
            ),
        );
        assert(decision::views(out@) =~= low_diversity(self@, browserish));
        let n: usize = self.intervals.len();
        if !browserish && n >= 8 && self.request_count >= 15 {
            let (s, q) = sums(&self.intervals);
            proof {
                lemma_sums(self.intervals@);
                assert(n * q <= 0x1_0000_0000_0000_0000_00) by (nonlinear_arith)
                    requires
                        n <= 16,
                        q <= 16 * 0xffff_fffe_0000_0001,
                ;
                assert(s * s <= 0x1_0000_0000_0000_0000_00) by (nonlinear_arith)
                    requires
                        s <= 16 * 0xffff_ffff,
                ;
            }
            let nq: u128 = n as u128 * q;
            let ss: u128 = s * s;
            if s > 5 * n as u128 && 400 * nq < 409 * ss {
                let cv: u64 = hundredths(nq, ss);
                let mean: u128 = round_quotient(s, n as u128);
                push_when(
                    &mut out,
                    true,
                    reason(
                        "BHV-REGULAR",
                        "behavior",
                        W_REGULAR_INTERVAL,
                        cat6(
                            "interval cv=0.",
                            dec_pair(cv).as_str(),
                            " mean=",
                            dec(mean as u64).as_str(),
                            "ms n=",
                            dec(n as u64).as_str(),
                        ),
                    ),
                );
            }
        }
        assert(decision::views(out@) =~= low_diversity(self@, browserish) + clockwork(self@, browserish));
        let opt: u64 = self.probes.count() as u64;
        if count >= 25 {
            let share: u64 = opt * 100 / count as u64;
            push_when(
                &mut out,
                10 * opt >= 9 * count as u64,
                reason(
                    "BHV-METHOD-BIAS",
                    "behavior",
                    W_METHOD_FLOOD,
                    cat4(
                        dec(share).as_str(),
                        "% OPTIONS+HEAD of ",
                        dec(count as u64).as_str(),
                        " requests",
                    ),
                ),
            );
        }
        assert(decision::views(out@) =~= low_diversity(self@, browserish) + clockwork(self@, browserish)
            + method_bias(self@));
        let uas: usize = self.uas.len();
        push_when(
            &mut out,
            uas >= 5 && count >= 20,
            reason(
                "BHV-UA-CHURN",
                "behavior",
                W_UA_CHURN,
                cat4(
                    dec(uas as u64).as_str(),
                    " distinct User-Agents from same IP over ",
                    dec(count as u64).as_str(),
                    " requests",
                ),
            ),
        );
        out
    }
}

fn seen_within(s: &State, now_s: u64) -> (r: bool)
    ensures
        r == (subnet::since(now_s, s@.last_ms / 1000) <= WINDOW_SECS * 2),
{
    now_s.saturating_sub(s.last_ms / 1000) <= WINDOW_SECS * 2
}

impl Default for BehaviorTracker {
    fn default() -> (r: BehaviorTracker)
        ensures
            r.wf(),
            r@ == (BehaviorView { by_ip: Map::empty(), last_gc: 0 }),
    {
        BehaviorTracker::new()
    }
}

impl BehaviorTracker {
    /// The lists of every state are within their bounds.
    pub closed spec fn wf(&self) -> bool {
        &&& self.by_ip.wf()
        &&& forall|k: Key| #[trigger] self.by_ip@.contains_key(k) ==> bounded(self.by_ip@[k])
    }

    pub fn new() -> (r: BehaviorTracker)
        ensures
            r.wf(),
            r@ == (BehaviorView { by_ip: Map::empty(), last_gc: 0 }),
    {
        BehaviorTracker { by_ip: Table::new(), last_gc: 0 }
    }

    fn gc(&mut self, now_s: u64)
        requires
            old(self).wf(),
        ensures
            final(self).wf(),
            final(self)@ == swept(old(self)@, now_s),
    {
        if now_s.saturating_sub(self.last_gc) > SWEEP_SECS {
            self.last_gc = now_s;
            self.by_ip.retain(
                now_s,
                seen_within,
                Ghost(|s: StateView| subnet::since(now_s, s.last_ms / 1000) <= WINDOW_SECS * 2),
            );
        }
    }

    /// Records one request at a given time and returns the reasons that it gives.
    pub fn observe_at(
        &mut self,
        now_ms: u64,
        ip: IpAddr,
        path: &str,
        method: &str,
        ua: &str,
        browserish: bool,
    ) -> (r: Vec<DecisionReason>)
        requires
            old(self).wf(),
        ensures
            final(self).wf(),
            final(self)@ == observed(old(self)@, now_ms, ip, path@, method@, ua@),
            decision::views(r@) == reasons_for(old(self)@, now_ms, ip, path@, method@, ua@, browserish),
    {
        let now_s: u64 = now_ms / 1000;
        self.gc(now_s);
        let key = ip.key();
        let mut s = match self.by_ip.take(key) {
            Some(s) => s,
            None => State::new(),
        };
        s.advance(now_ms, path, method, ua);
        let out = s.score(browserish);
        self.by_ip.put(key, s);
        assert(self@ =~= observed(old(self)@, now_ms, ip, path@, method@, ua@));
        out
    }

    /// Records one request and returns the reasons that it gives. `browserish` says that the
    /// request shows the marks of a real browser.
    pub fn observe(&mut self, ip: IpAddr, path: &str, method: &str, ua: &str, browserish: bool) -> (r: Vec<
        DecisionReason,
    >)
        requires
            old(self).wf(),
        ensures
            final(self).wf(),
            exists|now_ms: u64|
                final(self)@ == #[trigger] observed(old(self)@, now_ms, ip, path@, method@, ua@) && decision::views(r@)
                    == reasons_for(old(self)@, now_ms, ip, path@, method@, ua@, browserish),
    {
        self.observe_at(now_ms(), ip, path, method, ua, browserish)
    }

    /// The number of addresses that are remembered.
    pub fn tracked_ips(&self) -> (r: usize)
        requires
            self.wf(),
        ensures
            r == self@.by_ip.dom().len(),
    {
        self.by_ip.len()
    }
}

// ---------------------------------------------------------------------------
// Laws
// ---------------------------------------------------------------------------

proof fn lemma_ids()
    ensures
        "BHV-LOWDIV"@ != "BHV-REGULAR"@,
        "BHV-LOWDIV"@ != "BHV-METHOD-BIAS"@,
        "BHV-LOWDIV"@ != "BHV-UA-CHURN"@,
        "BHV-REGULAR"@ != "BHV-METHOD-BIAS"@,
        "BHV-REGULAR"@ != "BHV-UA-CHURN"@,
        "BHV-METHOD-BIAS"@ != "BHV-UA-CHURN"@,
{
    reveal_strlit("BHV-LOWDIV");
    reveal_strlit("BHV-REGULAR");
    reveal_strlit("BHV-METHOD-BIAS");
    reveal_strlit("BHV-UA-CHURN");
    assert("BHV-LOWDIV"@.len() == 10 && "BHV-REGULAR"@.len() == 11);
    assert("BHV-METHOD-BIAS"@.len() == 15 && "BHV-UA-CHURN"@.len() == 12);
}

/// User-Agents that change are held against an address exactly when at least five of them and at
/// least twenty requests lie in the window. With fewer requests it is never flagged, whatever its
/// User-Agents.
pub proof fn lemma_ua_churn_flagged(s: StateView, browserish: bool)
    ensures
        decision::names(anomalies(s, browserish), "BHV-UA-CHURN"@) <==> s.uas.len() >= 5 && s.recent.len() >= 20,
        decision::gives(anomalies(s, browserish), "BHV-UA-CHURN"@, 30) <==> s.uas.len() >= 5 && s.recent.len() >= 20,
{
    broadcast use decision::group_reasons;

    lemma_ids();
}

/// One target is held against a browser from 180 requests in the window on that all go to one path,
/// and against any other client from 30 requests on that go to at most two.
pub proof fn lemma_low_diversity_flagged(s: StateView, browserish: bool)
    ensures
        ({
            let flagged = (browserish && s.recent.len() >= 180 && s.paths.len() <= 1) || (!browserish && s.recent.len()
                >= 30 && s.paths.len() <= 2);
            &&& decision::names(anomalies(s, browserish), "BHV-LOWDIV"@) <==> flagged
            &&& decision::gives(anomalies(s, browserish), "BHV-LOWDIV"@, 30) <==> flagged
        }),
{
    broadcast use decision::group_reasons;

    lemma_ids();
}

/// Clockwork is held against a client that is no browser, from fifteen requests and eight intervals
/// on, where the mean of these is above five milliseconds and their variance below 9/400 of its
/// square.
pub proof fn lemma_clockwork_flagged(s: StateView, browserish: bool)
    ensures
        ({
            let n = s.intervals.len();
            let total = sum(s.intervals);
            let variance = n * square_sum(s.intervals) - total * total;
            let flagged = !browserish && s.request_count >= 15 && n >= 8 && total > 5 * n && 400 * variance < 9 * (
            total * total);
            &&& decision::names(anomalies(s, browserish), "BHV-REGULAR"@) <==> flagged
            &&& decision::gives(anomalies(s, browserish), "BHV-REGULAR"@, 35) <==> flagged
        }),
{
    broadcast use decision::group_reasons;

    lemma_ids();
}

/// A bias to OPTIONS and HEAD is held against every client, from 25 requests in the window on of
/// which nine tenths are of these methods.
pub proof fn lemma_method_bias_flagged(s: StateView, browserish: bool)
    requires
        s.probes.len() <= s.recent.len() < u32::MAX,
    ensures
        ({
            let flagged = s.recent.len() >= 25 && 10 * s.probes.len() >= 9 * s.recent.len();
            &&& decision::names(anomalies(s, browserish), "BHV-METHOD-BIAS"@) <==> flagged
            &&& decision::gives(anomalies(s, browserish), "BHV-METHOD-BIAS"@, 25) <==> flagged
        }),
{
    broadcast use decision::group_reasons;

    lemma_ids();
}

/// A browser never gets more reasons than another client in the same state.
pub proof fn lemma_browser_spared(s: StateView, rule_id: Seq<char>)
    ensures
        decision::names(anomalies(s, true), rule_id) ==> decision::names(anomalies(s, false), rule_id),
        decision::total(anomalies(s, true)) <= decision::total(anomalies(s, false)),
{
    broadcast use decision::group_reasons;

    lemma_ids();
}

/// Whether a list names a hash.
pub open spec fn has_hash(list: Seq<(u64, u64)>, x: u64) -> bool {
    exists|i: int| 0 <= i < list.len() && (#[trigger] list[i]).0 == x
}

/// Whether everything that a list names was used in the window that ends at `now_s`.
pub open spec fn all_live(list: Seq<(u64, u64)>, now_s: u64) -> bool {
    forall|i: int| 0 <= i < list.len() ==> now_s <= (#[trigger] list[i]).1 || now_s - list[i].1 <= 59
}

proof fn lemma_live_all(list: Seq<(u64, u64)>, x: Option<u64>, now_s: u64)
    requires
        all_live(list, now_s),
        distinct(list),
    ensures
        x is None || !has_hash(list, x->0) ==> live(list, x, now_s) == list,
        x is Some && has_hash(list, x->0) ==> live(list, x, now_s).len() == list.len() - 1,
    decreases list.len(),
{
    if list.len() > 0 {
        let rest = list.drop_last();
        let last = list.last();
        assert(last == list[list.len() - 1]);
        assert forall|i: int| 0 <= i < rest.len() implies now_s <= (#[trigger] rest[i]).1 || now_s - rest[i].1 <= 59 by {
            assert(rest[i] == list[i]);
        }
        lemma_live_all(rest, x, now_s);
        assert(rest.push(last) =~= list);
        if x is Some {
            if has_hash(rest, x->0) {
                let i = choose|i: int| 0 <= i < rest.len() && (#[trigger] rest[i]).0 == x->0;
                assert(list[i].0 == x->0 && list[i].0 != last.0);
            }
            if has_hash(list, x->0) {
                let i = choose|i: int| 0 <= i < list.len() && (#[trigger] list[i]).0 == x->0;
                if i < rest.len() {
                    assert(rest[i].0 == x->0);
                }
            }
        }
    }
}

proof fn lemma_note(list: Seq<(u64, u64)>, x: u64, now_s: u64, cap: usize)
    requires
        all_live(list, now_s),
        distinct(list),
        list.len() <= cap,
        cap > 0,
    ensures
        has_hash(noted(list, x, now_s, cap), x),
        has_hash(list, x) ==> noted(list, x, now_s, cap).len() == list.len(),
        !has_hash(list, x) && list.len() < cap ==> noted(list, x, now_s, cap).len() == list.len() + 1,
        !has_hash(list, x) && list.len() == cap ==> noted(list, x, now_s, cap).len() == list.len(),
{
    lemma_live_all(list, Some(x), now_s);
    let n = noted(list, x, now_s, cap);
    assert(n[n.len() - 1].0 == x);
}

/// A request of a client that is not idle counts once: one more request in the window, one more
/// path where the path is new, one more User-Agent where that is new, and one more OPTIONS or HEAD
/// where it is one, in any case of letters.
pub proof fn lemma_request_counts(s: StateView, now_ms: u64, path: Seq<char>, method: Seq<char>, ua: Seq<char>)
    requires
        bounded(s),
        s.paths.len() < 32,
        s.uas.len() < 8,
        s.last_ms <= now_ms,
        now_ms / 1000 - s.last_ms / 1000 <= 60,
        all_live(s.paths, now_ms / 1000),
        all_live(s.uas, now_ms / 1000),
        forall|i: int| 0 <= i < s.recent.len() ==> now_ms / 1000 - (#[trigger] s.recent[i]) <= 59,
        forall|i: int| 0 <= i < s.probes.len() ==> now_ms / 1000 - (#[trigger] s.probes[i]) <= 59,
    ensures
        ({
            let n = next_state(s, now_ms, path, method, ua);
            let upper = text::upper_text(method);
            &&& n.recent.len() == s.recent.len() + 1
            &&& n.probes.len() == s.probes.len() + if upper == "OPTIONS"@ || upper == "HEAD"@ {
                1int
            } else {
                0
            }
            &&& n.paths.len() == s.paths.len() + if has_hash(s.paths, hash::fnv_of(path)) {
                0int
            } else {
                1
            }
            &&& has_hash(n.paths, hash::fnv_of(path))
            &&& n.uas.len() == s.uas.len() + if ua.len() == 0 || has_hash(s.uas, hash::fnv_of(ua)) {
                0int
            } else {
                1
            }
            &&& n.last_ms == now_ms
            &&& s.request_count > 0 ==> n.intervals.last() == now_ms - s.last_ms
        }),
{
    let now_s = now_ms / 1000;
    window::lemma_still_all(s.recent, now_s, WINDOW_SPAN);
    window::lemma_still_all(s.probes, now_s, WINDOW_SPAN);
    lemma_note(s.paths, hash::fnv_of(path), now_s, PATHS_CAP);
    lemma_note(s.uas, hash::fnv_of(ua), now_s, UA_CAP);
    lemma_live_all(s.uas, None, now_s);
    reveal_strlit("GET");
    reveal_strlit("POST");
    reveal_strlit("PUT");
    reveal_strlit("DELETE");
    reveal_strlit("PATCH");
    reveal_strlit("OPTIONS");
    reveal_strlit("HEAD");
    assert("GET"@.len() == 3 && "PUT"@.len() == 3 && "DELETE"@.len() == 6 && "PATCH"@.len() == 5);
    assert("OPTIONS"@.len() == 7 && "HEAD"@.len() == 4 && "POST"@.len() == 4);
    assert("HEAD"@[0] == 'H' && "POST"@[0] == 'P');
    if s.request_count > 0 {
        lemma_gap(s, now_ms);
    }
}

/// A client that was idle for more than a minute starts anew: the next request is its first.
pub proof fn lemma_idle_forgotten(s: StateView, now_ms: u64, path: Seq<char>, method: Seq<char>, ua: Seq<char>)
    requires
        now_ms / 1000 - s.last_ms / 1000 > 60,
    ensures
        ({
            let n = next_state(s, now_ms, path, method, ua);
            n.recent.len() == 1 && n.paths.len() == 1 && n.uas.len() <= 1 && n.intervals.len() == 0 && n.request_count
                == 1
        }),
{
    lemma_note(seq![], hash::fnv_of(path), now_ms / 1000, PATHS_CAP);
    lemma_note(seq![], hash::fnv_of(ua), now_ms / 1000, UA_CAP);
    assert(window::still(seq![], now_ms / 1000, WINDOW_SPAN) =~= seq![]);
    assert(live(seq![], None, now_ms / 1000) =~= seq![]);
}

/// What is remembered of an address goes on from what was, whatever the sweep drops, and the
/// reasons are those of what is remembered now.
pub proof fn lemma_remembered(
    t: BehaviorView,
    now_ms: u64,
    ip: IpAddr,
    path: Seq<char>,
    method: Seq<char>,
    ua: Seq<char>,
    browserish: bool,
)
    ensures
        ({
            let n = next_state(state_at(t.by_ip, ip.spec_key()), now_ms, path, method, ua);
            &&& state_at(observed(t, now_ms, ip, path, method, ua).by_ip, ip.spec_key()) == n
            &&& reasons_for(t, now_ms, ip, path, method, ua, browserish) == anomalies(n, browserish)
        }),
{
}

/// Requests, paths and User-Agents that lie further back than the window no longer count.
pub proof fn lemma_window_passes(s: StateView, now_ms: u64, path: Seq<char>, method: Seq<char>, ua: Seq<char>)
    requires
        forall|i: int| 0 <= i < s.recent.len() ==> now_ms / 1000 - (#[trigger] s.recent[i]) > 59,
        forall|i: int| 0 <= i < s.probes.len() ==> now_ms / 1000 - (#[trigger] s.probes[i]) > 59,
        forall|i: int| 0 <= i < s.paths.len() ==> now_ms / 1000 - (#[trigger] s.paths[i]).1 > 59,
        forall|i: int| 0 <= i < s.uas.len() ==> now_ms / 1000 - (#[trigger] s.uas[i]).1 > 59,
    ensures
        ({
            let n = next_state(s, now_ms, path, method, ua);
            n.recent.len() == 1 && n.probes.len() <= 1 && n.paths.len() == 1 && n.uas.len() <= 1
        }),
{
    let now_s = now_ms / 1000;
    let b = current_state(s, now_ms);
    window::lemma_still_none(b.recent, now_s, 59);
    window::lemma_still_none(b.probes, now_s, 59);
    lemma_none_live(b.paths, Some(hash::fnv_of(path)), now_s);
    lemma_none_live(b.uas, Some(hash::fnv_of(ua)), now_s);
    lemma_none_live(b.uas, None, now_s);
}

proof fn lemma_none_live(list: Seq<(u64, u64)>, x: Option<u64>, now_s: u64)
    requires
        forall|i: int| 0 <= i < list.len() ==> now_s - (#[trigger] list[i]).1 > 59,
    ensures
        live(list, x, now_s).len() == 0,
    decreases list.len(),
{
    if list.len() > 0 {
        let rest = list.drop_last();
        assert(list.last() == list[list.len() - 1]);
        assert forall|i: int| 0 <= i < rest.len() implies now_s - (#[trigger] rest[i]).1 > 59 by {
            assert(rest[i] == list[i]);
        }
        lemma_none_live(rest, x, now_s);
    }
}

/// The latest sixteen intervals are kept, the newest at the end.
pub proof fn lemma_intervals_kept(list: Seq<u32>, d: u32)
    requires
        list.len() <= 16,
    ensures
        list.len() < 16 ==> with_interval(list, d) == list.push(d),
        list.len() == 16 ==> with_interval(list, d) == list.skip(1).push(d),
{
    assert(list.len() == 16 ==> list.drop_first() =~= list.skip(1));
}

/// Each interval counts in both sums.
pub proof fn lemma_interval_counts(list: Seq<u32>, d: u32)
    ensures
        sum(list.push(d)) == sum(list) + d,
        square_sum(list.push(d)) == square_sum(list) + d * d,
        sum(seq![]) == 0,
        square_sum(seq![]) == 0,
{
    assert(list.push(d).drop_last() =~= list);
}

} // verus!
