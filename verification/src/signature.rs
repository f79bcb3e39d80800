//! Two signals of repeated requests: one address that sends the same request over and over, and
//! one User-Agent that many addresses share within a short time.

use crate::clock::now_secs;
use crate::decision::{self, reason, DecisionReason, ReasonView};
use crate::hash::{self, fnv64, fnv64_three};
use crate::net::IpAddr;
use crate::num::{self, dec};
use crate::subnet;
use crate::table::{self, Key, Table};
use crate::text::{cat2, cat3, same_text};
use crate::window::{self, Recent};
use vstd::prelude::*;

verus! {

pub const REPLAY_WINDOW_SECS: u64 = 30;

pub const REPLAY_THRESHOLD: u32 = 25;

pub const W_REPLAY: u32 = 60;

pub const UA_WINDOW_SECS: u64 = 60;

pub const UA_THRESHOLD_IP: usize = 8;

/// How many addresses are kept for one User-Agent.
pub const UA_MAX_IPS: usize = 256;

pub const W_DIST_UA: u32 = 50;

/// The times of the requests of each address, by the hash of method, path and User-Agent. The two
/// families of addresses are kept apart, so that hash and number of the address make a key.
pub struct RequestReplay {
    by_v4: Table<Recent>,
    by_v6: Table<Recent>,
    last_gc: u64,
}

#[verifier::ext_equal]
pub struct ReplayView {
    /// The seconds of the requests of an IPv4 address with a hash, under hash and address.
    pub by_v4: Map<Key, Seq<u64>>,
    /// The same for IPv6.
    pub by_v6: Map<Key, Seq<u64>>,
    pub last_gc: u64,
}

impl View for RequestReplay {
    type V = ReplayView;

    closed spec fn view(&self) -> ReplayView {
        ReplayView { by_v4: self.by_v4@, by_v6: self.by_v6@, last_gc: self.last_gc }
    }
}

/// The tracker that has seen no request.
pub open spec fn no_replays() -> ReplayView {
    ReplayView { by_v4: Map::empty(), by_v6: Map::empty(), last_gc: 0 }
}

/// The state after the sweep that is due at `now`, if one is: what has no request in the window
/// is dropped.
pub open spec fn replay_swept(s: ReplayView, now: u64) -> ReplayView {
    if subnet::since(now, s.last_gc) < REPLAY_WINDOW_SECS {
        s
    } else {
        let lively = |t: Seq<u64>| window::still(t, now, REPLAY_WINDOW_SECS).len() > 0;
        ReplayView { by_v4: table::kept(s.by_v4, lively), by_v6: table::kept(s.by_v6, lively), last_gc: now }
    }
}

pub open spec fn more(n: u32) -> u32 {
    if n < u32::MAX {
        (n + 1) as u32
    } else {
        n
    }
}

/// The key of the requests of an address with the hash `h` within its family.
pub open spec fn triple_key(ip: IpAddr, h: u64) -> Key {
    (h, ip.spec_key().1)
}

/// The seconds of the requests of an address with the hash `h` that are remembered.
pub open spec fn times_of(s: ReplayView, ip: IpAddr, h: u64) -> Seq<u64> {
    let m = if ip is V4 {
        s.by_v4
    } else {
        s.by_v6
    };
    if m.contains_key(triple_key(ip, h)) {
        m[triple_key(ip, h)]
    } else {
        seq![]
    }
}

/// The seconds of the requests of an address with the hash `h` that lie in the window, the one at
/// `now` with them.
pub open spec fn repeats(s: ReplayView, now: u64, ip: IpAddr, h: u64) -> Seq<u64> {
    window::still(times_of(s, ip, h), now, REPLAY_WINDOW_SECS).push(now)
}

/// The state after a request with the hash `h` of an address.
pub open spec fn replay_observed(s: ReplayView, now: u64, ip: IpAddr, h: u64) -> ReplayView {
    let t = replay_swept(s, now);
    let times = repeats(t, now, ip, h);
    if ip is V4 {
        ReplayView { by_v4: t.by_v4.insert(triple_key(ip, h), times), ..t }
    } else {
        ReplayView { by_v6: t.by_v6.insert(triple_key(ip, h), times), ..t }
    }
}

/// The reason that a request with the hash `h` of an address gives: many such requests of the
/// address in the window.
pub open spec fn replay_reason(s: ReplayView, now: u64, ip: IpAddr, h: u64) -> Option<ReasonView> {
    let n = window::capped(repeats(s, now, ip, h).len());
    if n >= REPLAY_THRESHOLD {
        Some(
            decision::reason_of(
                "REPLAY"@,
                "ddos"@,
                W_REPLAY,
                num::dec_text(n as nat) + " repeats of same signature in 30s"@,
            ),
        )
    } else {
        None
    }
}

/// The sweep drops nothing that counts.
pub proof fn lemma_sweep_harmless(s: ReplayView, now: u64, ip: IpAddr, h: u64)
    ensures
        repeats(replay_swept(s, now), now, ip, h) == repeats(s, now, ip, h),
{
    let t = times_of(s, ip, h);
    if window::still(t, now, REPLAY_WINDOW_SECS).len() == 0 {
        assert(window::still(t, now, REPLAY_WINDOW_SECS) =~= window::still(seq![], now, REPLAY_WINDOW_SECS));
    }
}

/// A request counts for its own address and hash alone: what is counted of another address, or of
/// another hash, stays as it was, whatever comes in between.
pub proof fn lemma_triples_apart(s: ReplayView, now: u64, ip: IpAddr, h: u64, ip2: IpAddr, h2: u64)
    requires
        ip != ip2 || h != h2,
    ensures
        repeats(replay_observed(s, now, ip, h), now, ip2, h2) == repeats(s, now, ip2, h2),
{
    lemma_sweep_harmless(s, now, ip2, h2);
    if triple_key(ip, h) == triple_key(ip2, h2) && (ip is V4 <==> ip2 is V4) {
        crate::net::lemma_key_injective(ip, ip2);
    }
}

/// Each request of an address counts once in the window that follows it: after a request at `now`,
/// one more at `later` finds it and everything before it that is not past.
pub proof fn lemma_repeats_add_up(s: ReplayView, now: u64, later: u64, ip: IpAddr, h: u64)
    requires
        now <= later,
    ensures
        repeats(replay_observed(s, now, ip, h), later, ip, h) == window::still(
            times_of(s, ip, h).push(now),
            later,
            REPLAY_WINDOW_SECS,
        ).push(later),
{
    let all = times_of(s, ip, h).push(now);
    lemma_sweep_harmless(s, now, ip, h);
    assert(all.drop_last() =~= times_of(s, ip, h));
    assert(times_of(replay_observed(s, now, ip, h), ip, h) == window::still(all, now, REPLAY_WINDOW_SECS));
    window::lemma_still_twice(all, now, later, REPLAY_WINDOW_SECS);
}

/// The view of an optional reason.
pub open spec fn reason_view(r: Option<DecisionReason>) -> Option<ReasonView> {
    match r {
        Some(r) => Some(r@),
        None => None,
    }
}

fn lively(r: &Recent, now: u64) -> (b: bool)
    ensures
        b == (window::still(r@, now, REPLAY_WINDOW_SECS).len() > 0),
{
    r.lively(now, REPLAY_WINDOW_SECS)
}

impl Default for RequestReplay {
    fn default() -> (r: RequestReplay)
        ensures
            r.wf(),
            r@ == no_replays(),
    {
        RequestReplay::new()
    }
}

impl RequestReplay {
    pub closed spec fn wf(&self) -> bool {
        self.by_v4.wf() && self.by_v6.wf()
    }

    pub fn new() -> (r: RequestReplay)
        ensures
            r.wf(),
            r@ == no_replays(),
    {
        RequestReplay { by_v4: Table::new(), by_v6: Table::new(), last_gc: 0 }
    }

    fn maybe_gc(&mut self, now: u64)
        requires
            old(self).wf(),
        ensures
            final(self).wf(),
            final(self)@ == replay_swept(old(self)@, now),
    {
        if now.saturating_sub(self.last_gc) < REPLAY_WINDOW_SECS {
            return;
        }
        self.last_gc = now;
        self.by_v4.retain(
            now,
            lively,
            Ghost(|t: Seq<u64>| window::still(t, now, REPLAY_WINDOW_SECS).len() > 0),
        );
        self.by_v6.retain(
            now,
            lively,
            Ghost(|t: Seq<u64>| window::still(t, now, REPLAY_WINDOW_SECS).len() > 0),
        );
        assert(self@ =~= replay_swept(old(self)@, now));
    }

    /// Records a request at a given time.
    pub fn observe_at(&mut self, now: u64, ip: IpAddr, method: &str, path: &str, ua: &str) -> (r: Option<
        DecisionReason,
    >)
        requires
            old(self).wf(),
        ensures
            final(self).wf(),
            final(self)@ == replay_observed(old(self)@, now, ip, hash::fnv_of_three(method@, path@, ua@)),
            reason_view(r) == replay_reason(old(self)@, now, ip, hash::fnv_of_three(method@, path@, ua@)),
    {
        self.maybe_gc(now);
        let h: u64 = fnv64_three(method, path, ua);
        proof {
            lemma_sweep_harmless(old(self)@, now, ip, h);
        }
        let key = (h, ip.key().1);
        let v4 = match ip {
            IpAddr::V4(_) => true,
            IpAddr::V6(_) => false,
        };
        let taken = if v4 {
            self.by_v4.take(key)
        } else {
            self.by_v6.take(key)
        };
        let mut times = match taken {
            Some(t) => t,
            None => Recent::new(),
        };
        times.hit(now, REPLAY_WINDOW_SECS);
        let n: u32 = times.count();
        if v4 {
            self.by_v4.put(key, times);
        } else {
            self.by_v6.put(key, times);
        }
        assert(self@ =~= replay_observed(old(self)@, now, ip, h));
        if n >= REPLAY_THRESHOLD {
            Some(
                reason(
                    "REPLAY",
                    "ddos",
                    W_REPLAY,
                    cat2(dec(n as u64).as_str(), " repeats of same signature in 30s"),
                ),
            )
        } else {
            None
        }
    }

    /// Records a request, and reports one that the address sent often in the window.
    pub fn observe(&mut self, ip: IpAddr, method: &str, path: &str, ua: &str) -> (r: Option<DecisionReason>)
        requires
            old(self).wf(),
        ensures
            final(self).wf(),
            exists|now: u64|
                final(self)@ == #[trigger] replay_observed(
                    old(self)@,
                    now,
                    ip,
                    hash::fnv_of_three(method@, path@, ua@),
                ) && reason_view(r) == replay_reason(old(self)@, now, ip, hash::fnv_of_three(method@, path@, ua@)),
    {
        self.observe_at(now_secs(), ip, method, path, ua)
    }
}

/// The addresses that used one User-Agent within the window.
pub struct UaBucket {
    ips: Vec<(IpAddr, u64)>,
}

impl View for UaBucket {
    /// The addresses, each once and with the second of its latest request, in the order of these.
    type V = Seq<(IpAddr, u64)>;

    closed spec fn view(&self) -> Seq<(IpAddr, u64)> {
        self.ips@
    }
}

pub struct DistributedUa {
    by_ua: Table<UaBucket>,
    last_gc: u64,
}

#[verifier::ext_equal]
pub struct DistView {
    pub by_ua: Map<Key, Seq<(IpAddr, u64)>>,
    pub last_gc: u64,
}

impl View for DistributedUa {
    type V = DistView;

    closed spec fn view(&self) -> DistView {
        DistView { by_ua: self.by_ua@, last_gc: self.last_gc }
    }
}

/// The entries of a list but for the one of `ip` and those that left the window.
pub open spec fn others(ips: Seq<(IpAddr, u64)>, ip: Option<IpAddr>, now: u64) -> Seq<(IpAddr, u64)>
    decreases ips.len(),
{
    if ips.len() == 0 {
        seq![]
    } else if ip != Some(ips.last().0) && window::not_past(ips.last().1, now, UA_WINDOW_SECS) {
        others(ips.drop_last(), ip, now).push(ips.last())
    } else {
        others(ips.drop_last(), ip, now)
    }
}

/// The state after the sweep that is due at `now`, if one is: what no address used in the window
/// is dropped.
pub open spec fn dist_swept(s: DistView, now: u64) -> DistView {
    if subnet::since(now, s.last_gc) < UA_WINDOW_SECS {
        s
    } else {
        DistView {
            by_ua: table::kept(s.by_ua, |b: Seq<(IpAddr, u64)>| others(b, None, now).len() > 0),
            last_gc: now,
        }
    }
}

/// What is kept of a User-Agent after a request of an address: the addresses of the window, and
/// this one unless the list is full.
pub open spec fn dist_next(b: Seq<(IpAddr, u64)>, now: u64, ip: IpAddr) -> Seq<(IpAddr, u64)> {
    let rest = others(b, Some(ip), now);
    if rest.len() >= UA_MAX_IPS {
        rest
    } else {
        rest.push((ip, now))
    }
}

/// The entries of a key, if there are any.
pub open spec fn entries_at(m: Map<Key, Seq<(IpAddr, u64)>>, k: Key) -> Seq<(IpAddr, u64)> {
    if m.contains_key(k) {
        m[k]
    } else {
        seq![]
    }
}

pub open spec fn ua_key(ua: Seq<char>) -> Key {
    (hash::fnv_of(ua), 0u128)
}

pub open spec fn dist_observed(s: DistView, now: u64, ip: IpAddr, ua: Seq<char>) -> DistView {
    if ua.len() == 0 {
        s
    } else {
        let t = dist_swept(s, now);
        DistView { by_ua: t.by_ua.insert(ua_key(ua), dist_next(entries_at(t.by_ua, ua_key(ua)), now, ip)), ..t }
    }
}

/// The reason that a request gives: many addresses with one User-Agent.
pub open spec fn dist_reason(s: DistView, now: u64, ip: IpAddr, ua: Seq<char>) -> Option<ReasonView> {
    let n = dist_observed(s, now, ip, ua).by_ua[ua_key(ua)].len();
    if ua.len() > 0 && n >= UA_THRESHOLD_IP {
        Some(
            decision::reason_of(
                "DIST-UA"@,
                "ddos"@,
                W_DIST_UA,
                "UA shared by "@ + num::dec_text(n) + " distinct IPs in 60s"@,
            ),
        )
    } else {
        None
    }
}

/// Whether no address stands in a list twice, and the list is within its bound.
pub open spec fn tidy(b: Seq<(IpAddr, u64)>) -> bool {
    &&& b.len() <= UA_MAX_IPS
    &&& forall|i: int, j: int| 0 <= i < j < b.len() ==> (#[trigger] b[i]).0 != (#[trigger] b[j]).0
}

proof fn lemma_others(b: Seq<(IpAddr, u64)>, ip: Option<IpAddr>, now: u64)
    requires
        tidy(b),
    ensures
        tidy(others(b, ip, now)),
        forall|i: int| 0 <= i < others(b, ip, now).len() ==> ip != Some((#[trigger] others(b, ip, now)[i]).0),
        forall|i: int| 0 <= i < others(b, ip, now).len() ==> b.contains(#[trigger] others(b, ip, now)[i]),
        others(b, ip, now).len() <= b.len(),
    decreases b.len(),
{
    if b.len() > 0 {
        let rest = b.drop_last();
        lemma_others(rest, ip, now);
        let l = others(rest, ip, now);
        assert forall|i: int| 0 <= i < l.len() implies b.contains(#[trigger] l[i]) && l[i].0 != b.last().0 by {
            assert(rest.contains(l[i]));
            let j = choose|j: int| 0 <= j < rest.len() && rest[j] == l[i];
            assert(b[j] == l[i]);
            assert(b[b.len() - 1] == b.last());
        }
        assert(b.contains(b[b.len() - 1]));
    }
}

/// What is kept of a User-Agent names each address once and stays within its bound.
pub proof fn lemma_bucket(b: Seq<(IpAddr, u64)>, now: u64, ip: IpAddr)
    requires
        tidy(b),
    ensures
        tidy(dist_next(b, now, ip)),
{
    lemma_others(b, Some(ip), now);
}

/// An address that used a User-Agent is counted with the others until it has left the window,
/// unless the list was full.
pub proof fn lemma_address_counts(b: Seq<(IpAddr, u64)>, now: u64, ip: IpAddr, later: u64, other: IpAddr)
    requires
        others(b, Some(ip), now).len() < UA_MAX_IPS,
        ip != other,
        window::not_past(now, later, UA_WINDOW_SECS),
    ensures
        others(dist_next(b, now, ip), Some(other), later).contains((ip, now)),
{
    let rest = others(b, Some(ip), now);
    let all = rest.push((ip, now));
    assert(all.drop_last() =~= rest);
    let l = others(all, Some(other), later);
    assert(l[l.len() - 1] == (ip, now));
}

/// Keeps the entries of the window, without that of `ip`.
fn keep_others(ips: &Vec<(IpAddr, u64)>, ip: Option<IpAddr>, now: u64) -> (r: Vec<(IpAddr, u64)>)
    ensures
        r@ == others(ips@, ip, now),
{
    let mut out: Vec<(IpAddr, u64)> = Vec::new();
    let n: usize = ips.len();
    for i in 0..n
        invariant
            n == ips@.len(),
            out@ == others(ips@.take(i as int), ip, now),
    {
        let (a, at): (IpAddr, u64) = ips[i];
        assert(ips@.take(i + 1).drop_last() =~= ips@.take(i as int));
        let same = match ip {
            Some(x) => x == a,
            None => false,
        };
        if !same && (now <= at || now - at <= UA_WINDOW_SECS) {
            out.push((a, at));
        }
    }
    assert(ips@.take(n as int) =~= ips@);
    out
}

fn used_within(b: &UaBucket, now: u64) -> (r: bool)
    ensures
        r == (others(b@, None, now).len() > 0),
{
    keep_others(&b.ips, None, now).len() > 0
}

impl Default for DistributedUa {
    fn default() -> (r: DistributedUa)
        ensures
            r.wf(),
            r@ == (DistView { by_ua: Map::empty(), last_gc: 0 }),
    {
        DistributedUa::new()
    }
}

impl DistributedUa {
    /// In no bucket does an address occur twice, and none is over the bound.
    pub closed spec fn wf(&self) -> bool {
        &&& self.by_ua.wf()
        &&& forall|k: Key| #[trigger]
            self.by_ua@.contains_key(k) ==> tidy(self.by_ua@[k])
    }

    pub fn new() -> (r: DistributedUa)
        ensures
            r.wf(),
            r@ == (DistView { by_ua: Map::empty(), last_gc: 0 }),
    {
        DistributedUa { by_ua: Table::new(), last_gc: 0 }
    }

    fn maybe_gc(&mut self, now: u64)
        requires
            old(self).wf(),
        ensures
            final(self).wf(),
            final(self)@ == dist_swept(old(self)@, now),
    {
        if now.saturating_sub(self.last_gc) < UA_WINDOW_SECS {
            return;
        }
        self.last_gc = now;
        self.by_ua.retain(
            now,
            used_within,
            Ghost(|b: Seq<(IpAddr, u64)>| others(b, None, now).len() > 0),
        );
    }

    /// Records a request at a given time.
    pub fn observe_at(&mut self, now: u64, ip: IpAddr, ua: &str) -> (r: Option<DecisionReason>)
        requires
            old(self).wf(),
        ensures
            final(self).wf(),
            final(self)@ == dist_observed(old(self)@, now, ip, ua@),
            reason_view(r) == dist_reason(old(self)@, now, ip, ua@),
    {
        proof {
            reveal_strlit("");
            assert(ua@.len() == 0 ==> ua@ =~= ""@);
        }
        if same_text(ua, "") {
            return None;
        }
        self.maybe_gc(now);
        let key: Key = (fnv64(ua), 0u128);
        let b: UaBucket = match self.by_ua.take(key) {
            Some(b) => b,
            None => UaBucket { ips: Vec::new() },
        };
        let ghost before = b@;
        let mut ips = keep_others(&b.ips, Some(ip), now);
        if ips.len() < UA_MAX_IPS {
            ips.push((ip, now));
        }
        let n: usize = ips.len();
        let b = UaBucket { ips };
        proof {
            let t = dist_swept(old(self)@, now);
            assert(before =~= entries_at(t.by_ua, key));
            assert(b@ =~= dist_next(before, now, ip));
            lemma_bucket(before, now, ip);
        }
        self.by_ua.put(key, b);
        assert(self@ =~= dist_observed(old(self)@, now, ip, ua@));
        if n >= UA_THRESHOLD_IP {
            Some(
                reason(
                    "DIST-UA",
                    "ddos",
                    W_DIST_UA,
                    cat3("UA shared by ", dec(n as u64).as_str(), " distinct IPs in 60s"),
                ),
            )
        } else {
            None
        }
    }

    /// Records a request, and reports a User-Agent that many addresses share.
    pub fn observe(&mut self, ip: IpAddr, ua: &str) -> (r: Option<DecisionReason>)
        requires
            old(self).wf(),
        ensures
            final(self).wf(),
            exists|now: u64|
                final(self)@ == #[trigger] dist_observed(old(self)@, now, ip, ua@) && reason_view(r) == dist_reason(
                    old(self)@,
                    now,
                    ip,
                    ua@,
                ),
    {
        self.observe_at(now_secs(), ip, ua)
    }
}

// ---------------------------------------------------------------------------
// Laws
// ---------------------------------------------------------------------------

/// A run of equal requests is flagged from the twenty-fifth within thirty seconds on.
pub proof fn lemma_run_flagged(s: ReplayView, now: u64, ip: IpAddr, h: u64)
    requires
        forall|i: int| 0 <= i < times_of(s, ip, h).len() ==> now - (#[trigger] times_of(s, ip, h)[i]) <= 30,
        times_of(s, ip, h).len() < u32::MAX - 1,
    ensures
        replay_reason(s, now, ip, h) is Some <==> times_of(s, ip, h).len() + 1 >= 25,
        replay_reason(s, now, ip, h) matches Some(r) ==> r.rule_id == "REPLAY"@ && r.score == 60,
{
    window::lemma_still_all(times_of(s, ip, h), now, 30);
}

/// Requests further back do not count.
pub proof fn lemma_old_run_forgotten(s: ReplayView, now: u64, ip: IpAddr, h: u64)
    requires
        forall|i: int| 0 <= i < times_of(s, ip, h).len() ==> now - (#[trigger] times_of(s, ip, h)[i]) > 30,
    ensures
        replay_reason(s, now, ip, h) is None,
        times_of(replay_observed(s, now, ip, h), ip, h) == seq![now],
{
    window::lemma_still_none(times_of(s, ip, h), now, 30);
    lemma_sweep_harmless(s, now, ip, h);
    assert(repeats(s, now, ip, h) =~= seq![now]);
}

/// What is kept of a User-Agent beside an address: every other address of the last minute, and no
/// other.
pub proof fn lemma_others_exactly(b: Seq<(IpAddr, u64)>, ip: Option<IpAddr>, now: u64, e: (IpAddr, u64))
    ensures
        others(b, ip, now).contains(e) <==> b.contains(e) && ip != Some(e.0) && now - e.1 <= 60,
    decreases b.len(),
{
    if b.len() > 0 {
        let rest = b.drop_last();
        lemma_others_exactly(rest, ip, now, e);
        let before = others(rest, ip, now);
        let all = others(b, ip, now);
        assert(b.last() == b[b.len() - 1]);
        if before.contains(e) {
            let i = choose|i: int| 0 <= i < before.len() && before[i] == e;
            assert(all[i] == e);
        }
        if rest.contains(e) {
            let i = choose|i: int| 0 <= i < rest.len() && rest[i] == e;
            assert(b[i] == e);
        }
        if b.contains(e) && !rest.contains(e) {
            let i = choose|i: int| 0 <= i < b.len() && b[i] == e;
            assert(i == b.len() - 1) by {
                if i < b.len() - 1 {
                    assert(rest[i] == e);
                }
            }
            if ip != Some(e.0) && now - e.1 <= 60 {
                assert(all[all.len() - 1] == e);
            }
        }
        if all.contains(e) && !before.contains(e) {
            let i = choose|i: int| 0 <= i < all.len() && all[i] == e;
            if i < before.len() {
                assert(before[i] == e);
            }
            assert(e == b.last());
            assert(b.contains(e));
        }
    }
}

/// A User-Agent is flagged from the eighth address within a minute on.
pub proof fn lemma_shared_flagged(s: DistView, now: u64, ip: IpAddr, ua: Seq<char>)
    requires
        ua.len() > 0,
    ensures
        ({
            let n = others(entries_at(s.by_ua, ua_key(ua)), Some(ip), now).len();
            &&& dist_reason(s, now, ip, ua) is Some <==> n + 1 >= 8
            &&& dist_reason(s, now, ip, ua) matches Some(r) ==> r.rule_id == "DIST-UA"@ && r.score == 50
        }),
{
    let b = entries_at(s.by_ua, ua_key(ua));
    let t = dist_swept(s, now);
    if entries_at(t.by_ua, ua_key(ua)) != b {
        assert(others(b, None, now).len() == 0);
        lemma_fewer(b, ip, now);
        assert(others(Seq::<(IpAddr, u64)>::empty(), Some(ip), now).len() == 0);
    }
}

proof fn lemma_fewer(b: Seq<(IpAddr, u64)>, ip: IpAddr, now: u64)
    ensures
        others(b, Some(ip), now).len() <= others(b, None, now).len(),
    decreases b.len(),
{
    if b.len() > 0 {
        lemma_fewer(b.drop_last(), ip, now);
    }
}

/// A request without a User-Agent is neither noted nor flagged.
pub proof fn lemma_nameless(s: DistView, now: u64, ip: IpAddr)
    ensures
        dist_observed(s, now, ip, seq![]) == s,
        dist_reason(s, now, ip, seq![]) is None,
{
}

/// Other User-Agents keep what was noted of them in the window.
pub proof fn lemma_agents_apart(s: DistView, now: u64, ip: IpAddr, ua: Seq<char>, k: Key)
    requires
        k != ua_key(ua),
    ensures
        others(entries_at(dist_observed(s, now, ip, ua).by_ua, k), None, now) == others(
            entries_at(s.by_ua, k),
            None,
            now,
        ),
{
    let b = entries_at(s.by_ua, k);
    if others(b, None, now).len() == 0 {
        assert(others(b, None, now) =~= others(seq![], None, now));
    }
}

} // verus!
