//! Request rate and in-flight requests per network: /24 for IPv4 and /64 for IPv6, so that load
//! that is spread over many addresses of one allocation still trips one counter.

use crate::clock::now_secs;
use crate::decision::{self, push_when, reason, DecisionReason, ReasonView};
use crate::net::{self, subnet_key, IpAddr};
use crate::num::{self, dec, dec_signed};
use crate::table::{self, Key, Table};
use crate::text::cat4;
use crate::window::{self, Counter, CounterView};
use vstd::prelude::*;

verus! {

pub const W_SUBNET_FLOOD: u32 = 80;

pub const W_SUBNET_CONN: u32 = 70;

/// How often idle networks are dropped, and how old an idle one is.
pub const SWEEP_SECS: u64 = 60;

pub struct SubnetTracker {
    counters: Table<Counter>,
    in_flight: Table<i64>,
    last_gc: u64,
}

#[verifier::ext_equal]
pub struct SubnetView {
    pub counters: Map<Key, CounterView>,
    pub in_flight: Map<Key, i64>,
    pub last_gc: u64,
}

impl View for SubnetTracker {
    type V = SubnetView;

    closed spec fn view(&self) -> SubnetView {
        SubnetView { counters: self.counters@, in_flight: self.in_flight@, last_gc: self.last_gc }
    }
}

/// The key of the network of an address.
pub open spec fn key_of(ip: IpAddr) -> Key {
    (0u64, net::subnet_number(ip) as u128)
}

/// Two addresses share a key exactly when they belong to one network.
pub proof fn lemma_key(a: IpAddr, b: IpAddr)
    ensures
        key_of(a) == key_of(b) <==> net::subnet_number(a) == net::subnet_number(b),
{
}

/// `a - b`, or zero.
pub open spec fn since(a: u64, b: u64) -> u64 {
    if a > b {
        (a - b) as u64
    } else {
        0
    }
}

/// Whether a counter saw an event within the last sweep.
pub open spec fn recent(c: CounterView, now: u64) -> bool {
    since(now, c.head) < SWEEP_SECS && window::total(c.buckets) > 0
}

/// The state after the sweep that is due at `now`, if one is.
pub open spec fn swept(s: SubnetView, now: u64) -> SubnetView {
    if since(now, s.last_gc) < SWEEP_SECS {
        s
    } else {
        SubnetView {
            counters: table::kept(s.counters, |c: CounterView| recent(c, now)),
            in_flight: table::kept(s.in_flight, |v: i64| v > 0),
            last_gc: now,
        }
    }
}

/// The counter of a network, which starts empty.
pub open spec fn counter_at(m: Map<Key, CounterView>, k: Key) -> CounterView {
    if m.contains_key(k) {
        m[k]
    } else {
        window::fresh()
    }
}

/// The state after a request of an address at `now`.
pub open spec fn observed(s: SubnetView, now: u64, ip: IpAddr) -> SubnetView {
    let t = swept(s, now);
    SubnetView {
        counters: t.counters.insert(key_of(ip), window::after_hit(counter_at(t.counters, key_of(ip)), now)),
        ..t
    }
}

/// The in-flight requests of a network.
pub open spec fn flying(m: Map<Key, i64>, k: Key) -> i64 {
    if m.contains_key(k) {
        m[k]
    } else {
        0
    }
}

/// The reasons that a request of an address at `now` gives.
pub open spec fn reasons_for(s: SubnetView, now: u64, ip: IpAddr, rpm_cap: u32, conn_cap: i64) -> Seq<ReasonView> {
    let t = observed(s, now, ip);
    let count = window::total(t.counters[key_of(ip)].buckets);
    let cur = flying(t.in_flight, key_of(ip));
    decision::when(
        rpm_cap > 0 && count > rpm_cap,
        decision::reason_of(
            "SUBNET-RPM"@,
            "ddos"@,
            W_SUBNET_FLOOD,
            "subnet rpm="@ + num::dec_text(count as nat) + " cap="@ + num::dec_text(rpm_cap as nat),
        ),
    ) + decision::when(
        conn_cap > 0 && cur > conn_cap,
        decision::reason_of(
            "SUBNET-CONN"@,
            "ddos"@,
            W_SUBNET_CONN,
            "subnet inflight="@ + num::dec_int(cur as int) + " cap="@ + num::dec_int(conn_cap as int),
        ),
    )
}

/// The state after one more request of an address has begun.
pub open spec fn begun(s: SubnetView, ip: IpAddr) -> SubnetView {
    let n = flying(s.in_flight, key_of(ip));
    SubnetView {
        in_flight: s.in_flight.insert(
            key_of(ip),
            if n < i64::MAX {
                (n + 1) as i64
            } else {
                n
            },
        ),
        ..s
    }
}

/// The state after a request of an address has ended. No count goes below zero.
pub open spec fn ended(s: SubnetView, ip: IpAddr) -> SubnetView {
    if s.in_flight.contains_key(key_of(ip)) {
        let n = s.in_flight[key_of(ip)];
        SubnetView {
            in_flight: s.in_flight.insert(
                key_of(ip),
                if n > 0 {
                    (n - 1) as i64
                } else {
                    0
                },
            ),
            ..s
        }
    } else {
        s
    }
}

/// Addresses of one network are counted as one: what a request of either leaves behind is the
/// same, and so are the reasons that it gives.
pub proof fn lemma_one_network(s: SubnetView, now: u64, a: IpAddr, b: IpAddr, rpm_cap: u32, conn_cap: i64)
    requires
        net::subnet_number(a) == net::subnet_number(b),
    ensures
        observed(s, now, a) == observed(s, now, b),
        reasons_for(s, now, a, rpm_cap, conn_cap) == reasons_for(s, now, b, rpm_cap, conn_cap),
        begun(s, a) == begun(s, b),
        ended(s, a) == ended(s, b),
{
}

/// A request that began and ended leaves the in-flight count of every network as it was.
pub proof fn lemma_begin_end(s: SubnetView, ip: IpAddr, k: Key)
    requires
        0 <= flying(s.in_flight, key_of(ip)) < i64::MAX,
    ensures
        flying(ended(begun(s, ip), ip).in_flight, k) == flying(s.in_flight, k),
{
}

fn is_recent(c: &Counter, now: u64) -> (r: bool)
    ensures
        r == recent(c@, now),
{
    now.saturating_sub(c.head()) < SWEEP_SECS && c.current() > 0
}

fn above(v: &i64, bound: i64) -> (r: bool)
    ensures
        r == (*v > bound),
{
    *v > bound
}

impl Default for SubnetTracker {
    fn default() -> (r: SubnetTracker)
        ensures
            r.wf(),
            r@ == (SubnetView { counters: Map::empty(), in_flight: Map::empty(), last_gc: 0 }),
    {
        SubnetTracker::new()
    }
}

impl SubnetTracker {
    pub closed spec fn wf(&self) -> bool {
        self.counters.wf() && self.in_flight.wf()
    }

    pub fn new() -> (r: SubnetTracker)
        ensures
            r.wf(),
            r@ == (SubnetView { counters: Map::empty(), in_flight: Map::empty(), last_gc: 0 }),
    {
        SubnetTracker { counters: Table::new(), in_flight: Table::new(), last_gc: 0 }
    }

    fn maybe_gc(&mut self, now: u64)
        requires
            old(self).wf(),
        ensures
            final(self).wf(),
            final(self)@ == swept(old(self)@, now),
    {
        if now.saturating_sub(self.last_gc) < SWEEP_SECS {
            return;
        }
        self.last_gc = now;
        self.counters.retain(now, is_recent, Ghost(|c: CounterView| recent(c, now)));
        self.in_flight.retain(0i64, above, Ghost(|v: i64| v > 0));
    }

    /// Records one request of an address at a given time and returns the reasons that it gives.
    /// `rpm_cap` bounds the requests of the network in a minute, `conn_cap` those in flight; zero
    /// stands for no bound.
    pub fn observe_at(&mut self, now: u64, ip: IpAddr, rpm_cap: u32, conn_cap: i64) -> (r: Vec<DecisionReason>)
        requires
            old(self).wf(),
        ensures
            final(self).wf(),
            final(self)@ == observed(old(self)@, now, ip),
            decision::views(r@) == reasons_for(old(self)@, now, ip, rpm_cap, conn_cap),
    {
        let key: Key = (0u64, subnet_key(ip));
        self.maybe_gc(now);
        let mut counter = match self.counters.take(key) {
            Some(c) => c,
            None => Counter::new(),
        };
        let count: u32 = counter.hit(now);
        self.counters.put(key, counter);
        proof {
            let t = swept(old(self)@, now);
            assert(self@.counters =~= observed(old(self)@, now, ip).counters);
        }
        let cur: i64 = match self.in_flight.get(key) {
            Some(v) => *v,
            None => 0,
        };
        let mut out: Vec<DecisionReason> = Vec::new();
        assert(decision::views(out@) =~= seq![]);
        push_when(
            &mut out,
            rpm_cap > 0 && count > rpm_cap,
            reason(
                "SUBNET-RPM",
                "ddos",
                W_SUBNET_FLOOD,
                cat4("subnet rpm=", dec(count as u64).as_str(), " cap=", dec(rpm_cap as u64).as_str()),
            ),
        );
        push_when(
            &mut out,
            conn_cap > 0 && cur > conn_cap,
            reason(
                "SUBNET-CONN",
                "ddos",
                W_SUBNET_CONN,
                cat4("subnet inflight=", dec_signed(cur).as_str(), " cap=", dec_signed(conn_cap).as_str()),
            ),
        );
        assert(decision::views(out@) =~= reasons_for(old(self)@, now, ip, rpm_cap, conn_cap));
        out
    }

    /// Records one request of an address and returns the reasons that it gives.
    pub fn observe(&mut self, ip: IpAddr, rpm_cap: u32, conn_cap: i64) -> (r: Vec<DecisionReason>)
        requires
            old(self).wf(),
        ensures
            final(self).wf(),
            exists|now: u64|
                final(self)@ == #[trigger] observed(old(self)@, now, ip) && decision::views(r@) == reasons_for(
                    old(self)@,
                    now,
                    ip,
                    rpm_cap,
                    conn_cap,
                ),
    {
        self.observe_at(now_secs(), ip, rpm_cap, conn_cap)
    }

    pub fn inc_inflight(&mut self, ip: IpAddr)
        requires
            old(self).wf(),
        ensures
            final(self).wf(),
            final(self)@ == begun(old(self)@, ip),
    {
        let key: Key = (0u64, subnet_key(ip));
        let n: i64 = match self.in_flight.get(key) {
            Some(v) => *v,
            None => 0,
        };
        let more: i64 = if n < i64::MAX {
            n + 1
        } else {
            n
        };
        self.in_flight.put(key, more);
    }

    pub fn dec_inflight(&mut self, ip: IpAddr)
        requires
            old(self).wf(),
        ensures
            final(self).wf(),
            final(self)@ == ended(old(self)@, ip),
    {
        let key: Key = (0u64, subnet_key(ip));
        let fewer: i64 = match self.in_flight.get(key) {
            Some(v) => if *v > 0 {
                *v - 1
            } else {
                0
            },
            None => {
                return;
            },
        };
        self.in_flight.put(key, fewer);
    }

    /// The number of networks that have a counter.
    pub fn tracked_networks(&self) -> (r: usize)
        requires
            self.wf(),
        ensures
            r == self@.counters.dom().len(),
    {
        self.counters.len()
    }
}

// ---------------------------------------------------------------------------
// Laws
// ---------------------------------------------------------------------------

proof fn lemma_ids()
    ensures
        "SUBNET-RPM"@ != "SUBNET-CONN"@,
{
    reveal_strlit("SUBNET-RPM");
    reveal_strlit("SUBNET-CONN");
    assert("SUBNET-RPM"@.len() == 10);
    assert("SUBNET-CONN"@.len() == 11);
}


proof fn lemma_quiet(c: CounterView, now: u64)
    requires
        c.buckets.len() == 6,
        !recent(c, now),
    ensures
        window::total(window::after_hit(c, now).buckets) == window::total(
            window::after_hit(window::fresh(), now).buckets,
        ),
{
    let r = window::rolled(c, now);
    let f = window::rolled(window::fresh(), now);
    if window::total(c.buckets) > 0 {
        assert(now / 10 - c.head / 10 >= 6);
    }
    assert(r =~= f);
}

/// A network is flagged for its rate exactly when the requests of the last minute, this one among
/// them, are more than its cap; a cap of zero is none. The sweep drops nothing that counts.
pub proof fn lemma_rate_flagged(s: SubnetView, now: u64, ip: IpAddr, rpm_cap: u32, conn_cap: i64, times: Seq<u64>)
    requires
        ({
            let c = counter_at(s.counters, key_of(ip));
            &&& window::represents(c, times)
            &&& c.head <= now
            &&& forall|i: int| 0 <= i < 6 ==> #[trigger] c.buckets[i] < u32::MAX
        }),
        window::events_up_to(times.push(now), (now / 10) as int) <= u32::MAX,
    ensures
        ({
            let n = window::events_up_to(times.push(now), (now / 10) as int);
            let l = reasons_for(s, now, ip, rpm_cap, conn_cap);
            &&& decision::names(l, "SUBNET-RPM"@) <==> rpm_cap > 0 && n > rpm_cap
            &&& decision::gives(l, "SUBNET-RPM"@, 80) <==> rpm_cap > 0 && n > rpm_cap
        }),
{
    broadcast use decision::group_reasons;

    lemma_ids();
    let c = counter_at(s.counters, key_of(ip));
    window::lemma_window(c, times, now);
    window::lemma_total(window::after_hit(c, now), times.push(now));
    let t = swept(s, now);
    if counter_at(t.counters, key_of(ip)) != c {
        lemma_quiet(c, now);
    }
}

/// A network is flagged for its requests in flight exactly when they are more than its cap.
pub proof fn lemma_flight_flagged(s: SubnetView, now: u64, ip: IpAddr, rpm_cap: u32, conn_cap: i64)
    ensures
        ({
            let n = if s.in_flight.contains_key(key_of(ip)) {
                s.in_flight[key_of(ip)]
            } else {
                0
            };
            let l = reasons_for(s, now, ip, rpm_cap, conn_cap);
            &&& decision::names(l, "SUBNET-CONN"@) <==> conn_cap > 0 && n > conn_cap
            &&& decision::gives(l, "SUBNET-CONN"@, 70) <==> conn_cap > 0 && n > conn_cap
        }),
{
    broadcast use decision::group_reasons;

    lemma_ids();
}

/// A request that begins counts one for its network and for no other; one that ends takes one
/// away.
pub proof fn lemma_flight_counts(s: SubnetView, ip: IpAddr, other: IpAddr)
    requires
        0 < flying(s.in_flight, key_of(ip)) < i64::MAX,
    ensures
        flying(begun(s, ip).in_flight, key_of(ip)) == flying(s.in_flight, key_of(ip)) + 1,
        flying(ended(s, ip).in_flight, key_of(ip)) == flying(s.in_flight, key_of(ip)) - 1,
        net::subnet_number(ip) != net::subnet_number(other) ==> flying(begun(s, ip).in_flight, key_of(other)) == flying(
            s.in_flight,
            key_of(other),
        ) && flying(ended(s, ip).in_flight, key_of(other)) == flying(s.in_flight, key_of(other)),
{
    lemma_key(ip, other);
}

} // verus!
