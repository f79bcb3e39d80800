//! Counters for the dashboard.

use crate::clock::now_secs;
use crate::counts::{self, Counts};
use crate::decision::Action;
use crate::subnet;
use crate::window;
use vstd::prelude::*;

verus! {

/// Seconds of history.
pub const RING_BUCKETS: usize = 60;

/// How many entries each list of a snapshot has.
pub const TOP_COUNT: usize = 20;

#[derive(Debug, Clone, Copy, PartialEq, Eq, Structural)]
pub struct Bucket {
    pub allowed: u32,
    pub challenged: u32,
    pub blocked: u32,
}

impl Default for Bucket {
    fn default() -> (r: Bucket)
        ensures
            r == no_events(),
    {
        Bucket { allowed: 0, challenged: 0, blocked: 0 }
    }
}

pub open spec fn no_events() -> Bucket {
    Bucket { allowed: 0, challenged: 0, blocked: 0 }
}

/// The decisions of the last minute by the second.
#[derive(Debug)]
pub struct Ring {
    pub buckets: [Bucket; 60],
    pub head_secs: u64,
}

#[verifier::ext_equal]
pub struct RingView {
    /// The second `t` stands at `t % 60`.
    pub buckets: Seq<Bucket>,
    pub head: u64,
}

impl View for Ring {
    type V = RingView;

    open spec fn view(&self) -> RingView {
        RingView { buckets: self.buckets@, head: self.head_secs }
    }
}

impl Default for Ring {
    fn default() -> (r: Ring)
        ensures
            r@ == (RingView { buckets: Seq::new(60, |i: int| no_events()), head: 0 }),
    {
        let empty = Bucket { allowed: 0, challenged: 0, blocked: 0 };
        let r = Ring { buckets: [empty; 60], head_secs: 0 };
        assert(r@.buckets =~= Seq::new(60, |i: int| no_events()));
        r
    }
}

/// A bucket with one more decision. Tarpits count as blocks.
pub open spec fn with_action(b: Bucket, action: Action) -> Bucket {
    match action {
        Action::Allow => Bucket { allowed: window::one_more(b.allowed), ..b },
        Action::Challenge => Bucket { challenged: window::one_more(b.challenged), ..b },
        Action::Block | Action::Tarpit => Bucket { blocked: window::one_more(b.blocked), ..b },
    }
}

/// The second from which the ring counts on: a ring that saw nothing starts now.
pub open spec fn ring_start(r: RingView, now: u64) -> u64 {
    if r.head == 0 {
        now
    } else {
        r.head
    }
}

/// The buckets at `now`: those of the seconds that passed are empty.
pub open spec fn ring_rolled(r: RingView, now: u64) -> Seq<Bucket> {
    Seq::new(
        60,
        |i: int|
            if (i - ring_start(r, now) - 1) % 60 < subnet::since(now, ring_start(r, now)) {
                no_events()
            } else {
                r.buckets[i]
            },
    )
}

/// The ring after a decision at `now`.
pub open spec fn ring_recorded(r: RingView, now: u64, action: Action) -> RingView {
    let at = now as int % 60;
    let b = ring_rolled(r, now);
    RingView { buckets: b.update(at, with_action(b[at], action)), head: now }
}

impl Ring {
    /// Counts a decision at a given time.
    pub fn record_at(&mut self, now: u64, action: Action)
        ensures
            final(self)@ == ring_recorded(old(self)@, now, action),
    {
        let start: u64 = if self.head_secs == 0 {
            now
        } else {
            self.head_secs
        };
        let drift: u64 = now.saturating_sub(start);
        let steps: u64 = if drift >= 60 {
            60
        } else {
            drift
        };
        let mut k: u64 = 0;
        while k < steps
            invariant
                k <= steps <= 60,
                start == ring_start(old(self)@, now),
                forall|i: int|
                    0 <= i < 60 ==> #[trigger] self.buckets@[i] == if (i - start - 1) % 60 < k {
                        no_events()
                    } else {
                        old(self)@.buckets[i]
                    },
            decreases steps - k,
        {
            let idx: usize = ((start % 60 + k + 1) % 60) as usize;
            self.buckets[idx] = Bucket { allowed: 0, challenged: 0, blocked: 0 };
            k += 1;
        }
        self.head_secs = now;
        let idx: usize = (now % 60) as usize;
        let b = self.buckets[idx];
        let next = match action {
            Action::Allow => Bucket { allowed: b.allowed.saturating_add(1), ..b },
            Action::Challenge => Bucket { challenged: b.challenged.saturating_add(1), ..b },
            Action::Block | Action::Tarpit => Bucket { blocked: b.blocked.saturating_add(1), ..b },
        };
        self.buckets[idx] = next;
        assert(self.buckets@ =~= ring_recorded(old(self)@, now, action).buckets);
    }
}

pub struct Metrics {
    pub allowed: u64,
    pub challenged: u64,
    pub blocked: u64,
    pub tarpit: u64,
    pub rate_limited: u64,
    pub upstream_errors: u64,
    pub by_ip: Counts,
    pub by_path: Counts,
    pub by_country: Counts,
    pub by_rule: Counts,
    pub ring: Ring,
}

/// The counts after an occurrence of a text, if there is one.
pub open spec fn bumped_by(m: Map<Seq<char>, u64>, n: Map<Seq<char>, u64>, key: Option<Seq<char>>) -> bool {
    match key {
        Some(k) => counts::bumped(m, n, k),
        None => n == m,
    }
}

/// Whether `b` is what a decision at `now` makes of the counters `a`.
pub open spec fn recorded(
    a: Metrics,
    b: Metrics,
    now: u64,
    action: Action,
    ip: Seq<char>,
    path: Seq<char>,
    country: Option<Seq<char>>,
    rule: Option<Seq<char>>,
) -> bool {
    &&& b.allowed == if action == Action::Allow {
        a.allowed.wrapping_add(1)
    } else {
        a.allowed
    }
    &&& b.challenged == if action == Action::Challenge {
        a.challenged.wrapping_add(1)
    } else {
        a.challenged
    }
    &&& b.blocked == if action == Action::Block {
        a.blocked.wrapping_add(1)
    } else {
        a.blocked
    }
    &&& b.tarpit == if action == Action::Tarpit {
        a.tarpit.wrapping_add(1)
    } else {
        a.tarpit
    }
    &&& b.rate_limited == a.rate_limited
    &&& b.upstream_errors == a.upstream_errors
    &&& counts::bumped(a.by_ip@, b.by_ip@, ip)
    &&& counts::bumped(a.by_path@, b.by_path@, path)
    &&& bumped_by(a.by_country@, b.by_country@, country)
    &&& bumped_by(a.by_rule@, b.by_rule@, rule)
    &&& b.ring@ == ring_recorded(a.ring@, now, action)
}

pub struct Snapshot {
    pub allowed: u64,
    pub challenged: u64,
    pub blocked: u64,
    pub tarpit: u64,
    pub rate_limited: u64,
    pub upstream_errors: u64,
    pub unique_ips: u64,
    pub unique_paths: u64,
    pub unique_countries: u64,
    pub top_ips: Vec<(String, u64)>,
    pub top_paths: Vec<(String, u64)>,
    pub top_countries: Vec<(String, u64)>,
    pub top_rules: Vec<(String, u64)>,
    pub ring: Vec<Bucket>,
}

/// Whether a snapshot shows the counters as they are.
pub open spec fn summarizes(r: Snapshot, m: Metrics) -> bool {
    &&& r.allowed == m.allowed
    &&& r.challenged == m.challenged
    &&& r.blocked == m.blocked
    &&& r.tarpit == m.tarpit
    &&& r.rate_limited == m.rate_limited
    &&& r.upstream_errors == m.upstream_errors
    &&& r.unique_ips == m.by_ip@.dom().len()
    &&& r.unique_paths == m.by_path@.dom().len()
    &&& r.unique_countries == m.by_country@.dom().len()
    &&& counts::top_of(m.by_ip@, counts::item_views(r.top_ips@), TOP_COUNT as nat)
    &&& counts::top_of(m.by_path@, counts::item_views(r.top_paths@), TOP_COUNT as nat)
    &&& counts::top_of(m.by_country@, counts::item_views(r.top_countries@), TOP_COUNT as nat)
    &&& counts::top_of(m.by_rule@, counts::item_views(r.top_rules@), TOP_COUNT as nat)
    &&& r.ring@ == m.ring@.buckets
}

/// The view of an optional text.
pub open spec fn opt_text(s: Option<&str>) -> Option<Seq<char>> {
    match s {
        Some(s) => Some(s@),
        None => None,
    }
}

/// Whether the counters stand where they start.
pub open spec fn nothing_counted(m: Metrics) -> bool {
    &&& m.allowed == 0
    &&& m.challenged == 0
    &&& m.blocked == 0
    &&& m.tarpit == 0
    &&& m.rate_limited == 0
    &&& m.upstream_errors == 0
    &&& m.by_ip@ == Map::<Seq<char>, u64>::empty()
    &&& m.by_path@ == Map::<Seq<char>, u64>::empty()
    &&& m.by_country@ == Map::<Seq<char>, u64>::empty()
    &&& m.by_rule@ == Map::<Seq<char>, u64>::empty()
    &&& m.ring@ == (RingView { buckets: Seq::new(60, |i: int| no_events()), head: 0 })
}

impl Default for Metrics {
    fn default() -> (r: Metrics)
        ensures
            r.wf(),
            nothing_counted(r),
    {
        Metrics::new()
    }
}

impl Metrics {
    pub open spec fn wf(&self) -> bool {
        self.by_ip.wf() && self.by_path.wf() && self.by_country.wf() && self.by_rule.wf()
    }

    pub fn new() -> (r: Metrics)
        ensures
            r.wf(),
            nothing_counted(r),
    {
        Metrics {
            allowed: 0,
            challenged: 0,
            blocked: 0,
            tarpit: 0,
            rate_limited: 0,
            upstream_errors: 0,
            by_ip: Counts::new(),
            by_path: Counts::new(),
            by_country: Counts::new(),
            by_rule: Counts::new(),
            ring: Ring::default(),
        }
    }

    /// Counts a decision at a given time.
    pub fn record_at(
        &mut self,
        now: u64,
        action: Action,
        ip: &str,
        path: &str,
        country: Option<&str>,
        rule: Option<&str>,
    )
        requires
            old(self).wf(),
        ensures
            final(self).wf(),
            recorded(*old(self), *final(self), now, action, ip@, path@, opt_text(country), opt_text(rule)),
    {
        match action {
            Action::Allow => {
                self.allowed = self.allowed.wrapping_add(1);
            },
            Action::Challenge => {
                self.challenged = self.challenged.wrapping_add(1);
            },
            Action::Block => {
                self.blocked = self.blocked.wrapping_add(1);
            },
            Action::Tarpit => {
                self.tarpit = self.tarpit.wrapping_add(1);
            },
        }
        self.by_ip.bump(ip);
        self.by_path.bump(path);
        if let Some(c) = country {
            self.by_country.bump(c);
        }
        if let Some(r) = rule {
            self.by_rule.bump(r);
        }
        self.ring.record_at(now, action);
    }

    /// Counts a decision.
    pub fn record(&mut self, action: Action, ip: &str, path: &str, country: Option<&str>, rule: Option<&str>)
        requires
            old(self).wf(),
        ensures
            final(self).wf(),
            exists|now: u64| #[trigger]
                recorded(*old(self), *final(self), now, action, ip@, path@, opt_text(country), opt_text(rule)),
    {
        self.record_at(now_secs(), action, ip, path, country, rule)
    }

    pub fn snapshot(&self) -> (r: Snapshot)
        requires
            self.wf(),
        ensures
            summarizes(r, *self),
    {
        let mut ring: Vec<Bucket> = Vec::new();
        for i in 0..60usize
            invariant
                ring@ == self.ring.buckets@.take(i as int),
        {
            ring.push(self.ring.buckets[i]);
            assert(ring@ =~= self.ring.buckets@.take(i + 1));
        }
        assert(ring@ =~= self.ring@.buckets);
        Snapshot {
            allowed: self.allowed,
            challenged: self.challenged,
            blocked: self.blocked,
            tarpit: self.tarpit,
            rate_limited: self.rate_limited,
            upstream_errors: self.upstream_errors,
            unique_ips: self.by_ip.len() as u64,
            unique_paths: self.by_path.len() as u64,
            unique_countries: self.by_country.len() as u64,
            top_ips: self.by_ip.top(TOP_COUNT),
            top_paths: self.by_path.top(TOP_COUNT),
            top_countries: self.by_country.top(TOP_COUNT),
            top_rules: self.by_rule.top(TOP_COUNT),
            ring,
        }
    }
}

// ---------------------------------------------------------------------------
// Laws
// ---------------------------------------------------------------------------

/// A decision is counted once, under its own kind.
pub proof fn lemma_counted_once(
    a: Metrics,
    b: Metrics,
    now: u64,
    action: Action,
    ip: Seq<char>,
    path: Seq<char>,
    country: Option<Seq<char>>,
    rule: Option<Seq<char>>,
)
    requires
        recorded(a, b, now, action, ip, path, country, rule),
        a.allowed < u64::MAX,
        a.challenged < u64::MAX,
        a.blocked < u64::MAX,
        a.tarpit < u64::MAX,
    ensures
        b.allowed + b.challenged + b.blocked + b.tarpit == a.allowed + a.challenged + a.blocked + a.tarpit + 1,
        action == Action::Allow <==> b.allowed == a.allowed + 1,
        action == Action::Challenge <==> b.challenged == a.challenged + 1,
        action == Action::Block <==> b.blocked == a.blocked + 1,
        action == Action::Tarpit <==> b.tarpit == a.tarpit + 1,
        b.rate_limited == a.rate_limited,
        b.upstream_errors == a.upstream_errors,
        country is None ==> b.by_country@ == a.by_country@,
        rule is None ==> b.by_rule@ == a.by_rule@,
        b.by_ip@.contains_key(ip),
        b.by_path@.contains_key(path),
        country is Some ==> b.by_country@.contains_key(country->0),
        rule is Some ==> b.by_rule@.contains_key(rule->0),
{
}

/// The ring counts a decision in its own second: of the last minute, the seconds up to the one before
/// keep their counts, those that passed without a decision are empty, and the running one counts one
/// more of its kind. Held requests count as blocked.
pub proof fn lemma_ring_counts(r: RingView, now: u64, action: Action, t: u64)
    requires
        r.buckets.len() == 60,
        0 < r.head <= now,
        now < t + 60,
        t <= now,
    ensures
        ({
            let b = ring_recorded(r, now, action).buckets;
            let before = if t <= r.head {
                r.buckets[t as int % 60]
            } else {
                no_events()
            };
            &&& t < now ==> b[t as int % 60] == before
            &&& t == now && action == Action::Allow && before.allowed < u32::MAX ==> b[t as int % 60] == (Bucket {
                allowed: (before.allowed + 1) as u32,
                ..before
            })
            &&& t == now && action == Action::Challenge && before.challenged < u32::MAX ==> b[t as int % 60] == (
            Bucket { challenged: (before.challenged + 1) as u32, ..before })
            &&& t == now && (action == Action::Block || action == Action::Tarpit) && before.blocked < u32::MAX
                ==> b[t as int % 60] == (Bucket { blocked: (before.blocked + 1) as u32, ..before })
            &&& ring_recorded(r, now, action).head == now
        }),
{
    let i = t as int % 60;
    let h = r.head as int;
    assert((i - h - 1) % 60 == (t - h - 1) % 60);
    if t > h {
        assert((t - h - 1) % 60 <= t - h - 1);
    } else {
        assert((t - h - 1) % 60 == t - h - 1 + 60);
    }
    if t < now {
        assert(t as int % 60 != now as int % 60);
    }
}

/// A snapshot shows the totals as they are, and of each list the twenty most frequent at most.
pub proof fn lemma_snapshot_shows(r: Snapshot, m: Metrics)
    requires
        summarizes(r, m),
    ensures
        r.allowed == m.allowed,
        r.challenged == m.challenged,
        r.blocked == m.blocked,
        r.tarpit == m.tarpit,
        r.rate_limited == m.rate_limited,
        r.upstream_errors == m.upstream_errors,
        r.unique_ips == m.by_ip@.dom().len(),
        r.top_ips@.len() <= 20,
        r.top_paths@.len() <= 20,
        r.top_countries@.len() <= 20,
        r.top_rules@.len() <= 20,
        forall|i: int| 0 <= i < r.top_ips@.len() ==> m.by_ip@.contains_key((#[trigger] r.top_ips@[i]).0@)
            && m.by_ip@[r.top_ips@[i].0@] == r.top_ips@[i].1,
{
    let ips = counts::item_views(r.top_ips@);
    counts::lemma_top(m.by_ip@, ips, 20, seq![]);
    counts::lemma_top(m.by_path@, counts::item_views(r.top_paths@), 20, seq![]);
    counts::lemma_top(m.by_country@, counts::item_views(r.top_countries@), 20, seq![]);
    counts::lemma_top(m.by_rule@, counts::item_views(r.top_rules@), 20, seq![]);
    assert forall|i: int| 0 <= i < r.top_ips@.len() implies m.by_ip@.contains_key((#[trigger] r.top_ips@[i]).0@)
        && m.by_ip@[r.top_ips@[i].0@] == r.top_ips@[i].1 by {
        assert(ips[i] == (r.top_ips@[i].0@, r.top_ips@[i].1));
    }
}

/// The first decision of a ring is counted in its own second, and nothing is cleared for it.
pub proof fn lemma_ring_starts(now: u64, action: Action, i: int)
    requires
        0 <= i < 60,
        i != now as int % 60,
    ensures
        ({
            let r = RingView { buckets: Seq::new(60, |j: int| no_events()), head: 0 };
            let b = ring_recorded(r, now, action).buckets;
            let at = b[now as int % 60];
            &&& b[i] == no_events()
            &&& at.allowed + at.challenged + at.blocked == 1
            &&& at.allowed == 1 <==> action == Action::Allow
            &&& at.challenged == 1 <==> action == Action::Challenge
        }),
{
}

} // verus!
