//! Counting events in a sliding window.
//!
//! A `Counter` splits the window into six buckets of ten seconds; the count is the sum of the
//! bucket that an event falls into and the five before it. A `Recent` counts by the second.

use vstd::prelude::*;

verus! {

pub const BUCKETS: usize = 6;

pub const BUCKET_SECS: u64 = 10;

#[derive(Debug)]
pub struct Counter {
    buckets: [u32; 6],
    head_secs: u64,
}

#[verifier::ext_equal]
pub struct CounterView {
    /// The events of each bucket; the bucket with the number `n` stands at `n % 6`.
    pub buckets: Seq<u32>,
    /// The time of the latest event.
    pub head: u64,
}

impl View for Counter {
    type V = CounterView;

    closed spec fn view(&self) -> CounterView {
        CounterView { buckets: self.buckets@, head: self.head_secs }
    }
}

/// The counter that has seen no event.
pub open spec fn fresh() -> CounterView {
    CounterView { buckets: seq![0u32, 0u32, 0u32, 0u32, 0u32, 0u32], head: 0 }
}

/// How many buckets the time `now` lies behind the latest event.
pub open spec fn drift(head: u64, now: u64) -> int {
    if now / 10 > head / 10 {
        now / 10 - head / 10
    } else {
        0
    }
}

/// The buckets at `now`: those that the time went past are empty.
pub open spec fn rolled(c: CounterView, now: u64) -> Seq<u32> {
    Seq::new(
        6,
        |i: int|
            if (i - c.head / 10 - 1) % 6 < drift(c.head, now) {
                0
            } else {
                c.buckets[i]
            },
    )
}

pub open spec fn one_more(n: u32) -> u32 {
    if n < u32::MAX {
        (n + 1) as u32
    } else {
        n
    }
}

/// The counter after an event at `now`.
pub open spec fn after_hit(c: CounterView, now: u64) -> CounterView {
    let at = (now / 10) as int % 6;
    let r = rolled(c, now);
    CounterView { buckets: r.update(at, one_more(r[at])), head: now }
}

/// The events of all buckets, kept at the largest count.
pub open spec fn total(b: Seq<u32>) -> u32 {
    let sum = b[0] + b[1] + b[2] + b[3] + b[4] + b[5];
    if sum > u32::MAX {
        u32::MAX
    } else {
        sum as u32
    }
}

/// How many of the events fell into the bucket with the number `n`.
pub open spec fn events_in(times: Seq<u64>, n: int) -> nat
    decreases times.len(),
{
    if times.len() == 0 {
        0
    } else {
        events_in(times.drop_last(), n) + if times.last() / 10 == n {
            1nat
        } else {
            0
        }
    }
}

/// Whether the counter holds, of a list of events, those of the latest six buckets.
pub open spec fn represents(c: CounterView, times: Seq<u64>) -> bool {
    &&& c.buckets.len() == 6
    &&& forall|i: int| 0 <= i < times.len() ==> #[trigger] times[i] <= c.head
    &&& forall|n: int|
        c.head / 10 - 6 < n <= c.head / 10 && 0 <= n ==> c.buckets[n % 6] == #[trigger] events_in(times, n)
    &&& forall|n: int|
        c.head / 10 - 6 < n < 0 ==> #[trigger] c.buckets[n % 6] == 0
}

/// A counter that saw the events of a list in the order of time counts those of the latest six
/// buckets, as long as no bucket is full.
pub proof fn lemma_window(c: CounterView, times: Seq<u64>, now: u64)
    requires
        represents(c, times),
        c.head <= now,
        forall|i: int| 0 <= i < 6 ==> #[trigger] c.buckets[i] < u32::MAX,
    ensures
        represents(after_hit(c, now), times.push(now)),
{
    let d = after_hit(c, now);
    let all = times.push(now);
    let hb = (c.head / 10) as int;
    let nb = (now / 10) as int;
    assert(all.drop_last() =~= times);
    assert forall|i: int| 0 <= i < all.len() implies #[trigger] all[i] <= d.head by {
        if i < times.len() {
            assert(all[i] == times[i]);
        }
    }
    assert forall|n: int| nb - 6 < n <= nb && 0 <= n implies d.buckets[n % 6] == #[trigger] events_in(all, n) by {
        if n > hb {
            lemma_none_after(times, c.head, n);
            assert((n % 6 - hb - 1) % 6 < drift(c.head, now)) by {
                lemma_mod_shift(n, hb);
            }
        } else {
            assert(c.buckets[n % 6] == events_in(times, n));
            assert((n % 6 - hb - 1) % 6 >= drift(c.head, now)) by {
                lemma_mod_shift(n, hb);
            }
        }
    }
    assert forall|n: int| nb - 6 < n < 0 implies #[trigger] d.buckets[n % 6] == 0 by {
        if n > hb - 6 {
            assert(c.buckets[n % 6] == 0);
        }
        assert(n % 6 != nb % 6);
    }
}

proof fn lemma_mod_shift(n: int, h: int)
    ensures
        (n % 6 - h - 1) % 6 == (n - h - 1) % 6,
{
}

proof fn lemma_none_after(times: Seq<u64>, head: u64, n: int)
    requires
        forall|i: int| 0 <= i < times.len() ==> #[trigger] times[i] <= head,
        n > head / 10,
    ensures
        events_in(times, n) == 0,
    decreases times.len(),
{
    if times.len() > 0 {
        let rest = times.drop_last();
        assert forall|i: int| 0 <= i < rest.len() implies #[trigger] rest[i] <= head by {
            assert(rest[i] == times[i]);
        }
        lemma_none_after(rest, head, n);
        assert(times.last() == times[times.len() - 1]);
    }
}

/// How many of the events fell into the bucket with the number `last` or one of the five before.
pub open spec fn events_up_to(times: Seq<u64>, last: int) -> nat
    decreases times.len(),
{
    if times.len() == 0 {
        0
    } else {
        events_up_to(times.drop_last(), last) + if last - 6 < times.last() / 10 <= last {
            1nat
        } else {
            0
        }
    }
}

proof fn lemma_buckets_sum(times: Seq<u64>, last: int)
    ensures
        events_up_to(times, last) == events_in(times, last) + events_in(times, last - 1) + events_in(times, last - 2)
            + events_in(times, last - 3) + events_in(times, last - 4) + events_in(times, last - 5),
    decreases times.len(),
{
    if times.len() > 0 {
        lemma_buckets_sum(times.drop_last(), last);
    }
}

proof fn lemma_none_before(times: Seq<u64>, n: int)
    requires
        n < 0,
    ensures
        events_in(times, n) == 0,
    decreases times.len(),
{
    if times.len() > 0 {
        lemma_none_before(times.drop_last(), n);
    }
}

proof fn lemma_bucket(c: CounterView, times: Seq<u64>, n: int)
    requires
        represents(c, times),
        c.head / 10 - 6 < n <= c.head / 10,
    ensures
        c.buckets[n % 6] == events_in(times, n),
{
    if n < 0 {
        lemma_none_before(times, n);
        assert(c.buckets[n % 6] == 0);
    }
}

/// What a counter shows is the number of events in the latest six buckets, as far as it can hold
/// it.
pub proof fn lemma_total(c: CounterView, times: Seq<u64>)
    requires
        represents(c, times),
        events_up_to(times, (c.head / 10) as int) <= u32::MAX,
    ensures
        total(c.buckets) == events_up_to(times, (c.head / 10) as int),
{
    let h = (c.head / 10) as int;
    lemma_buckets_sum(times, h);
    lemma_bucket(c, times, h);
    lemma_bucket(c, times, h - 1);
    lemma_bucket(c, times, h - 2);
    lemma_bucket(c, times, h - 3);
    lemma_bucket(c, times, h - 4);
    lemma_bucket(c, times, h - 5);
    let b = c.buckets;
    let r = h % 6;
    assert(b[0] + b[1] + b[2] + b[3] + b[4] + b[5] == b[h % 6] + b[(h - 1) % 6] + b[(h - 2) % 6] + b[(h - 3) % 6]
        + b[(h - 4) % 6] + b[(h - 5) % 6]) by {
        assert((h - 1) % 6 == (r + 5) % 6);
        assert((h - 2) % 6 == (r + 4) % 6);
        assert((h - 3) % 6 == (r + 3) % 6);
        assert((h - 4) % 6 == (r + 2) % 6);
        assert((h - 5) % 6 == (r + 1) % 6);
        assert(r == 0 || r == 1 || r == 2 || r == 3 || r == 4 || r == 5);
    }
}

/// A fresh counter holds no events.
pub proof fn lemma_fresh()
    ensures
        represents(fresh(), Seq::<u64>::empty()),
{
    assert forall|n: int| -6 < n < 0 implies #[trigger] fresh().buckets[n % 6] == 0 by {}
}

impl Counter {
    pub fn new() -> (r: Counter)
        ensures
            r@ == fresh(),
    {
        let r = Counter { buckets: [0, 0, 0, 0, 0, 0], head_secs: 0 };
        assert(r.buckets@ =~= fresh().buckets);
        r
    }

    /// The time of the latest event.
    pub fn head(&self) -> (r: u64)
        ensures
            r == self@.head,
    {
        self.head_secs
    }

    /// The events of all buckets.
    pub fn current(&self) -> (r: u32)
        ensures
            r == total(self@.buckets),
    {
        let b = &self.buckets;
        let sum: u64 = b[0] as u64 + b[1] as u64 + b[2] as u64 + b[3] as u64 + b[4] as u64 + b[5] as u64;
        if sum > u32::MAX as u64 {
            u32::MAX
        } else {
            sum as u32
        }
    }

    /// Counts an event and returns how many the window now holds.
    pub fn hit(&mut self, now: u64) -> (r: u32)
        ensures
            final(self)@ == after_hit(old(self)@, now),
            r == total(final(self)@.buckets),
    {
        let head_bucket: u64 = self.head_secs / BUCKET_SECS;
        let now_bucket: u64 = now / BUCKET_SECS;
        let drifted: u64 = now_bucket.saturating_sub(head_bucket);
        let steps: u64 = if drifted >= 6 {
            6
        } else {
            drifted
        };
        let mut k: u64 = 0;
        while k < steps
            invariant
                k <= steps <= 6,
                head_bucket == old(self)@.head / 10,
                self.head_secs == old(self)@.head,
                forall|i: int|
                    0 <= i < 6 ==> #[trigger] self.buckets@[i] == if (i - head_bucket - 1) % 6 < k {
                        0
                    } else {
                        old(self)@.buckets[i]
                    },
            decreases steps - k,
        {
            let idx: usize = ((head_bucket % 6 + k + 1) % 6) as usize;
            self.buckets[idx] = 0;
            k += 1;
        }
        self.head_secs = now;
        let idx: usize = (now_bucket % 6) as usize;
        let n: u32 = self.buckets[idx].saturating_add(1);
        self.buckets[idx] = n;
        assert(self.buckets@ =~= after_hit(old(self)@, now).buckets);
        self.current()
    }
}

/// Whether `now` lies no more than `span` seconds after `t`.
pub open spec fn not_past(t: u64, now: u64, span: u64) -> bool {
    now <= t || now - t <= span
}

/// The times of a list that lie no more than `span` seconds back.
pub open spec fn still(times: Seq<u64>, now: u64, span: u64) -> Seq<u64>
    decreases times.len(),
{
    if times.len() == 0 {
        seq![]
    } else if not_past(times.last(), now, span) {
        still(times.drop_last(), now, span).push(times.last())
    } else {
        still(times.drop_last(), now, span)
    }
}

/// A time, as often as it is counted.
pub open spec fn repeated(t: u64, n: u32) -> Seq<u64> {
    Seq::new(n as nat, |i: int| t)
}

/// The times that a list of seconds and counts stands for.
pub open spec fn spread(slots: Seq<(u64, u32)>) -> Seq<u64>
    decreases slots.len(),
{
    if slots.len() == 0 {
        seq![]
    } else {
        spread(slots.drop_last()) + repeated(slots.last().0, slots.last().1)
    }
}

proof fn lemma_spread_push(slots: Seq<(u64, u32)>, t: u64, n: u32)
    ensures
        spread(slots.push((t, n))) == spread(slots) + repeated(t, n),
{
    assert(slots.push((t, n)).drop_last() =~= slots);
}

proof fn lemma_still_repeated(times: Seq<u64>, t: u64, n: u32, now: u64, span: u64)
    ensures
        still(times + repeated(t, n), now, span) == still(times, now, span) + if not_past(t, now, span) {
            repeated(t, n)
        } else {
            seq![]
        },
    decreases n,
{
    let all = times + repeated(t, n);
    if n == 0 {
        assert(all =~= times);
        assert(repeated(t, 0) =~= seq![]);
    } else {
        let m = (n - 1) as u32;
        lemma_still_repeated(times, t, m, now, span);
        assert(all.drop_last() =~= times + repeated(t, m));
        assert(repeated(t, m).push(t) =~= repeated(t, n));
    }
    assert(still(all, now, span) =~= still(times, now, span) + if not_past(t, now, span) {
        repeated(t, n)
    } else {
        seq![]
    });
}

/// The times that are left lie no more than `span` seconds back, and there are no more of them.
pub proof fn lemma_still(times: Seq<u64>, now: u64, span: u64)
    ensures
        still(times, now, span).len() <= times.len(),
        forall|i: int| 0 <= i < still(times, now, span).len() ==> not_past(#[trigger] still(times, now, span)[i], now, span),
    decreases times.len(),
{
    if times.len() > 0 {
        lemma_still(times.drop_last(), now, span);
    }
}

/// What lies in the window now is what lay in it before and is not past: nothing that left the
/// window comes back as time goes on.
pub proof fn lemma_still_twice(times: Seq<u64>, now: u64, later: u64, span: u64)
    requires
        now <= later,
    ensures
        still(still(times, now, span), later, span) == still(times, later, span),
    decreases times.len(),
{
    if times.len() > 0 {
        lemma_still_twice(times.drop_last(), now, later, span);
        if not_past(times.last(), now, span) {
            let s = still(times.drop_last(), now, span);
            assert(s.push(times.last()).drop_last() =~= s);
        }
    }
}

/// A number of events, kept at the largest count.
pub open spec fn capped(n: nat) -> u32 {
    if n < u32::MAX {
        n as u32
    } else {
        u32::MAX
    }
}

/// The events of the latest seconds, counted by the second. The view is the time of each event.
#[derive(Debug)]
pub struct Recent {
    slots: Vec<(u64, u32)>,
}

impl View for Recent {
    type V = Seq<u64>;

    closed spec fn view(&self) -> Seq<u64> {
        spread(self.slots@)
    }
}

impl Recent {
    pub fn new() -> (r: Recent)
        ensures
            r@ == Seq::<u64>::empty(),
    {
        Recent { slots: Vec::new() }
    }

    /// Forgets what lies more than `span` seconds back.
    pub fn forget(&mut self, now: u64, span: u64)
        ensures
            final(self)@ == still(old(self)@, now, span),
    {
        let mut left: Vec<(u64, u32)> = Vec::new();
        let n: usize = self.slots.len();
        for i in 0..n
            invariant
                n == self.slots@.len(),
                spread(left@) == still(spread(self.slots@.take(i as int)), now, span),
        {
            let (t, k): (u64, u32) = self.slots[i];
            proof {
                assert(self.slots@.take(i + 1) =~= self.slots@.take(i as int).push((t, k)));
                lemma_spread_push(self.slots@.take(i as int), t, k);
                lemma_still_repeated(spread(self.slots@.take(i as int)), t, k, now, span);
                lemma_spread_push(left@, t, k);
                assert(spread(left@) + seq![] =~= spread(left@));
            }
            if now <= t || now - t <= span {
                left.push((t, k));
            }
        }
        assert(self.slots@.take(n as int) =~= self.slots@);
        self.slots = left;
    }

    /// Forgets what lies more than `span` seconds back, and adds an event.
    pub fn hit(&mut self, now: u64, span: u64)
        ensures
            final(self)@ == still(old(self)@, now, span).push(now),
    {
        self.forget(now, span);
        let ghost kept = self.slots@;
        let n: usize = self.slots.len();
        if n > 0 && self.slots[n - 1].0 == now && self.slots[n - 1].1 < u32::MAX {
            let k: u32 = self.slots[n - 1].1;
            self.slots.set(n - 1, (now, k + 1));
            assert(self.slots@ =~= kept.drop_last().push((now, (k + 1) as u32)));
            proof {
                lemma_spread_push(kept.drop_last(), now, (k + 1) as u32);
            }
            assert(repeated(now, k).push(now) =~= repeated(now, (k + 1) as u32));
            assert(self@ =~= spread(kept).push(now));
        } else {
            self.slots.push((now, 1));
            proof {
                lemma_spread_push(kept, now, 1);
            }
            assert(repeated(now, 1) =~= seq![now]);
            assert(self@ =~= spread(kept).push(now));
        }
    }

    /// The number of events.
    pub fn count(&self) -> (r: u32)
        ensures
            r == capped(self@.len()),
    {
        let mut sum: u32 = 0;
        let n: usize = self.slots.len();
        for i in 0..n
            invariant
                n == self.slots@.len(),
                sum == capped(spread(self.slots@.take(i as int)).len()),
        {
            proof {
                let (t, k) = self.slots@[i as int];
                assert(self.slots@.take(i + 1) =~= self.slots@.take(i as int).push((t, k)));
                lemma_spread_push(self.slots@.take(i as int), t, k);
            }
            sum = sum.saturating_add(self.slots[i].1);
        }
        assert(self.slots@.take(n as int) =~= self.slots@);
        sum
    }

    /// Whether some event lies no more than `span` seconds back.
    pub fn lively(&self, now: u64, span: u64) -> (r: bool)
        ensures
            r == (still(self@, now, span).len() > 0),
    {
        let n: usize = self.slots.len();
        let mut found = false;
        for i in 0..n
            invariant
                n == self.slots@.len(),
                found == (still(spread(self.slots@.take(i as int)), now, span).len() > 0),
        {
            let (t, k): (u64, u32) = self.slots[i];
            proof {
                assert(self.slots@.take(i + 1) =~= self.slots@.take(i as int).push((t, k)));
                lemma_spread_push(self.slots@.take(i as int), t, k);
                lemma_still_repeated(spread(self.slots@.take(i as int)), t, k, now, span);
            }
            if (now <= t || now - t <= span) && k > 0 {
                found = true;
            }
        }
        assert(self.slots@.take(n as int) =~= self.slots@);
        found
    }
}

// ---------------------------------------------------------------------------
// Laws
// ---------------------------------------------------------------------------

/// What lies in the window stays in it.
pub proof fn lemma_still_all(times: Seq<u64>, now: u64, span: u64)
    requires
        forall|i: int| 0 <= i < times.len() ==> now - (#[trigger] times[i]) <= span,
    ensures
        still(times, now, span) == times,
    decreases times.len(),
{
    if times.len() > 0 {
        let rest = times.drop_last();
        assert forall|i: int| 0 <= i < rest.len() implies now - (#[trigger] rest[i]) <= span by {
            assert(rest[i] == times[i]);
        }
        lemma_still_all(rest, now, span);
        assert(times.last() == times[times.len() - 1]);
        assert(rest.push(times.last()) =~= times);
    }
}

/// What lies further back has left the window.
pub proof fn lemma_still_none(times: Seq<u64>, now: u64, span: u64)
    requires
        forall|i: int| 0 <= i < times.len() ==> now - (#[trigger] times[i]) > span,
    ensures
        still(times, now, span).len() == 0,
    decreases times.len(),
{
    if times.len() > 0 {
        let rest = times.drop_last();
        assert forall|i: int| 0 <= i < rest.len() implies now - (#[trigger] rest[i]) > span by {
            assert(rest[i] == times[i]);
        }
        lemma_still_none(rest, now, span);
        assert(times.last() == times[times.len() - 1]);
    }
}

} // verus!
