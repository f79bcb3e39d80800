//! In-flight requests per address, with their sum.

use crate::net::IpAddr;
use crate::table::{self, Key, Table};
use vstd::prelude::*;

verus! {

/// How many addresses are tracked before new ones are turned away.
pub const MAX_TRACKED: usize = 150_000;

/// What `inc` answers for an address that cannot be tracked any more.
pub const TOO_MANY: i64 = 999999;

/// The sum of the values of a finite map.
pub open spec fn sum_of(m: Map<Key, i64>) -> int
    decreases m.dom().len(),
    when m.dom().finite()
{
    if m.dom().len() == 0 {
        0
    } else {
        let k = m.dom().choose();
        m[k] + sum_of(m.remove(k))
    }
}

/// The sum is the value of any one key and the sum of the rest.
pub proof fn lemma_sum_remove(m: Map<Key, i64>, k: Key)
    requires
        m.dom().finite(),
        m.contains_key(k),
    ensures
        sum_of(m) == m[k] + sum_of(m.remove(k)),
    decreases m.dom().len(),
{
    assert(m.dom().contains(k));
    if m.dom().len() == 0 {
        assert(m.dom() =~= Set::<Key>::empty());
    }
    let c = m.dom().choose();
    assert(m.dom().contains(c));
    assert(m.remove(c).dom() =~= m.dom().remove(c));
    assert(m.remove(k).dom() =~= m.dom().remove(k));
    if c != k {
        lemma_sum_remove(m.remove(c), k);
        lemma_sum_remove(m.remove(k), c);
        assert(m.remove(c).remove(k) =~= m.remove(k).remove(c));
    }
}

/// Giving a key a value changes the sum by the difference to the old value.
pub proof fn lemma_sum_insert(m: Map<Key, i64>, k: Key, v: i64)
    requires
        m.dom().finite(),
    ensures
        sum_of(m.insert(k, v)) == sum_of(m) + v - (if m.contains_key(k) {
            m[k] as int
        } else {
            0
        }),
{
    let n = m.insert(k, v);
    assert(n.dom() =~= m.dom().insert(k));
    lemma_sum_remove(n, k);
    if m.contains_key(k) {
        lemma_sum_remove(m, k);
        assert(n.remove(k) =~= m.remove(k));
    } else {
        assert(n.remove(k) =~= m);
    }
}

/// Dropping the keys whose value is zero leaves the sum as it is.
pub proof fn lemma_sum_kept(m: Map<Key, i64>)
    requires
        m.dom().finite(),
        forall|k: Key| #[trigger] m.contains_key(k) ==> m[k] >= 0,
    ensures
        table::kept(m, |v: i64| v > 0).dom().finite(),
        sum_of(table::kept(m, |v: i64| v > 0)) == sum_of(m),
    decreases m.dom().len(),
{
    let pred = |v: i64| v > 0;
    let r = table::kept(m, pred);
    assert(r.dom() =~= m.dom().filter(|k: Key| pred(m[k])));
    if m.dom().len() == 0 {
        assert(r =~= m);
    } else {
        let k = m.dom().choose();
        assert(m.contains_key(k));
        let rest = m.remove(k);
        assert(rest.dom() =~= m.dom().remove(k));
        assert forall|j: Key| #[trigger] rest.contains_key(j) implies rest[j] >= 0 by {
            assert(m.contains_key(j));
        }
        lemma_sum_kept(rest);
        if m[k] > 0 {
            assert(table::kept(rest, pred) =~= r.remove(k));
            lemma_sum_remove(r, k);
        } else {
            assert(table::kept(rest, pred) =~= r);
        }
    }
}

/// No count of a sum of counts is larger than the sum.
pub proof fn lemma_sum_bounds(m: Map<Key, i64>, k: Key)
    requires
        m.dom().finite(),
        forall|j: Key| #[trigger] m.contains_key(j) ==> m[j] >= 0,
    ensures
        sum_of(m) >= 0,
        m.contains_key(k) ==> m[k] <= sum_of(m),
    decreases m.dom().len(),
{
    if m.dom().len() > 0 {
        let c = m.dom().choose();
        assert(m.contains_key(c));
        let rest = m.remove(c);
        assert(rest.dom() =~= m.dom().remove(c));
        assert forall|j: Key| #[trigger] rest.contains_key(j) implies rest[j] >= 0 by {
            assert(m.contains_key(j));
        }
        lemma_sum_bounds(rest, k);
        if m.contains_key(k) && k != c {
            assert(rest.contains_key(k));
        }
    } else {
        assert(m.dom() =~= Set::<Key>::empty());
        assert(!m.dom().contains(k));
    }
}

/// The value of a key, or zero.
pub open spec fn count_at(m: Map<Key, i64>, k: Key) -> i64 {
    if m.contains_key(k) {
        m[k]
    } else {
        0
    }
}

/// Whether one more request of an address is turned away: the address is new and the table full.
pub open spec fn turned_away(m: Map<Key, i64>, k: Key) -> bool {
    !m.contains_key(k) && m.dom().len() > MAX_TRACKED
}

/// The counts after one more request of an address.
pub open spec fn entered(m: Map<Key, i64>, k: Key) -> Map<Key, i64> {
    if turned_away(m, k) {
        m
    } else {
        m.insert(k, (count_at(m, k) + 1) as i64)
    }
}

/// The counts after a request of an address has ended.
pub open spec fn left(m: Map<Key, i64>, k: Key) -> Map<Key, i64> {
    if m.contains_key(k) && m[k] > 0 {
        m.insert(k, (m[k] - 1) as i64)
    } else {
        m
    }
}

/// A request that was counted and has ended leaves every count as it was before.
pub proof fn lemma_enter_leave(m: Map<Key, i64>, k: Key, other: Key)
    requires
        0 <= count_at(m, k) < i64::MAX,
    ensures
        count_at(left(entered(m, k), k), other) == count_at(m, other),
{
}

fn above(v: &i64, bound: i64) -> (r: bool)
    ensures
        r == (*v > bound),
{
    *v > bound
}

pub struct ConnTracker {
    inner: Table<i64>,
    /// The sum of the counts, so that reading it takes no walk through the table.
    global: i64,
}

impl View for ConnTracker {
    type V = Map<Key, i64>;

    closed spec fn view(&self) -> Map<Key, i64> {
        self.inner@
    }
}

impl Default for ConnTracker {
    fn default() -> (r: ConnTracker)
        ensures
            r.wf(),
            r@ == Map::<Key, i64>::empty(),
    {
        ConnTracker::new()
    }
}

impl ConnTracker {
    /// No count is negative, and their sum is kept beside them.
    pub closed spec fn wf(&self) -> bool {
        &&& self.inner.wf()
        &&& self.inner@.dom().finite()
        &&& forall|k: Key| #[trigger] self.inner@.contains_key(k) ==> self.inner@[k] >= 0
        &&& self.global == sum_of(self.inner@)
    }

    pub fn new() -> (r: ConnTracker)
        ensures
            r.wf(),
            r@ == Map::<Key, i64>::empty(),
    {
        ConnTracker { inner: Table::new(), global: 0 }
    }

    /// Counts one more request of an address and returns how many it has now.
    pub fn inc(&mut self, ip: IpAddr) -> (r: i64)
        requires
            old(self).wf(),
            sum_of(old(self)@) < i64::MAX,
        ensures
            final(self).wf(),
            final(self)@ == entered(old(self)@, ip.spec_key()),
            sum_of(final(self)@) == sum_of(old(self)@) + (if turned_away(old(self)@, ip.spec_key()) {
                0int
            } else {
                1
            }),
            r == (if turned_away(old(self)@, ip.spec_key()) {
                TOO_MANY
            } else {
                count_at(final(self)@, ip.spec_key())
            }),
    {
        let k = ip.key();
        let ghost before = self.inner@;
        proof {
            lemma_sum_bounds(before, k);
        }
        let n: i64 = match self.inner.get(k) {
            Some(v) => *v + 1,
            None => {
                if self.inner.len() > MAX_TRACKED {
                    return TOO_MANY;
                }
                1
            },
        };
        self.inner.put(k, n);
        self.global = self.global + 1;
        proof {
            lemma_sum_insert(before, k, n);
            assert(self.inner@.dom() =~= before.dom().insert(k));
        }
        n
    }

    /// Notes that a request of an address has ended. Ending one too many changes nothing.
    pub fn dec(&mut self, ip: IpAddr)
        requires
            old(self).wf(),
        ensures
            final(self).wf(),
            final(self)@ == left(old(self)@, ip.spec_key()),
            sum_of(final(self)@) == sum_of(old(self)@) - (if count_at(old(self)@, ip.spec_key()) > 0 {
                1int
            } else {
                0
            }),
    {
        let k = ip.key();
        let ghost before = self.inner@;
        proof {
            lemma_sum_bounds(before, k);
        }
        let v: i64 = match self.inner.get(k) {
            Some(v) => *v,
            None => 0,
        };
        if v > 0 {
            self.inner.put(k, v - 1);
            self.global = self.global - 1;
            proof {
                lemma_sum_insert(before, k, (v - 1) as i64);
                assert(self.inner@.dom() =~= before.dom().insert(k));
            }
        }
    }

    pub fn current(&self, ip: IpAddr) -> (r: i64)
        requires
            self.wf(),
        ensures
            r == count_at(self@, ip.spec_key()),
            r >= 0,
    {
        match self.inner.get(ip.key()) {
            Some(v) => *v,
            None => 0,
        }
    }

    /// Drops the addresses without requests. No count and not the sum changes by that.
    pub fn gc(&mut self)
        requires
            old(self).wf(),
        ensures
            final(self).wf(),
            final(self)@ == table::kept(old(self)@, |v: i64| v > 0),
            sum_of(final(self)@) == sum_of(old(self)@),
            forall|k: Key| #[trigger] count_at(final(self)@, k) == count_at(old(self)@, k),
    {
        let ghost before = self.inner@;
        let ghost pred = |v: i64| v > 0;
        proof {
            lemma_sum_kept(before);
        }
        self.inner.retain(0i64, above, Ghost(pred));
        assert forall|k: Key| #[trigger] count_at(self.inner@, k) == count_at(before, k) by {
            if before.contains_key(k) && !self.inner@.contains_key(k) {
                assert(before[k] >= 0);
            }
        }
    }

    /// The sum of the requests of all addresses.
    pub fn total(&self) -> (r: i64)
        requires
            self.wf(),
        ensures
            r == sum_of(self@),
            r >= 0,
    {
        proof {
            lemma_sum_bounds(self.inner@, (0, 0));
        }
        self.global
    }
}

// ---------------------------------------------------------------------------
// Laws
// ---------------------------------------------------------------------------

/// A request that begins counts one for its address and for no other, unless the address is new and
/// the table full; one that ends takes one away, and no count goes below zero.
pub proof fn lemma_counts(m: Map<Key, i64>, k: Key, other: Key)
    requires
        0 <= count_at(m, k) < i64::MAX,
        other != k,
    ensures
        m.contains_key(k) || m.dom().len() <= 150_000 ==> count_at(entered(m, k), k) == count_at(m, k) + 1,
        !m.contains_key(k) && m.dom().len() > 150_000 ==> entered(m, k) == m,
        count_at(entered(m, k), other) == count_at(m, other),
        count_at(m, k) > 0 ==> count_at(left(m, k), k) == count_at(m, k) - 1,
        count_at(m, k) == 0 ==> left(m, k) == m,
        count_at(left(m, k), other) == count_at(m, other),
{
}

} // verus!
