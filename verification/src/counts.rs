//! Counts by text, with a bound on how many texts are counted.

use crate::sort::{self, sort_falling};
use dashmap::DashMap;
use vstd::prelude::*;

verus! {

/// How many texts are counted before one has to leave for a new one.
pub const PER_KEY_CAP: usize = 4096;

/// How many counts are looked at to find one that leaves.
pub const SAMPLE: usize = 32;

/// The texts and counts that a map holds.
pub uninterp spec fn counts_of(m: DashMap<String, u64>) -> Map<Seq<char>, u64>;

/// `DashMap::new`: an empty map.
#[verifier::external_body]
fn counts_new() -> (r: DashMap<String, u64>)
    ensures
        counts_of(r).dom() == Set::<Seq<char>>::empty(),
{
    DashMap::new()
}

/// `DashMap::get`: the count of a text, copied out of the guard.
#[verifier::external_body]
fn counts_get(m: &DashMap<String, u64>, key: &str) -> (r: Option<u64>)
    ensures
        r == if counts_of(*m).contains_key(key@) {
            Some(counts_of(*m)[key@])
        } else {
            None
        },
{
    m.get(key).map(|e| *e.value())
}

/// `DashMap::insert`: gives a text a count, in place of the one that it had.
#[verifier::external_body]
fn counts_insert(m: &mut DashMap<String, u64>, key: &str, n: u64)
    ensures
        counts_of(*final(m)) == counts_of(*old(m)).insert(key@, n),
{
    m.insert(key.to_string(), n);
}

/// `DashMap::remove`: forgets a text.
#[verifier::external_body]
fn counts_remove(m: &mut DashMap<String, u64>, key: &str)
    ensures
        counts_of(*final(m)) == counts_of(*old(m)).remove(key@),
{
    m.remove(key);
}

/// `DashMap::len`: the number of texts.
#[verifier::external_body]
fn counts_len(m: &DashMap<String, u64>) -> (r: usize)
    ensures
        r == counts_of(*m).dom().len(),
{
    m.len()
}

/// `DashMap::iter`, for at most `limit` items: texts with their counts, none twice, all of them
/// where they are fewer than `limit`. Which ones come, and in what order, is left open.
#[verifier::external_body]
fn counts_list(m: &DashMap<String, u64>, limit: usize) -> (r: Vec<(String, u64)>)
    ensures
        lists_some(counts_of(*m), item_views(r@), limit as nat),
{
    m.iter().take(limit).map(|e| (e.key().clone(), *e.value())).collect()
}

/// The texts and counts of a list.
pub open spec fn item_views(list: Seq<(String, u64)>) -> Seq<(Seq<char>, u64)> {
    Seq::new(list.len(), |i: int| (list[i].0@, list[i].1))
}

/// Whether a list holds `limit` items of a map, none twice, or all where there are fewer.
pub open spec fn lists_some(m: Map<Seq<char>, u64>, list: Seq<(Seq<char>, u64)>, limit: nat) -> bool {
    &&& list.len() <= limit
    &&& forall|i: int, j: int| 0 <= i < j < list.len() ==> list[i].0 != list[j].0
    &&& forall|i: int| 0 <= i < list.len() ==> m.contains_key((#[trigger] list[i]).0) && m[list[i].0] == list[i].1
    &&& list.len() < limit ==> forall|k: Seq<char>| #[trigger]
        m.contains_key(k) ==> list.contains((k, m[k]))
}

/// The item with the smallest count of a list, the first one of several; a count that cannot
/// grow any more is not chosen.
pub open spec fn smallest(list: Seq<(Seq<char>, u64)>) -> Option<Seq<char>>
    decreases list.len(),
{
    if list.len() == 0 {
        None
    } else {
        let before = smallest(list.drop_last());
        if list.last().1 < smallest_count(list.drop_last()) {
            Some(list.last().0)
        } else {
            before
        }
    }
}

/// The smallest count of a list.
pub open spec fn smallest_count(list: Seq<(Seq<char>, u64)>) -> u64
    decreases list.len(),
{
    if list.len() == 0 {
        u64::MAX
    } else {
        let before = smallest_count(list.drop_last());
        if list.last().1 < before {
            list.last().1
        } else {
            before
        }
    }
}

/// The place in a list of the item that leaves.
pub fn pick_smallest(list: &Vec<(String, u64)>) -> (r: Option<usize>)
    ensures
        r is Some <==> smallest(item_views(list@)) is Some,
        r matches Some(i) ==> i < list@.len() && smallest(item_views(list@)) == Some(list@[i as int].0@),
{
    let mut at: Option<usize> = None;
    let mut least: u64 = u64::MAX;
    let ghost all = item_views(list@);
    for i in 0..list.len()
        invariant
            all == item_views(list@),
            least == smallest_count(all.take(i as int)),
            at is Some <==> smallest(all.take(i as int)) is Some,
            at matches Some(j) ==> j < i && smallest(all.take(i as int)) == Some(list@[j as int].0@),
    {
        proof {
            assert(all.take(i + 1).drop_last() =~= all.take(i as int));
            assert(all.take(i + 1).last() == (list@[i as int].0@, list@[i as int].1));
        }
        if list[i].1 < least {
            least = list[i].1;
            at = Some(i);
        }
    }
    assert(all.take(all.len() as int) =~= all);
    at
}

proof fn lemma_smallest(list: Seq<(Seq<char>, u64)>)
    ensures
        smallest(list) matches Some(k) ==> exists|i: int| 0 <= i < list.len() && (#[trigger] list[i]).0 == k,
        smallest(list) is Some <==> smallest_count(list) < u64::MAX,
        forall|i: int| 0 <= i < list.len() ==> smallest_count(list) <= (#[trigger] list[i]).1,
    decreases list.len(),
{
    if list.len() > 0 {
        let rest = list.drop_last();
        lemma_smallest(rest);
        assert forall|i: int| 0 <= i < list.len() implies smallest_count(list) <= (#[trigger] list[i]).1 by {
            if i < rest.len() {
                assert(rest[i] == list[i]);
            }
        }
        if let Some(k) = smallest(list) {
            if list.last().1 < smallest_count(rest) {
                assert(list[list.len() - 1].0 == k);
            } else {
                let i = choose|i: int| 0 <= i < rest.len() && (#[trigger] rest[i]).0 == k;
                assert(list[i].0 == k);
            }
        }
    }
}

/// The counts without the item that leaves.
pub open spec fn without_smallest(m: Map<Seq<char>, u64>, sample: Seq<(Seq<char>, u64)>) -> Map<Seq<char>, u64> {
    match smallest(sample) {
        Some(k) => m.remove(k),
        None => m,
    }
}

/// Whether `n` is what one more occurrence of a text makes of the counts `m`. A full map first
/// loses the text with the smallest count among some of its items.
pub open spec fn bumped(m: Map<Seq<char>, u64>, n: Map<Seq<char>, u64>, key: Seq<char>) -> bool {
    if m.contains_key(key) {
        n == m.insert(key, m[key].wrapping_add(1))
    } else if m.dom().len() < PER_KEY_CAP {
        n == m.insert(key, 1)
    } else {
        exists|sample: Seq<(Seq<char>, u64)>| #[trigger]
            lists_some(m, sample, SAMPLE as nat) && n == without_smallest(m, sample).insert(key, 1)
    }
}

/// A map within the bound stays within it, as long as no count is exhausted.
pub proof fn lemma_bounded(m: Map<Seq<char>, u64>, n: Map<Seq<char>, u64>, key: Seq<char>)
    requires
        m.dom().finite(),
        m.dom().len() <= PER_KEY_CAP,
        forall|k: Seq<char>| #[trigger] m.contains_key(k) ==> m[k] < u64::MAX,
        bumped(m, n, key),
    ensures
        n.dom().finite(),
        n.dom().len() <= PER_KEY_CAP,
{
    if m.contains_key(key) {
        assert(n.dom() =~= m.dom());
    } else if m.dom().len() < PER_KEY_CAP {
        assert(n.dom() =~= m.dom().insert(key));
    } else {
        let sample = choose|sample: Seq<(Seq<char>, u64)>| #[trigger]
            lists_some(m, sample, SAMPLE as nat) && n == without_smallest(m, sample).insert(key, 1);
        lemma_smallest(sample);
        if sample.len() == 0 {
            let k = m.dom().choose();
            assert(m.contains_key(k));
            assert(sample.contains((k, m[k])));
        }
        assert(m.contains_key(sample[0].0));
        assert(smallest(sample) is Some);
        let victim = smallest(sample)->0;
        let i = choose|i: int| 0 <= i < sample.len() && (#[trigger] sample[i]).0 == victim;
        assert(m.contains_key(sample[i].0));
        assert(m.remove(victim).dom() =~= m.dom().remove(victim));
        assert(n.dom() =~= m.dom().remove(victim).insert(key));
    }
}

/// Whether a list holds the `n` texts of a map with the largest counts, the largest first; which
/// of several texts with one count come is left open.
pub open spec fn top_of(m: Map<Seq<char>, u64>, list: Seq<(Seq<char>, u64)>, n: nat) -> bool {
    exists|all: Seq<(Seq<char>, u64)>| #[trigger]
        sort::falling(all) && lists_all(m, all) && list == all.take(
            if all.len() < n {
                all.len() as int
            } else {
                n as int
            },
        )
}

/// Whether a list holds every item of a map once.
pub open spec fn lists_all(m: Map<Seq<char>, u64>, list: Seq<(Seq<char>, u64)>) -> bool {
    &&& forall|i: int, j: int| 0 <= i < j < list.len() ==> list[i].0 != list[j].0
    &&& forall|i: int| 0 <= i < list.len() ==> m.contains_key((#[trigger] list[i]).0) && m[list[i].0] == list[i].1
    &&& forall|k: Seq<char>| #[trigger] m.contains_key(k) ==> list.contains((k, m[k]))
}

pub struct Counts {
    map: DashMap<String, u64>,
}

impl View for Counts {
    type V = Map<Seq<char>, u64>;

    closed spec fn view(&self) -> Map<Seq<char>, u64> {
        counts_of(self.map)
    }
}

impl Counts {
    pub closed spec fn wf(&self) -> bool {
        counts_of(self.map).dom().finite()
    }

    pub fn new() -> (r: Counts)
        ensures
            r.wf(),
            r@ == Map::<Seq<char>, u64>::empty(),
    {
        let r = Counts { map: counts_new() };
        assert(r@ =~= Map::<Seq<char>, u64>::empty());
        r
    }

    pub fn len(&self) -> (r: usize)
        ensures
            r == self@.dom().len(),
    {
        counts_len(&self.map)
    }

    /// Counts one more occurrence of a text.
    pub fn bump(&mut self, key: &str)
        requires
            old(self).wf(),
        ensures
            final(self).wf(),
            bumped(old(self)@, final(self)@, key@),
    {
        let ghost m = self@;
        match counts_get(&self.map, key) {
            Some(n) => {
                counts_insert(&mut self.map, key, n.wrapping_add(1));
                assert(self@.dom() =~= m.dom().insert(key@));
            },
            None => {
                if counts_len(&self.map) >= PER_KEY_CAP {
                    let sample = counts_list(&self.map, SAMPLE);
                    let ghost views = item_views(sample@);
                    assert(lists_some(m, views, SAMPLE as nat));
                    if let Some(i) = pick_smallest(&sample) {
                        counts_remove(&mut self.map, sample[i].0.as_str());
                    }
                    assert(self@ == without_smallest(m, views));
                    assert(self@.dom().finite()) by {
                        if let Some(k) = smallest(views) {
                            assert(self@.dom() =~= m.dom().remove(k));
                        }
                    }
                }
                let ghost room = self@;
                counts_insert(&mut self.map, key, 1);
                assert(self@.dom() =~= room.dom().insert(key@));
            },
        }
    }

    /// The `n` texts with the largest counts, the largest first.
    pub fn top(&self, n: usize) -> (r: Vec<(String, u64)>)
        requires
            self.wf(),
        ensures
            top_of(self@, item_views(r@), n as nat),
    {
        let ghost m = self@;
        let size: usize = counts_len(&self.map);
        let list = counts_list(&self.map, usize::MAX);
        let ghost some = item_views(list@);
        let ghost raw = list@;
        proof {
            assert(size == m.dom().len());
            if some.len() == usize::MAX {
                lemma_distinct_keys(m, some);
            }
            assert(lists_all(m, some));
        }
        let sorted = sort_falling(list);
        let ghost all = item_views(sorted@);
        proof {
            assert(sort::falling(all)) by {
                assert forall|i: int, j: int| 0 <= i < j < all.len() implies (#[trigger] all[i]).1 >= (
                #[trigger] all[j]).1 by {
                    assert(sorted@[i].1 >= sorted@[j].1);
                }
            }
            lemma_permuted(m, raw, sorted@);
        }
        let k: usize = if sorted.len() < n {
            sorted.len()
        } else {
            n
        };
        let mut out: Vec<(String, u64)> = Vec::new();
        for i in 0..k
            invariant
                k <= sorted@.len(),
                out@.len() == i,
                forall|j: int|
                    0 <= j < i ==> (#[trigger] out@[j]).0@ == sorted@[j].0@ && out@[j].1 == sorted@[j].1,
        {
            out.push((sorted[i].0.clone(), sorted[i].1));
        }
        assert(item_views(out@) =~= all.take(k as int));
        assert(sort::falling(all) && lists_all(m, all));
        out
    }
}

proof fn lemma_distinct_keys(m: Map<Seq<char>, u64>, list: Seq<(Seq<char>, u64)>)
    requires
        m.dom().finite(),
        forall|i: int, j: int| 0 <= i < j < list.len() ==> list[i].0 != list[j].0,
        forall|i: int| 0 <= i < list.len() ==> m.contains_key((#[trigger] list[i]).0),
        forall|i: int| 0 <= i < list.len() ==> m[(#[trigger] list[i]).0] == list[i].1,
        list.len() >= m.dom().len(),
    ensures
        forall|k: Seq<char>| #[trigger] m.contains_key(k) ==> list.contains((k, m[k])),
{
    let keys = Seq::new(list.len(), |i: int| list[i].0);
    assert(keys.no_duplicates());
    keys.unique_seq_to_set();
    assert(keys.to_set().subset_of(m.dom())) by {
        assert forall|k: Seq<char>| keys.to_set().contains(k) implies m.dom().contains(k) by {
            let i = choose|i: int| 0 <= i < keys.len() && keys[i] == k;
            assert(m.contains_key(list[i].0));
        }
    }
    vstd::set_lib::lemma_len_subset(keys.to_set(), m.dom());
    vstd::set_lib::lemma_subset_equality(keys.to_set(), m.dom());
    assert forall|k: Seq<char>| #[trigger] m.contains_key(k) implies list.contains((k, m[k])) by {
        assert(keys.to_set().contains(k));
        let i = choose|i: int| 0 <= i < keys.len() && keys[i] == k;
        assert(list[i] == (k, m[k]));
    }
}

proof fn lemma_permuted(m: Map<Seq<char>, u64>, raw: Seq<(String, u64)>, sorted: Seq<(String, u64)>)
    requires
        lists_all(m, item_views(raw)),
        raw.no_duplicates() ==> sorted.no_duplicates(),
        forall|item: (String, u64)| #[trigger] sorted.contains(item) <==> raw.contains(item),
    ensures
        lists_all(m, item_views(sorted)),
{
    let a = item_views(raw);
    let b = item_views(sorted);
    assert(raw.no_duplicates()) by {
        assert forall|i: int, j: int| 0 <= i < raw.len() && 0 <= j < raw.len() && i != j implies raw[i] != raw[j] by {
            if i < j {
                assert(a[i].0 != a[j].0);
            } else {
                assert(a[j].0 != a[i].0);
            }
        }
    }
    assert forall|i: int| 0 <= i < b.len() implies m.contains_key((#[trigger] b[i]).0) && m[b[i].0] == b[i].1 by {
        assert(sorted.contains(sorted[i]));
        let j = choose|j: int| 0 <= j < raw.len() && raw[j] == sorted[i];
        assert(m.contains_key(a[j].0));
    }
    assert forall|i: int, j: int| 0 <= i < j < b.len() implies b[i].0 != b[j].0 by {
        assert(sorted.contains(sorted[i]) && sorted.contains(sorted[j]));
        let p = choose|p: int| 0 <= p < raw.len() && raw[p] == sorted[i];
        let q = choose|q: int| 0 <= q < raw.len() && raw[q] == sorted[j];
        assert(sorted[i] != sorted[j]);
        if p < q {
            assert(a[p].0 != a[q].0);
        } else {
            assert(a[q].0 != a[p].0);
        }
    }
    assert forall|k: Seq<char>| #[trigger] m.contains_key(k) implies b.contains((k, m[k])) by {
        assert(a.contains((k, m[k])));
        let p = choose|p: int| 0 <= p < a.len() && a[p] == (k, m[k]);
        assert(raw.contains(raw[p]));
        assert(sorted.contains(raw[p]));
        let q = choose|q: int| 0 <= q < sorted.len() && sorted[q] == raw[p];
        assert(b[q] == (k, m[k]));
    }
}

// ---------------------------------------------------------------------------
// Laws
// ---------------------------------------------------------------------------

/// One more occurrence counts one for its text. The others keep their counts, unless the map holds
/// 4096 texts already and the text is new: then at most one of them leaves.
pub proof fn lemma_counted(m: Map<Seq<char>, u64>, n: Map<Seq<char>, u64>, key: Seq<char>, other: Seq<char>)
    requires
        bumped(m, n, key),
        other != key,
    ensures
        n.contains_key(key),
        !m.contains_key(key) ==> n[key] == 1,
        m.contains_key(key) && m[key] < u64::MAX ==> n[key] == m[key] + 1,
        n.contains_key(other) ==> m.contains_key(other) && n[other] == m[other],
        m.contains_key(key) || m.dom().len() < 4096 ==> (n.contains_key(other) <==> m.contains_key(other)),
{
}

/// The text that leaves has the smallest count of those that were looked at.
pub proof fn lemma_smallest_leaves(
    m: Map<Seq<char>, u64>,
    sample: Seq<(Seq<char>, u64)>,
    key: Seq<char>,
    i: int,
)
    requires
        lists_some(m, sample, 32),
        m.contains_key(key),
        !without_smallest(m, sample).contains_key(key),
        0 <= i < sample.len(),
    ensures
        m[key] <= sample[i].1,
        exists|j: int| 0 <= j < sample.len() && (#[trigger] sample[j]).0 == key,
{
    lemma_smallest(sample);
    lemma_smallest_count(sample);
}

proof fn lemma_smallest_count(list: Seq<(Seq<char>, u64)>)
    ensures
        smallest(list) matches Some(k) ==> exists|i: int|
            0 <= i < list.len() && #[trigger] list[i] == (k, smallest_count(list)),
    decreases list.len(),
{
    if list.len() > 0 {
        let rest = list.drop_last();
        lemma_smallest_count(rest);
        if let Some(k) = smallest(list) {
            if list.last().1 < smallest_count(rest) {
                assert(list[list.len() - 1] == (k, smallest_count(list)));
            } else {
                let i = choose|i: int| 0 <= i < rest.len() && #[trigger] rest[i] == (k, smallest_count(rest));
                assert(list[i] == (k, smallest_count(list)));
            }
        }
    }
}

/// The top of a map is ordered by the counts, each with the count that it has, and what is not in it
/// has no larger one.
pub proof fn lemma_top(m: Map<Seq<char>, u64>, list: Seq<(Seq<char>, u64)>, n: nat, k: Seq<char>)
    requires
        top_of(m, list, n),
    ensures
        list.len() <= n,
        forall|i: int, j: int| 0 <= i < j < list.len() ==> (#[trigger] list[i]).1 >= (#[trigger] list[j]).1,
        forall|i: int| 0 <= i < list.len() ==> m.contains_key((#[trigger] list[i]).0) && m[list[i].0] == list[i].1,
        m.contains_key(k) && list.len() < n ==> list.contains((k, m[k])),
        m.contains_key(k) && !list.contains((k, m[k])) ==> forall|i: int| 0 <= i < list.len() ==> (#[trigger] list[i]).1
            >= m[k],
{
    let all = choose|all: Seq<(Seq<char>, u64)>| #[trigger]
        sort::falling(all) && lists_all(m, all) && list == all.take(
            if all.len() < n {
                all.len() as int
            } else {
                n as int
            },
        );
    if m.contains_key(k) {
        let j = choose|j: int| 0 <= j < all.len() && all[j] == (k, m[k]);
        if j < list.len() {
            assert(list[j] == (k, m[k]));
        }
    }
    assert forall|i: int| 0 <= i < list.len() implies m.contains_key((#[trigger] list[i]).0) && m[list[i].0]
        == list[i].1 by {
        assert(list[i] == all[i]);
    }
    assert forall|i: int, j: int| 0 <= i < j < list.len() implies (#[trigger] list[i]).1 >= (#[trigger] list[j]).1 by {
        assert(list[i] == all[i] && list[j] == all[j]);
    }
    if m.contains_key(k) && !list.contains((k, m[k])) {
        let j = choose|j: int| 0 <= j < all.len() && all[j] == (k, m[k]);
        assert forall|i: int| 0 <= i < list.len() implies (#[trigger] list[i]).1 >= m[k] by {
            assert(list[i] == all[i]);
            assert(all[i].1 >= all[j].1);
        }
    }
}

} // verus!
