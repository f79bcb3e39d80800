//! Keyed storage. A `Table` keeps one record per key: a `DashMap` finds the slot of a key, and
//! the records themselves stand in a vector whose freed slots are used again.

use dashmap::DashMap;
use vstd::prelude::*;

verus! {

/// `dashmap::DashMap`, a hash map.
#[verifier::external_type_specification]
#[verifier::external_body]
#[verifier::reject_recursive_types(K)]
#[verifier::reject_recursive_types(V)]
#[verifier::reject_recursive_types(S)]
pub struct ExDashMap<K, V, S>(DashMap<K, V, S>);

/// What a key of a table is: two numbers.
pub type Key = (u64, u128);

/// The pairs that a map holds.
pub uninterp spec fn index_of(m: DashMap<(u64, u128), usize>) -> Map<(u64, u128), usize>;

/// `DashMap::new`: an empty map.
#[verifier::external_body]
fn index_new() -> (r: DashMap<(u64, u128), usize>)
    ensures
        index_of(r).dom() == Set::<Key>::empty(),
{
    DashMap::new()
}

/// `DashMap::get`: the value behind a key, copied out of the guard.
#[verifier::external_body]
fn index_get(m: &DashMap<(u64, u128), usize>, k: (u64, u128)) -> (r: Option<usize>)
    ensures
        r == if index_of(*m).contains_key(k) {
            Some(index_of(*m)[k])
        } else {
            None
        },
{
    m.get(&k).map(|e| *e.value())
}

/// `DashMap::insert`: binds a key to a value, in place of what it was bound to.
#[verifier::external_body]
fn index_insert(m: &mut DashMap<(u64, u128), usize>, k: (u64, u128), v: usize)
    ensures
        index_of(*final(m)) == index_of(*old(m)).insert(k, v),
{
    m.insert(k, v);
}

/// `DashMap::remove`: unbinds a key.
#[verifier::external_body]
fn index_remove(m: &mut DashMap<(u64, u128), usize>, k: (u64, u128))
    ensures
        index_of(*final(m)) == index_of(*old(m)).remove(k),
{
    m.remove(&k);
}

/// `DashMap::len`: the number of pairs.
#[verifier::external_body]
fn index_len(m: &DashMap<(u64, u128), usize>) -> (r: usize)
    ensures
        r == index_of(*m).dom().len(),
{
    m.len()
}

/// `DashMap::iter`: the keys, each once, in an order that is left open.
#[verifier::external_body]
fn index_keys(m: &DashMap<(u64, u128), usize>) -> (r: Vec<(u64, u128)>)
    ensures
        r@.no_duplicates(),
        forall|k: (u64, u128)| #[trigger] r@.contains(k) <==> index_of(*m).contains_key(k),
{
    m.iter().map(|e| *e.key()).collect()
}

/// One record per key.
#[verifier::reject_recursive_types(T)]
pub struct Table<T: View> {
    index: DashMap<(u64, u128), usize>,
    slots: Vec<Option<T>>,
    free: Vec<usize>,
}

/// The part of `m` whose values satisfy `pred`.
pub open spec fn kept<V>(m: Map<Key, V>, pred: spec_fn(V) -> bool) -> Map<Key, V> {
    Map::new(|k: Key| m.contains_key(k) && pred(m[k]), |k: Key| m[k])
}

impl<T: View> View for Table<T> {
    type V = Map<Key, T::V>;

    closed spec fn view(&self) -> Map<Key, T::V> {
        Map::new(
            |k: Key| index_of(self.index).contains_key(k),
            |k: Key| self.slots@[index_of(self.index)[k] as int]->0@,
        )
    }
}

impl<T: View> Table<T> {
    /// Every key has a filled slot of its own, and the freed slots are empty and listed once.
    pub closed spec fn wf(&self) -> bool {
        let idx = index_of(self.index);
        &&& idx.dom().finite()
        &&& forall|k: Key| #[trigger]
            idx.contains_key(k) ==> idx[k] < self.slots@.len() && self.slots@[idx[k] as int] is Some
        &&& forall|a: Key, b: Key| #[trigger]
            idx.contains_key(a) && #[trigger] idx.contains_key(b) && a != b ==> idx[a] != idx[b]
        &&& forall|i: int|
            0 <= i < self.free@.len() ==> (#[trigger] self.free@[i]) < self.slots@.len()
                && self.slots@[self.free@[i] as int] is None
        &&& self.free@.no_duplicates()
    }

    pub fn new() -> (r: Self)
        ensures
            r.wf(),
            r@ == Map::<Key, T::V>::empty(),
    {
        let r = Table { index: index_new(), slots: Vec::new(), free: Vec::new() };
        assert(r@ =~= Map::<Key, T::V>::empty());
        r
    }

    /// The number of keys.
    pub fn len(&self) -> (r: usize)
        requires
            self.wf(),
        ensures
            self@.dom().finite(),
            r == self@.dom().len(),
    {
        assert(self@.dom() =~= index_of(self.index).dom());
        index_len(&self.index)
    }

    /// The record of a key.
    pub fn get(&self, k: Key) -> (r: Option<&T>)
        requires
            self.wf(),
        ensures
            match r {
                Some(t) => self@.contains_key(k) && t@ == self@[k],
                None => !self@.contains_key(k),
            },
    {
        match index_get(&self.index, k) {
            Some(i) => {
                assert(index_of(self.index).contains_key(k));
                self.slots[i].as_ref()
            },
            None => None,
        }
    }

    /// Takes the record of a key out of the table.
    pub fn take(&mut self, k: Key) -> (r: Option<T>)
        requires
            old(self).wf(),
        ensures
            final(self).wf(),
            final(self)@ == old(self)@.remove(k),
            match r {
                Some(t) => old(self)@.contains_key(k) && t@ == old(self)@[k],
                None => !old(self)@.contains_key(k),
            },
    {
        match index_get(&self.index, k) {
            Some(i) => {
                let ghost idx = index_of(self.index);
                assert(idx.contains_key(k));
                let mut out: Option<T> = None;
                self.slots.push(None);
                out = self.slots.swap_remove(i);
                assert(self.slots@ =~= old(self).slots@.update(i as int, None));
                index_remove(&mut self.index, k);
                proof {
                    if self.free@.contains(i) {
                        let j = choose|j: int| 0 <= j < self.free@.len() && self.free@[j] == i;
                        assert(old(self).slots@[old(self).free@[j] as int] is None);
                    }
                }
                self.free.push(i);
                assert(self.wf()) by {
                    let now = index_of(self.index);
                    assert forall|a: Key| #[trigger] now.contains_key(a) implies now[a]
                        < self.slots@.len() && self.slots@[now[a] as int] is Some by {
                        assert(idx.contains_key(a) && a != k);
                    }
                }
                assert(self@ =~= old(self)@.remove(k)) by {
                    let now = index_of(self.index);
                    assert forall|a: Key| now.contains_key(a) implies self@[a]
                        == old(self)@.remove(k)[a] by {
                        assert(idx.contains_key(a) && a != k);
                    }
                }
                out
            },
            None => {
                assert(self@.remove(k) =~= self@);
                None
            },
        }
    }

    /// Stores a record under a key, in place of the one that stands there.
    pub fn put(&mut self, k: Key, t: T)
        requires
            old(self).wf(),
        ensures
            final(self).wf(),
            final(self)@ == old(self)@.insert(k, t@),
    {
        let ghost idx = index_of(self.index);
        match index_get(&self.index, k) {
            Some(i) => {
                assert(idx.contains_key(k));
                self.slots.set(i, Some(t));
                assert(self.wf()) by {
                    assert forall|j: int| 0 <= j < self.free@.len() implies (
                    #[trigger] self.free@[j]) < self.slots@.len()
                        && self.slots@[self.free@[j] as int] is None by {
                        assert(old(self).slots@[old(self).free@[j] as int] is None);
                    }
                }
                assert(self@ =~= old(self)@.insert(k, t@)) by {
                    assert forall|a: Key| idx.contains_key(a) && a != k implies self@[a]
                        == old(self)@[a] by {
                        assert(idx[a] != idx[k]);
                    }
                }
            },
            None => {
                let i: usize = match self.free.pop() {
                    Some(i) => {
                        assert(old(self).free@[old(self).free@.len() - 1] == i);
                        assert(old(self).slots@[i as int] is None);
                        self.slots.set(i, Some(t));
                        i
                    },
                    None => {
                        let i: usize = self.slots.len();
                        self.slots.push(Some(t));
                        i
                    },
                };
                index_insert(&mut self.index, k, i);
                assert(self.wf()) by {
                    let now = index_of(self.index);
                    assert forall|a: Key| #[trigger] now.contains_key(a) implies now[a]
                        < self.slots@.len() && self.slots@[now[a] as int] is Some by {
                        if a != k {
                            assert(idx.contains_key(a));
                        }
                    }
                    assert forall|a: Key, b: Key| #[trigger]
                        now.contains_key(a) && #[trigger] now.contains_key(b) && a
                            != b implies now[a] != now[b] by {
                        assert(a != k ==> idx.contains_key(a));
                        assert(b != k ==> idx.contains_key(b));
                    }
                    assert forall|j: int| 0 <= j < self.free@.len() implies (
                    #[trigger] self.free@[j]) < self.slots@.len()
                        && self.slots@[self.free@[j] as int] is None by {
                        assert(old(self).free@[j] == self.free@[j]);
                    }
                }
                assert(self@ =~= old(self)@.insert(k, t@)) by {
                    assert forall|a: Key| idx.contains_key(a) implies self@[a] == old(self)@[a] by {
                        assert(idx[a] != i);
                    }
                }
            },
        }
    }

    /// The keys, each once.
    pub fn keys(&self) -> (r: Vec<Key>)
        ensures
            r@.no_duplicates(),
            forall|k: Key| #[trigger] r@.contains(k) <==> self@.contains_key(k),
    {
        index_keys(&self.index)
    }

    /// Drops the records that do not satisfy `keep` with the given argument.
    pub fn retain<A: Copy, F: Fn(&T, A) -> bool>(
        &mut self,
        arg: A,
        keep: F,
        Ghost(pred): Ghost<spec_fn(T::V) -> bool>,
    )
        requires
            old(self).wf(),
            forall|t: &T| #[trigger] call_requires(keep, (t, arg)),
            forall|t: &T, b: bool| #[trigger] call_ensures(keep, (t, arg), b) ==> b == pred(t@),
        ensures
            final(self).wf(),
            final(self)@ == kept(old(self)@, pred),
    {
        let keys = self.keys();
        let ghost before = self@;
        let mut i: usize = 0;
        assert forall|j: int| 0 <= j < keys@.len() implies before.contains_key(
            #[trigger] keys@[j],
        ) by {
            assert(keys@.contains(keys@[j]));
        }
        while i < keys.len()
            invariant
                i <= keys@.len(),
                self.wf(),
                before == old(self)@,
                forall|t: &T| #[trigger] call_requires(keep, (t, arg)),
                forall|t: &T, b: bool| #[trigger] call_ensures(keep, (t, arg), b) ==> b == pred(t@),
                keys@.no_duplicates(),
                forall|k: Key| #[trigger] keys@.contains(k) <==> before.contains_key(k),
                forall|k: Key| #[trigger]
                    self@.contains_key(k) ==> before.contains_key(k) && self@[k] == before[k],
                forall|j: int|
                    0 <= j < i ==> (self@.contains_key(#[trigger] keys@[j]) <==> pred(
                        before[keys@[j]],
                    )),
                forall|j: int| i <= j < keys@.len() ==> self@.contains_key(#[trigger] keys@[j]),
            decreases keys@.len() - i,
        {
            let k = keys[i];
            let stays = match self.get(k) {
                Some(t) => keep(t, arg),
                None => false,
            };
            if !stays {
                let _ = self.take(k);
            }
            i += 1;
        }
        assert(self@ =~= kept(before, pred)) by {
            assert forall|k: Key| self@.contains_key(k) <==> kept(before, pred).contains_key(k) by {
                if before.contains_key(k) {
                    assert(keys@.contains(k));
                    let j = choose|j: int| 0 <= j < keys@.len() && keys@[j] == k;
                    assert(keys@[j] == k);
                }
            }
        }
    }
}

} // verus!
