//! Ordered lists of texts.

use crate::text::chars_of;
use vstd::prelude::*;

verus! {

/// Whether `a` stands before `b` or is equal to it in the order of their characters.
pub open spec fn text_le(a: Seq<char>, b: Seq<char>) -> bool
    decreases a.len(),
{
    if a.len() == 0 {
        true
    } else if b.len() == 0 {
        false
    } else if a[0] != b[0] {
        a[0] < b[0]
    } else {
        text_le(a.drop_first(), b.drop_first())
    }
}

pub fn not_after(a: &str, b: &str) -> (r: bool)
    ensures
        r == text_le(a@, b@),
{
    let x = chars_of(a);
    let y = chars_of(b);
    let mut i: usize = 0;
    assert(x@.skip(0) =~= x@ && y@.skip(0) =~= y@);
    while i < x.len()
        invariant
            i <= x@.len(),
            i <= y@.len(),
            x@ == a@,
            y@ == b@,
            text_le(a@, b@) == text_le(x@.skip(i as int), y@.skip(i as int)),
        decreases x@.len() - i,
    {
        if i >= y.len() {
            return false;
        }
        if x[i] != y[i] {
            return x[i] < y[i];
        }
        assert(x@.skip(i as int).drop_first() =~= x@.skip(i + 1));
        assert(y@.skip(i as int).drop_first() =~= y@.skip(i + 1));
        i += 1;
    }
    true
}

/// The order is total, and texts that stand before each other are equal.
pub proof fn lemma_text_le_total(a: Seq<char>, b: Seq<char>)
    ensures
        text_le(a, b) || text_le(b, a),
        text_le(a, b) && text_le(b, a) ==> a == b,
    decreases a.len(),
{
    if a.len() > 0 && b.len() > 0 && a[0] == b[0] {
        lemma_text_le_total(a.drop_first(), b.drop_first());
        if a.drop_first() == b.drop_first() {
            assert(a =~= seq![a[0]] + a.drop_first());
            assert(b =~= seq![b[0]] + b.drop_first());
        }
    } else if a.len() == 0 && b.len() == 0 {
        assert(a =~= b);
    }
}

pub proof fn lemma_text_le_trans(a: Seq<char>, b: Seq<char>, c: Seq<char>)
    requires
        text_le(a, b),
        text_le(b, c),
    ensures
        text_le(a, c),
    decreases a.len(),
{
    if a.len() > 0 && b.len() > 0 && c.len() > 0 && a[0] == b[0] && b[0] == c[0] {
        lemma_text_le_trans(a.drop_first(), b.drop_first(), c.drop_first());
    }
}

/// Whether every text stands before those that follow it.
pub open spec fn in_order(list: Seq<Seq<char>>) -> bool {
    forall|i: int, j: int| 0 <= i < j < list.len() ==> text_le(#[trigger] list[i], #[trigger] list[j])
}

/// The list with `t` put before the first text that it stands before.
pub open spec fn placed(list: Seq<Seq<char>>, t: Seq<char>) -> Seq<Seq<char>>
    decreases list.len(),
{
    if list.len() == 0 {
        seq![t]
    } else if text_le(t, list[0]) {
        seq![t] + list
    } else {
        seq![list[0]] + placed(list.drop_first(), t)
    }
}

/// The texts of a list in order.
pub open spec fn sorted(list: Seq<Seq<char>>) -> Seq<Seq<char>>
    decreases list.len(),
{
    if list.len() == 0 {
        seq![]
    } else {
        placed(sorted(list.drop_last()), list.last())
    }
}

proof fn lemma_placed(list: Seq<Seq<char>>, t: Seq<char>)
    requires
        in_order(list),
    ensures
        in_order(placed(list, t)),
        placed(list, t).to_multiset() == list.to_multiset().insert(t),
    decreases list.len(),
{
    broadcast use vstd::seq_lib::group_to_multiset_ensures;

    if list.len() == 0 {
        assert(placed(list, t) =~= list.push(t));
    } else if text_le(t, list[0]) {
        let r = seq![t] + list;
        assert(r =~= list.insert(0, t));
        assert forall|i: int, j: int| 0 <= i < j < r.len() implies text_le(#[trigger] r[i], #[trigger] r[j]) by {
            assert(r[j] == list[j - 1]);
            if i == 0 {
                if j > 1 {
                    assert(text_le(list[0], list[j - 1]));
                    lemma_text_le_trans(t, list[0], list[j - 1]);
                }
            } else {
                assert(r[i] == list[i - 1]);
            }
        }
    } else {
        let rest = list.drop_first();
        assert forall|i: int, j: int| 0 <= i < j < rest.len() implies text_le(
            #[trigger] rest[i],
            #[trigger] rest[j],
        ) by {
            assert(rest[i] == list[i + 1] && rest[j] == list[j + 1]);
        }
        lemma_placed(rest, t);
        let tail = placed(rest, t);
        let r = seq![list[0]] + tail;
        assert(r =~= tail.insert(0, list[0]));
        assert(list =~= rest.insert(0, list[0]));
        assert(r.to_multiset() =~= list.to_multiset().insert(t));
        assert forall|i: int, j: int| 0 <= i < j < r.len() implies text_le(#[trigger] r[i], #[trigger] r[j]) by {
            assert(r[j] == tail[j - 1]);
            if i == 0 {
                assert(tail.to_multiset().contains(tail[j - 1]));
                if tail[j - 1] != t {
                    assert(rest.to_multiset().contains(tail[j - 1]));
                    assert(rest.contains(tail[j - 1]));
                    let k = choose|k: int| 0 <= k < rest.len() && rest[k] == tail[j - 1];
                    assert(rest[k] == list[k + 1]);
                    assert(text_le(list[0], list[k + 1]));
                } else {
                    lemma_text_le_total(t, list[0]);
                }
            } else {
                assert(r[i] == tail[i - 1]);
            }
        }
    }
}

/// Sorting orders a list and keeps its texts.
pub proof fn lemma_sorted(list: Seq<Seq<char>>)
    ensures
        in_order(sorted(list)),
        sorted(list).to_multiset() == list.to_multiset(),
    decreases list.len(),
{
    broadcast use vstd::seq_lib::group_to_multiset_ensures;

    if list.len() == 0 {
        assert(sorted(list) =~= list);
    } else {
        lemma_sorted(list.drop_last());
        lemma_placed(sorted(list.drop_last()), list.last());
        assert(list =~= list.drop_last().push(list.last()));
    }
}

fn place(list: &mut Vec<String>, t: String)
    ensures
        final(list).deep_view() == placed(old(list).deep_view(), t@),
{
    let ghost before = list.deep_view();
    let mut i: usize = 0;
    assert(before.skip(0) =~= before);
    assert(before.take(0) + placed(before.skip(0), t@) =~= placed(before, t@));
    while i < list.len() && !not_after(t.as_str(), list[i].as_str())
        invariant
            i <= list@.len(),
            list.deep_view() == before,
            before.take(i as int) + placed(before.skip(i as int), t@) == placed(before, t@),
        decreases list@.len() - i,
    {
        let ghost rest = before.skip(i as int);
        proof {
            assert(rest[0] == list@[i as int]@);
            assert(rest.drop_first() =~= before.skip(i + 1));
            assert(before.take(i + 1) =~= before.take(i as int).push(rest[0]));
            assert(before.take(i + 1) + placed(before.skip(i + 1), t@) =~= before.take(i as int) + placed(rest, t@));
        }
        i += 1;
    }
    let ghost added = t@;
    let ghost rest = before.skip(i as int);
    proof {
        if i < list@.len() {
            assert(rest[0] == list@[i as int]@);
            assert(placed(rest, added) =~= seq![added] + rest);
        } else {
            assert(placed(rest, added) =~= seq![added] + rest);
        }
        assert(before.insert(i as int, added) =~= before.take(i as int) + (seq![added] + rest));
    }
    list.insert(i, t);
    assert(list.deep_view() =~= before.insert(i as int, added));
}

/// A copy of a list, in order.
pub fn sort_texts(list: &Vec<String>) -> (r: Vec<String>)
    ensures
        r.deep_view() == sorted(list.deep_view()),
{
    let mut out: Vec<String> = Vec::new();
    let ghost all = list.deep_view();
    assert(out.deep_view() =~= sorted(all.take(0)));
    for i in 0..list.len()
        invariant
            all == list.deep_view(),
            out.deep_view() == sorted(all.take(i as int)),
    {
        proof {
            assert(all.take(i + 1).drop_last() =~= all.take(i as int));
            assert(all.take(i + 1).last() == list@[i as int]@);
        }
        place(&mut out, list[i].clone());
    }
    assert(all.take(all.len() as int) =~= all);
    out
}

/// What comes out of sorting depends on the texts alone, not on the order in which they came.
pub proof fn lemma_sorted_unique(a: Seq<Seq<char>>, b: Seq<Seq<char>>)
    requires
        a.to_multiset() == b.to_multiset(),
    ensures
        sorted(a) == sorted(b),
{
    lemma_sorted(a);
    lemma_sorted(b);
    let leq = |x: Seq<char>, y: Seq<char>| text_le(x, y);
    assert forall|x: Seq<char>, y: Seq<char>| #[trigger] leq(x, y) || #[trigger] leq(y, x) by {
        lemma_text_le_total(x, y);
    }
    assert forall|x: Seq<char>, y: Seq<char>| #[trigger] leq(x, y) && #[trigger] leq(y, x) implies x == y by {
        lemma_text_le_total(x, y);
    }
    assert forall|x: Seq<char>, y: Seq<char>, z: Seq<char>| #[trigger] leq(x, y) && #[trigger] leq(y, z) implies leq(
        x,
        z,
    ) by {
        lemma_text_le_trans(x, y, z);
    }
    assert forall|x: Seq<char>| #[trigger] leq(x, x) by {
        lemma_text_le_total(x, x);
    }
    vstd::seq_lib::lemma_sorted_unique(sorted(a), sorted(b), leq);
}

/// The list without the texts that repeat the one before them.
pub open spec fn without_repeats(list: Seq<Seq<char>>) -> Seq<Seq<char>>
    decreases list.len(),
{
    if list.len() == 0 {
        seq![]
    } else {
        let before = without_repeats(list.drop_last());
        if list.len() > 1 && list[list.len() - 2] == list.last() {
            before
        } else {
            before.push(list.last())
        }
    }
}

/// Whether every text stands before those that follow it, and none stands there twice.
pub open spec fn strictly_in_order(list: Seq<Seq<char>>) -> bool {
    in_order(list) && forall|i: int, j: int| 0 <= i < j < list.len() ==> #[trigger] list[i] != #[trigger] list[j]
}

/// Without its repetitions, an ordered list holds the same texts, each once.
pub proof fn lemma_without_repeats(list: Seq<Seq<char>>)
    requires
        in_order(list),
    ensures
        strictly_in_order(without_repeats(list)),
        forall|t: Seq<char>| #[trigger] without_repeats(list).contains(t) <==> list.contains(t),
        list.len() > 0 ==> without_repeats(list).len() > 0 && without_repeats(list).last() == list.last(),
    decreases list.len(),
{
    let w = without_repeats(list);
    if list.len() == 0 {
        assert(w =~= list);
    } else {
        let rest = list.drop_last();
        assert forall|i: int, j: int| 0 <= i < j < rest.len() implies text_le(
            #[trigger] rest[i],
            #[trigger] rest[j],
        ) by {
            assert(rest[i] == list[i] && rest[j] == list[j]);
        }
        lemma_without_repeats(rest);
        let before = without_repeats(rest);
        let t = list.last();
        let repeated = list.len() > 1 && list[list.len() - 2] == t;
        assert forall|x: Seq<char>| #[trigger] w.contains(x) <==> list.contains(x) by {
            if list.contains(x) {
                let k = choose|k: int| 0 <= k < list.len() && list[k] == x;
                if k < rest.len() {
                    assert(rest[k] == x);
                    assert(before.contains(x));
                    let m = choose|m: int| 0 <= m < before.len() && before[m] == x;
                    assert(w[m] == x);
                } else if repeated {
                    assert(rest[list.len() - 2] == x);
                    assert(before.contains(x));
                } else {
                    assert(w[w.len() - 1] == x);
                }
            }
            if w.contains(x) {
                let m = choose|m: int| 0 <= m < w.len() && w[m] == x;
                if m < before.len() {
                    assert(before[m] == x);
                    assert(before.contains(x));
                    assert(rest.contains(x));
                    let k = choose|k: int| 0 <= k < rest.len() && rest[k] == x;
                    assert(list[k] == x);
                } else {
                    assert(list[list.len() - 1] == x);
                }
            }
        }
        if !repeated {
            assert forall|i: int, j: int| 0 <= i < j < w.len() implies text_le(#[trigger] w[i], #[trigger] w[j]) && w[i]
                != w[j] by {
                if j < before.len() {
                    assert(w[i] == before[i] && w[j] == before[j]);
                } else {
                    assert(w[i] == before[i]);
                    assert(before.contains(before[i]));
                    assert(rest.contains(before[i]));
                    let k = choose|k: int| 0 <= k < rest.len() && rest[k] == before[i];
                    assert(list[k] == before[i]);
                    assert(text_le(list[k], list[list.len() - 1]));
                    if before[i] == t {
                        // An equal text before would stand at the end of what comes before.
                        assert(text_le(list[list.len() - 2], list[list.len() - 1]));
                        if k < list.len() - 2 {
                            assert(text_le(list[k], list[list.len() - 2]));
                        } else {
                            lemma_text_le_total(t, t);
                        }
                        lemma_text_le_total(list[list.len() - 2], t);
                    }
                }
            }
        }
    }
}

proof fn lemma_strict_unique(a: Seq<Seq<char>>, b: Seq<Seq<char>>)
    requires
        strictly_in_order(a),
        strictly_in_order(b),
        forall|t: Seq<char>| #[trigger] a.contains(t) <==> b.contains(t),
    ensures
        a == b,
    decreases a.len(),
{
    if a.len() == 0 {
        if b.len() > 0 {
            assert(b.contains(b[0]));
            assert(a.contains(b[0]));
        }
        assert(a =~= b);
    } else {
        assert(a.contains(a[0]));
        assert(b.contains(a[0]));
        let x = a.last();
        let y = b.last();
        assert(a.contains(a[a.len() - 1]));
        assert(b.contains(b[b.len() - 1]));
        assert(b.contains(x) && a.contains(y));
        let i = choose|i: int| 0 <= i < b.len() && b[i] == x;
        let j = choose|j: int| 0 <= j < a.len() && a[j] == y;
        lemma_text_le_total(x, x);
        lemma_text_le_total(y, y);
        assert(text_le(x, y)) by {
            if i < b.len() - 1 {
                assert(text_le(b[i], b[b.len() - 1]));
            }
        }
        assert(text_le(y, x)) by {
            if j < a.len() - 1 {
                assert(text_le(a[j], a[a.len() - 1]));
            }
        }
        lemma_text_le_total(x, y);
        let a1 = a.drop_last();
        let b1 = b.drop_last();
        assert forall|t: Seq<char>| #[trigger] a1.contains(t) <==> b1.contains(t) by {
            if a1.contains(t) {
                let k = choose|k: int| 0 <= k < a1.len() && a1[k] == t;
                assert(a[k] == t && a[k] != a[a.len() - 1]);
                assert(a.contains(t));
                let m = choose|m: int| 0 <= m < b.len() && b[m] == t;
                assert(b1[m] == t);
            }
            if b1.contains(t) {
                let k = choose|k: int| 0 <= k < b1.len() && b1[k] == t;
                assert(b[k] == t && b[k] != b[b.len() - 1]);
                assert(b.contains(t));
                assert(a.contains(t));
                let m = choose|m: int| 0 <= m < a.len() && a[m] == t;
                assert(a1[m] == t);
            }
        }
        lemma_strict_unique(a1, b1);
        assert(a =~= a1.push(x));
        assert(b =~= b1.push(y));
    }
}

/// Lists of the same texts, however often and in whatever order, are equal when they are sorted and
/// their repetitions are gone.
pub proof fn lemma_same_texts(a: Seq<Seq<char>>, b: Seq<Seq<char>>)
    requires
        a.to_set() == b.to_set(),
    ensures
        without_repeats(sorted(a)) == without_repeats(sorted(b)),
{
    broadcast use vstd::seq_lib::group_to_multiset_ensures;

    lemma_sorted(a);
    lemma_sorted(b);
    lemma_without_repeats(sorted(a));
    lemma_without_repeats(sorted(b));
    assert forall|t: Seq<char>| #[trigger]
        without_repeats(sorted(a)).contains(t) <==> without_repeats(sorted(b)).contains(t) by {
        assert(sorted(a).contains(t) <==> sorted(a).to_multiset().contains(t));
        assert(sorted(b).contains(t) <==> sorted(b).to_multiset().contains(t));
        assert(a.contains(t) <==> a.to_multiset().contains(t));
        assert(b.contains(t) <==> b.to_multiset().contains(t));
        assert(a.to_set().contains(t) <==> b.to_set().contains(t));
        assert(a.to_set().contains(t) <==> a.contains(t));
        assert(b.to_set().contains(t) <==> b.contains(t));
    }
    lemma_strict_unique(without_repeats(sorted(a)), without_repeats(sorted(b)));
}

pub fn drop_repeats(list: &Vec<String>) -> (r: Vec<String>)
    ensures
        r.deep_view() == without_repeats(list.deep_view()),
{
    let mut out: Vec<String> = Vec::new();
    let ghost all = list.deep_view();
    assert(out.deep_view() =~= without_repeats(all.take(0)));
    for i in 0..list.len()
        invariant
            all == list.deep_view(),
            out.deep_view() == without_repeats(all.take(i as int)),
    {
        let ghost before = out.deep_view();
        proof {
            assert(all.take(i + 1).drop_last() =~= all.take(i as int));
            assert(all.take(i + 1).last() == list@[i as int]@);
            if i > 0 {
                assert(all.take(i + 1)[i - 1] == list@[i - 1]@);
            }
        }
        if i == 0 || !crate::text::same_text(list[i - 1].as_str(), list[i].as_str()) {
            out.push(list[i].clone());
            assert(out.deep_view() =~= before.push(list@[i as int]@));
        }
    }
    assert(all.take(all.len() as int) =~= all);
    out
}

/// Whether the numbers of a list do not grow.
pub open spec fn falling<T>(list: Seq<(T, u64)>) -> bool {
    forall|i: int, j: int| 0 <= i < j < list.len() ==> (#[trigger] list[i]).1 >= (#[trigger] list[j]).1
}

/// The items of a list, those with the largest numbers first.
pub fn sort_falling<T>(list: Vec<(T, u64)>) -> (r: Vec<(T, u64)>)
    ensures
        falling(r@),
        r@.to_multiset() == list@.to_multiset(),
        r@.len() == list@.len(),
        forall|item: (T, u64)| #[trigger] r@.contains(item) <==> list@.contains(item),
        list@.no_duplicates() ==> r@.no_duplicates(),
{
    broadcast use vstd::seq_lib::group_to_multiset_ensures;

    let ghost all = list@;
    let mut rest = list;
    let mut out: Vec<(T, u64)> = Vec::new();
    assert(out@.to_multiset().add(rest@.to_multiset()) =~= all.to_multiset());
    while rest.len() > 0
        invariant
            falling(out@),
            out@.to_multiset().add(rest@.to_multiset()) == all.to_multiset(),
            out@.len() + rest@.len() == all.len(),
        decreases rest@.len(),
    {
        let ghost before = rest@;
        if let Some(item) = rest.pop() {
            assert(before =~= rest@.push(item));
            let mut i: usize = 0;
            while i < out.len() && out[i].1 > item.1
                invariant
                    i <= out@.len(),
                    forall|j: int| 0 <= j < i ==> (#[trigger] out@[j]).1 > item.1,
                decreases out@.len() - i,
            {
                i += 1;
            }
            let ghost old_out = out@;
            out.insert(i, item);
            proof {
                broadcast use vstd::seq_lib::group_to_multiset_ensures;

                assert(out@ =~= old_out.insert(i as int, item));
                assert(out@.to_multiset() =~= old_out.to_multiset().insert(item));
                assert(out@.to_multiset().add(rest@.to_multiset()) =~= old_out.to_multiset().add(
                    before.to_multiset(),
                ));
                assert forall|a: int, b: int| 0 <= a < b < out@.len() implies (#[trigger] out@[a]).1 >= (
                #[trigger] out@[b]).1 by {
                    let pa = if a < i {
                        a
                    } else {
                        a - 1
                    };
                    let pb = if b < i {
                        b
                    } else {
                        b - 1
                    };
                    if a != i {
                        assert(out@[a] == old_out[pa]);
                    }
                    if b != i {
                        assert(out@[b] == old_out[pb]);
                    }
                    if a == i && i < old_out.len() {
                        assert(old_out[i as int].1 <= item.1);
                        if b > i + 1 {
                            assert(old_out[i as int].1 >= old_out[b - 1].1);
                        }
                    }
                }
            }
        }
    }
    proof {
        assert(out@.to_multiset() =~= all.to_multiset());
        assert forall|item: (T, u64)| #[trigger] out@.contains(item) <==> all.contains(item) by {
            assert(out@.to_multiset().count(item) == all.to_multiset().count(item));
        }
        if all.no_duplicates() {
            all.lemma_multiset_has_no_duplicates();
            out@.lemma_multiset_has_no_duplicates_conv();
        }
    }
    out
}

// ---------------------------------------------------------------------------
// Laws
// ---------------------------------------------------------------------------

/// Texts are ordered by their first characters that differ, the smaller one first, and a text comes
/// before those that go on where it ends.
pub proof fn lemma_text_order(common: Seq<char>, x: char, a: Seq<char>, y: char, b: Seq<char>)
    requires
        x < y,
    ensures
        text_le(common + seq![x] + a, common + seq![y] + b),
        !text_le(common + seq![y] + b, common + seq![x] + a),
        text_le(common, common + seq![x] + a),
        !text_le(common + seq![x] + a, common),
    decreases common.len(),
{
    let s = common + seq![x] + a;
    let t = common + seq![y] + b;
    if common.len() > 0 {
        let rest = common.drop_first();
        lemma_text_order(rest, x, a, y, b);
        assert(s.drop_first() =~= rest + seq![x] + a);
        assert(t.drop_first() =~= rest + seq![y] + b);
        assert(s[0] == common[0] && t[0] == common[0]);
    } else {
        assert(s[0] == x && t[0] == y);
    }
}

} // verus!
