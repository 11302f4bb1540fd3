//! Stable sorting: the order of keys, and the positions that sort by them.
use vstd::prelude::*;
use vstd::relations::*;

use crate::text;
use crate::time;
use crate::time::Timestamp;

verus! {

/// A kind of key that orders what it stands for. Keys can tie.
pub trait KeyOrder: Sized {
    /// Whether this key comes before `other` or ties with it.
    spec fn leq(self, other: Self) -> bool;

    /// Any two keys are ordered, and the order is transitive.
    proof fn laws(a: Self, b: Self, c: Self)
        ensures
            a.leq(b) || b.leq(a),
            a.leq(b) && b.leq(c) ==> a.leq(c),
    ;
}

/// What holds a key.
pub trait Ranked: Sized {
    /// The kind of key.
    type Key: KeyOrder;

    /// The key.
    spec fn key(&self) -> Self::Key;

    /// Whether the key comes before that of `other` or ties with it.
    fn at_most(&self, other: &Self) -> (r: bool)
        ensures
            r == self.key().leq(other.key()),
    ;
}

/// Whether position `i` is sorted before position `j`, or is `j`: its key comes
/// first, and of tied keys the position does.
pub open spec fn precedes<K: KeyOrder>(keys: Seq<K>, i: int, j: int) -> bool {
    keys[i].leq(keys[j]) && (keys[j].leq(keys[i]) ==> i <= j)
}

/// The positions of `keys` in the order of a stable sort.
pub open spec fn stable_positions<K: KeyOrder>(keys: Seq<K>) -> Seq<int> {
    Seq::new(keys.len(), |i: int| i).sort_by(|i: int, j: int| precedes(keys, i, j))
}

/// The items in the order of a stable sort by their keys.
pub open spec fn stably_sorted<T, K: KeyOrder>(items: Seq<T>, keys: Seq<K>) -> Seq<T> {
    stable_positions(keys).map_values(|i: int| items[i])
}

/// The keys that items hold.
pub open spec fn keys_of<R: Ranked>(items: Seq<R>) -> Seq<R::Key> {
    items.map_values(|r: R| r.key())
}

/// Positions as integers.
pub open spec fn as_ints(positions: Seq<usize>) -> Seq<int> {
    positions.map_values(|i: usize| i as int)
}

proof fn precedes_is_total<K: KeyOrder>(keys: Seq<K>)
    ensures
        total_ordering(|i: int, j: int| precedes(keys, i, j)),
{
    let leq = |i: int, j: int| precedes(keys, i, j);
    assert forall|i: int| #[trigger] leq(i, i) by {
        K::laws(keys[i], keys[i], keys[i]);
    }
    assert forall|i: int, j: int| #[trigger] leq(i, j) && #[trigger] leq(j, i) implies i == j by {
        K::laws(keys[i], keys[j], keys[i]);
    }
    assert forall|i: int, j: int, k: int| #[trigger] leq(i, j) && #[trigger] leq(j, k) implies leq(
        i,
        k,
    ) by {
        K::laws(keys[i], keys[j], keys[k]);
        K::laws(keys[k], keys[i], keys[j]);
        K::laws(keys[j], keys[k], keys[i]);
    }
    assert forall|i: int, j: int| #[trigger] leq(i, j) || #[trigger] leq(j, i) by {
        K::laws(keys[i], keys[j], keys[i]);
    }
}

/// A stable sort gives every position once, in the order of the keys, and keeps
/// the order of positions whose keys tie.
pub proof fn stable_positions_sort<K: KeyOrder>(keys: Seq<K>)
    ensures
        stable_positions(keys).len() == keys.len(),
        stable_positions(keys).no_duplicates(),
        forall|i: int| 0 <= i < keys.len() <==> #[trigger] stable_positions(keys).contains(i),
        forall|a: int|
            0 <= a < keys.len() ==> 0 <= #[trigger] stable_positions(keys)[a] < keys.len(),
        forall|a: int, b: int|
            0 <= a < b < keys.len() ==> precedes(
                keys,
                #[trigger] stable_positions(keys)[a],
                #[trigger] stable_positions(keys)[b],
            ),
{
    broadcast use vstd::seq_lib::group_to_multiset_ensures;
    broadcast use vstd::multiset::group_multiset_axioms;

    let n = keys.len();
    let all = Seq::new(n, |i: int| i);
    let leq = |i: int, j: int| precedes(keys, i, j);
    let sorted = stable_positions(keys);
    precedes_is_total(keys);
    all.lemma_sort_by_ensures(leq);
    assert(all.no_duplicates());
    all.lemma_multiset_has_no_duplicates();
    sorted.lemma_multiset_has_no_duplicates_conv();
    assert(sorted.len() == n) by {
        assert(all.to_multiset().len() == n);
        assert(sorted.to_multiset().len() == sorted.len());
    }
    assert forall|i: int| 0 <= i < n <==> #[trigger] sorted.contains(i) by {
        assert(all.to_multiset().count(i) == sorted.to_multiset().count(i));
        if 0 <= i < n {
            assert(all[i] == i);
            assert(all.contains(i));
        }
        if all.contains(i) {
            let k = choose|k: int| 0 <= k < n && all[k] == i;
            assert(k == i);
        }
    }
    assert forall|a: int| 0 <= a < n implies 0 <= #[trigger] sorted[a] < n by {
        assert(sorted.contains(sorted[a]));
    }
    assert forall|a: int, b: int| 0 <= a < b < n implies precedes(
        keys,
        #[trigger] sorted[a],
        #[trigger] sorted[b],
    ) by {
        assert(leq(sorted[a], sorted[b]));
    }
}

/// The positions from `lo` on and before `hi`.
spec fn span(lo: int, hi: int) -> Seq<int> {
    Seq::new((hi - lo) as nat, |i: int| lo + i)
}

/// Whether `r` holds the positions from `lo` on and before `hi`, sorted.
spec fn sorts_span<K: KeyOrder>(keys: Seq<K>, r: Seq<int>, lo: int, hi: int) -> bool {
    &&& sorted_by(r, |i: int, j: int| precedes(keys, i, j))
    &&& r.to_multiset() == span(lo, hi).to_multiset()
}

/// Pushing an item onto a part of what a list gathers adds it to the whole.
proof fn gathered(s: Seq<int>, x: int, own: Seq<int>, other: Seq<int>)
    requires
        s.to_multiset() == own.to_multiset().add(other.to_multiset()),
    ensures
        s.push(x).to_multiset() == own.push(x).to_multiset().add(other.to_multiset()),
        s.push(x).to_multiset() == other.to_multiset().add(own.push(x).to_multiset()),
{
    broadcast use vstd::seq_lib::group_to_multiset_ensures;
    broadcast use vstd::multiset::group_multiset_axioms;

    assert(s.push(x).to_multiset() =~= s.to_multiset().insert(x));
    assert(own.push(x).to_multiset() =~= own.to_multiset().insert(x));
    assert(s.push(x).to_multiset() =~= own.push(x).to_multiset().add(other.to_multiset()));
    assert(s.push(x).to_multiset() =~= other.to_multiset().add(own.push(x).to_multiset()));
}

/// Merges two sorted lists of positions into one.
fn merge<R: Ranked>(items: &Vec<R>, left: Vec<usize>, right: Vec<usize>) -> (r: Vec<usize>)
    requires
        forall|a: int| 0 <= a < left@.len() ==> #[trigger] left@[a] < items@.len(),
        forall|a: int| 0 <= a < right@.len() ==> #[trigger] right@[a] < items@.len(),
        sorted_by(as_ints(left@), |i: int, j: int| precedes(keys_of(items@), i, j)),
        sorted_by(as_ints(right@), |i: int, j: int| precedes(keys_of(items@), i, j)),
    ensures
        forall|a: int| 0 <= a < r@.len() ==> #[trigger] r@[a] < items@.len(),
        sorted_by(as_ints(r@), |i: int, j: int| precedes(keys_of(items@), i, j)),
        as_ints(r@).to_multiset() == as_ints(left@).to_multiset().add(
            as_ints(right@).to_multiset(),
        ),
{
    broadcast use vstd::seq_lib::group_to_multiset_ensures;
    broadcast use vstd::multiset::group_multiset_axioms;

    let ghost keys = keys_of(items@);
    let ghost leq = |i: int, j: int| precedes(keys, i, j);
    let mut out: Vec<usize> = Vec::new();
    let mut a: usize = 0;
    let mut b: usize = 0;
    proof {
        precedes_is_total(keys);
        assert(left@.take(0) =~= Seq::empty());
        assert(right@.take(0) =~= Seq::empty());
        assert(as_ints(out@) =~= Seq::empty());
        assert(as_ints(left@).take(0) =~= Seq::empty());
        assert(as_ints(right@).take(0) =~= Seq::empty());
        assert(as_ints(out@).to_multiset() =~= as_ints(left@).take(0).to_multiset().add(
            as_ints(right@).take(0).to_multiset(),
        ));
    }
    while a < left.len() || b < right.len()
        invariant
            a <= left@.len(),
            b <= right@.len(),
            keys == keys_of(items@),
            leq == (|i: int, j: int| precedes(keys, i, j)),
            total_ordering(leq),
            forall|k: int| 0 <= k < left@.len() ==> #[trigger] left@[k] < items@.len(),
            forall|k: int| 0 <= k < right@.len() ==> #[trigger] right@[k] < items@.len(),
            forall|k: int| 0 <= k < out@.len() ==> #[trigger] out@[k] < items@.len(),
            sorted_by(as_ints(left@), leq),
            sorted_by(as_ints(right@), leq),
            sorted_by(as_ints(out@), leq),
            forall|k: int, m: int|
                0 <= k < out@.len() && a <= m < left@.len() ==> #[trigger] leq(
                    out@[k] as int,
                    left@[m] as int,
                ),
            forall|k: int, m: int|
                0 <= k < out@.len() && b <= m < right@.len() ==> #[trigger] leq(
                    out@[k] as int,
                    right@[m] as int,
                ),
            as_ints(out@).to_multiset() == as_ints(left@).take(a as int).to_multiset().add(
                as_ints(right@).take(b as int).to_multiset(),
            ),
        decreases left@.len() - a + right@.len() - b,
    {
        let from_left: bool = if a >= left.len() {
            false
        } else if b >= right.len() {
            true
        } else {
            let x: usize = left[a];
            let y: usize = right[b];
            items[x].at_most(&items[y]) && (x <= y || !items[y].at_most(&items[x]))
        };
        let ghost before = out@;
        proof {
            if a < left@.len() && b < right@.len() {
                let x = left@[a as int] as int;
                let y = right@[b as int] as int;
                assert(keys[x] == items@[x].key());
                assert(keys[y] == items@[y].key());
                assert(from_left == leq(x, y));
                assert(leq(x, y) || leq(y, x));
            }
        }
        if from_left {
            out.push(left[a]);
            proof {
                let x = left@[a as int] as int;
                assert(as_ints(out@) =~= as_ints(before).push(x));
                assert(as_ints(left@).take(a + 1) =~= as_ints(left@).take(a as int).push(x));
                assert forall|m: int| b <= m < right@.len() implies #[trigger] leq(
                    x,
                    right@[m] as int,
                ) by {
                    assert(leq(x, right@[b as int] as int));
                    if m > b {
                        assert(leq(as_ints(right@)[b as int], as_ints(right@)[m]));
                    }
                }
                assert forall|m: int| a < m < left@.len() implies #[trigger] leq(
                    x,
                    left@[m] as int,
                ) by {
                    assert(leq(as_ints(left@)[a as int], as_ints(left@)[m]));
                }
                assert(sorted_by(as_ints(out@), leq)) by {
                    assert forall|i: int, j: int| 0 <= i < j < as_ints(out@).len() implies
                        #[trigger] leq(as_ints(out@)[i], as_ints(out@)[j]) by {
                        if j == before.len() {
                            assert(leq(before[i] as int, left@[a as int] as int));
                        } else {
                            assert(leq(as_ints(before)[i], as_ints(before)[j]));
                        }
                    }
                }
                gathered(
                    as_ints(before),
                    x,
                    as_ints(left@).take(a as int),
                    as_ints(right@).take(b as int),
                );
            }
            a += 1;
        } else {
            out.push(right[b]);
            proof {
                let y = right@[b as int] as int;
                assert(as_ints(out@) =~= as_ints(before).push(y));
                assert(as_ints(right@).take(b + 1) =~= as_ints(right@).take(b as int).push(y));
                assert forall|m: int| a <= m < left@.len() implies #[trigger] leq(
                    y,
                    left@[m] as int,
                ) by {
                    assert(leq(y, left@[a as int] as int));
                    if m > a {
                        assert(leq(as_ints(left@)[a as int], as_ints(left@)[m]));
                    }
                }
                assert forall|m: int| b < m < right@.len() implies #[trigger] leq(
                    y,
                    right@[m] as int,
                ) by {
                    assert(leq(as_ints(right@)[b as int], as_ints(right@)[m]));
                }
                assert(sorted_by(as_ints(out@), leq)) by {
                    assert forall|i: int, j: int| 0 <= i < j < as_ints(out@).len() implies
                        #[trigger] leq(as_ints(out@)[i], as_ints(out@)[j]) by {
                        if j == before.len() {
                            assert(leq(before[i] as int, right@[b as int] as int));
                        } else {
                            assert(leq(as_ints(before)[i], as_ints(before)[j]));
                        }
                    }
                }
                assert(as_ints(before).to_multiset() =~= as_ints(right@).take(
                    b as int,
                ).to_multiset().add(as_ints(left@).take(a as int).to_multiset()));
                gathered(
                    as_ints(before),
                    y,
                    as_ints(right@).take(b as int),
                    as_ints(left@).take(a as int),
                );
            }
            b += 1;
        }
    }
    proof {
        assert(as_ints(left@).take(a as int) =~= as_ints(left@));
        assert(as_ints(right@).take(b as int) =~= as_ints(right@));
    }
    out
}

/// Sorts the positions from `lo` on and before `hi`.
fn sort_span<R: Ranked>(items: &Vec<R>, lo: usize, hi: usize) -> (r: Vec<usize>)
    requires
        lo <= hi <= items@.len(),
    ensures
        forall|a: int| 0 <= a < r@.len() ==> #[trigger] r@[a] < items@.len(),
        sorts_span(keys_of(items@), as_ints(r@), lo as int, hi as int),
    decreases hi - lo,
{
    let mut out: Vec<usize> = Vec::new();
    if hi - lo <= 1 {
        if lo < hi {
            out.push(lo);
        }
        proof {
            assert(as_ints(out@) =~= span(lo as int, hi as int));
        }
        return out;
    }
    let mid: usize = lo + (hi - lo) / 2;
    let left = sort_span(items, lo, mid);
    let right = sort_span(items, mid, hi);
    proof {
        let near = span(lo as int, mid as int);
        let far = span(mid as int, hi as int);
        assert(near + far =~= span(lo as int, hi as int));
        vstd::seq_lib::lemma_multiset_commutative(near, far);
    }
    merge(items, left, right)
}

/// The positions of `items` in the order of a stable sort by their keys.
pub fn sort_positions<R: Ranked>(items: &Vec<R>) -> (r: Vec<usize>)
    ensures
        as_ints(r@) == stable_positions(keys_of(items@)),
        r@.len() == items@.len(),
        forall|a: int| 0 <= a < r@.len() ==> #[trigger] r@[a] < items@.len(),
{
    let r = sort_span(items, 0, items.len());
    proof {
        let keys = keys_of(items@);
        let leq = |i: int, j: int| precedes(keys, i, j);
        let all = Seq::new(keys.len(), |i: int| i);
        assert(span(0, items@.len() as int) =~= all);
        precedes_is_total(keys);
        all.lemma_sort_by_ensures(leq);
        vstd::seq_lib::lemma_sorted_unique(as_ints(r@), stable_positions(keys), leq);
        stable_positions_sort(keys);
        assert(as_ints(r@).len() == r@.len());
    }
    r
}

/// Moves `items` into the order of `positions`, which name each of them at most
/// once.
pub fn arrange<T>(items: Vec<T>, positions: &Vec<usize>) -> (r: Vec<T>)
    requires
        as_ints(positions@).no_duplicates(),
        forall|a: int| 0 <= a < positions@.len() ==> #[trigger] positions@[a] < items@.len(),
    ensures
        r@ == as_ints(positions@).map_values(|i: int| items@[i]),
{
    let ghost all = items@;
    let mut rest = items;
    let count: usize = rest.len();
    let mut slots: Vec<Option<T>> = Vec::new();
    while rest.len() > 0
        invariant
            count == all.len(),
            slots@.len() + rest@.len() == count,
            rest@ == all.take(rest@.len() as int),
            forall|k: int|
                0 <= k < slots@.len() ==> #[trigger] slots@[k] == Some(all[count - 1 - k]),
        decreases rest@.len(),
    {
        let item = rest.pop();
        slots.push(item);
    }
    let mut out: Vec<T> = Vec::new();
    let mut a: usize = 0;
    while a < positions.len()
        invariant
            a <= positions@.len(),
            count == all.len(),
            slots@.len() == count,
            as_ints(positions@).no_duplicates(),
            forall|k: int| 0 <= k < positions@.len() ==> #[trigger] positions@[k] < count,
            out@ == as_ints(positions@).map_values(|i: int| all[i]).take(a as int),
            forall|b: int|
                a <= b < positions@.len() ==> slots@[count - 1 - #[trigger] positions@[b]]
                    == Some(all[positions@[b] as int]),
        decreases positions@.len() - a,
    {
        assert(positions@[a as int] < count);
        let position: usize = positions[a];
        let at: usize = count - 1 - position;
        let mut slot: Option<T> = None;
        slots.set_and_swap(at, &mut slot);
        proof {
            assert(slot == Some(all[positions@[a as int] as int]));
            assert forall|b: int| a < b < positions@.len() implies slots@[count - 1
                - #[trigger] positions@[b]] == Some(all[positions@[b] as int]) by {
                assert(as_ints(positions@)[a as int] != as_ints(positions@)[b]);
            }
        }
        if let Some(item) = slot {
            out.push(item);
        }
        a += 1;
    }
    proof {
        let whole = as_ints(positions@).map_values(|i: int| all[i]);
        assert(whole.take(a as int) =~= whole);
    }
    out
}

/// The items that are marked, in order.
pub open spec fn chosen<T>(items: Seq<T>, marks: Seq<bool>) -> Seq<T>
    decreases items.len(),
{
    if items.len() == 0 {
        Seq::empty()
    } else {
        let rest = chosen(items.drop_last(), marks.drop_last());
        if marks.last() {
            rest.push(items.last())
        } else {
            rest
        }
    }
}

/// Keeps the items that are marked.
pub fn keep_marked<T>(items: Vec<T>, marks: &Vec<bool>) -> (r: Vec<T>)
    requires
        items@.len() == marks@.len(),
    ensures
        r@ == chosen(items@, marks@),
{
    let ghost all = items@;
    let count: usize = marks.len();
    let mut out: Vec<T> = Vec::new();
    let mut i: usize = 0;
    for item in it: items
        invariant
            it.seq() == all,
            all.len() == marks@.len(),
            count == marks@.len(),
            i == it.index(),
            out@ == chosen(all.take(i as int), marks@.take(i as int)),
    {
        proof {
            assert(all.take(i + 1).drop_last() =~= all.take(i as int));
            assert(marks@.take(i + 1).drop_last() =~= marks@.take(i as int));
        }
        if marks[i] {
            out.push(item);
        }
        i += 1;
    }
    proof {
        assert(all.take(i as int) =~= all);
        assert(marks@.take(i as int) =~= marks@);
    }
    out
}

/// Choosing by marks is filtering by what the marks say.
pub proof fn chosen_filters<T>(items: Seq<T>, marks: Seq<bool>, pred: spec_fn(T) -> bool)
    requires
        items.len() == marks.len(),
        forall|i: int| 0 <= i < items.len() ==> #[trigger] marks[i] == pred(items[i]),
    ensures
        chosen(items, marks) == items.filter(pred),
    decreases items.len(),
{
    reveal(Seq::filter);
    if items.len() > 0 {
        chosen_filters(items.drop_last(), marks.drop_last(), pred);
        assert(marks.last() == marks[items.len() - 1]);
    } else {
        assert(items =~= Seq::empty());
    }
}

/// What holds of each pair of items holds of each pair chosen by the same marks.
pub proof fn chosen_pairs<A, B>(a: Seq<A>, b: Seq<B>, marks: Seq<bool>, rel: spec_fn(A, B) -> bool)
    requires
        a.len() == b.len() == marks.len(),
        forall|i: int| 0 <= i < a.len() ==> rel(#[trigger] a[i], b[i]),
    ensures
        chosen(a, marks).len() == chosen(b, marks).len(),
        forall|i: int|
            0 <= i < chosen(a, marks).len() ==> rel(
                #[trigger] chosen(a, marks)[i],
                chosen(b, marks)[i],
            ),
    decreases a.len(),
{
    if a.len() > 0 {
        chosen_pairs(a.drop_last(), b.drop_last(), marks.drop_last(), rel);
        assert(rel(a[a.len() - 1], b[a.len() - 1]));
    }
}

/// Sorts `items` stably by the keys in `ranks`.
pub fn sort_stably<T, R: Ranked>(items: Vec<T>, ranks: &Vec<R>) -> (r: Vec<T>)
    requires
        items@.len() == ranks@.len(),
    ensures
        r@ == stably_sorted(items@, keys_of(ranks@)),
        r@.len() == items@.len(),
{
    let positions = sort_positions(ranks);
    proof {
        stable_positions_sort(keys_of(ranks@));
    }
    arrange(items, &positions)
}

/// A stable sort rearranges: it keeps every item, as often as it was there.
pub proof fn stable_sorts_rearrange<T, K: KeyOrder>(items: Seq<T>, keys: Seq<K>)
    requires
        items.len() == keys.len(),
    ensures
        stably_sorted(items, keys).to_multiset() == items.to_multiset(),
{
    let positions = stable_positions(keys);
    stable_positions_sort(keys);
    let all = Seq::new(keys.len(), |i: int| i);
    let leq = |i: int, j: int| precedes(keys, i, j);
    precedes_is_total(keys);
    all.lemma_sort_by_ensures(leq);
    same_items_mapped(positions, all, items);
    assert(all.map_values(|i: int| items[i]) =~= items);
}

/// Sequences that hold the same positions equally often name the same items.
proof fn same_items_mapped<T>(p: Seq<int>, q: Seq<int>, items: Seq<T>)
    requires
        p.to_multiset() == q.to_multiset(),
    ensures
        p.map_values(|i: int| items[i]).to_multiset() == q.map_values(
            |i: int| items[i],
        ).to_multiset(),
    decreases p.len(),
{
    broadcast use vstd::seq_lib::group_to_multiset_ensures;
    broadcast use vstd::multiset::group_multiset_axioms;

    let f = |i: int| items[i];
    assert(p.len() == p.to_multiset().len());
    assert(q.len() == q.to_multiset().len());
    if p.len() == 0 {
        assert(p =~= q);
    } else {
        let x = p.last();
        assert(p.to_multiset().count(x) > 0) by {
            assert(p.contains(x));
        }
        assert(q.contains(x));
        let k = choose|k: int| 0 <= k < q.len() && q[k] == x;
        let shorter = p.drop_last();
        let rest = q.remove(k);
        assert(p =~= shorter.push(x));
        assert(p.to_multiset() =~= shorter.to_multiset().insert(x));
        assert(q.to_multiset() =~= rest.to_multiset().insert(x)) by {
            vstd::seq_lib::to_multiset_remove(q, k);
            assert(rest.to_multiset() =~= q.to_multiset().remove(x));
        }
        assert(shorter.to_multiset() =~= rest.to_multiset()) by {
            assert forall|v: int| shorter.to_multiset().count(v) == rest.to_multiset().count(v) by {
                assert(p.to_multiset().count(v) == q.to_multiset().count(v));
            }
        }
        same_items_mapped(shorter, rest, items);
        assert(p.map_values(f) =~= shorter.map_values(f).push(f(x)));
        assert(rest.map_values(f) =~= q.map_values(f).remove(k));
        vstd::seq_lib::to_multiset_remove(q.map_values(f), k);
        assert(q.map_values(f)[k] == f(x));
        assert(q.map_values(f).to_multiset().count(f(x)) > 0) by {
            assert(q.map_values(f).contains(f(x)));
        }
        assert(p.map_values(f).to_multiset() =~= shorter.map_values(f).to_multiset().insert(f(x)));
        assert(q.map_values(f).to_multiset() =~= rest.map_values(f).to_multiset().insert(f(x)));
    }
}

/// Whether `a` comes before `b` in the order of texts, or is `b`: by the first
/// character in which they differ, and a text before any that it starts.
pub open spec fn text_leq(a: Seq<char>, b: Seq<char>) -> bool
    decreases a.len(),
{
    if a.len() == 0 {
        true
    } else if b.len() == 0 {
        false
    } else if a[0] == b[0] {
        text_leq(a.skip(1), b.skip(1))
    } else {
        a[0] < b[0]
    }
}

/// The order of texts is total: any two are ordered, two that come before each
/// other are the same, and the order is transitive.
pub proof fn texts_are_ordered(a: Seq<char>, b: Seq<char>, c: Seq<char>)
    ensures
        text_leq(a, b) || text_leq(b, a),
        text_leq(a, b) && text_leq(b, a) ==> a == b,
        text_leq(a, b) && text_leq(b, c) ==> text_leq(a, c),
    decreases a.len() + b.len() + c.len(),
{
    if a.len() > 0 && b.len() > 0 {
        let rest = if c.len() > 0 {
            c.skip(1)
        } else {
            c
        };
        texts_are_ordered(a.skip(1), b.skip(1), rest);
        if a[0] == b[0] && a.skip(1) == b.skip(1) {
            assert(a =~= seq![a[0]] + a.skip(1));
            assert(b =~= seq![b[0]] + b.skip(1));
        }
    } else if a.len() == 0 && b.len() == 0 {
        assert(a =~= b);
    }
}

/// Whether `a` comes before `b` in the order of texts, or is `b`.
pub fn text_at_most(a: &Vec<char>, b: &Vec<char>) -> (r: bool)
    ensures
        r == text_leq(a@, b@),
{
    let mut i: usize = 0;
    proof {
        assert(a@.skip(0) =~= a@);
        assert(b@.skip(0) =~= b@);
    }
    while i < a.len()
        invariant
            i <= a@.len(),
            i <= b@.len(),
            text_leq(a@, b@) == text_leq(a@.skip(i as int), b@.skip(i as int)),
        decreases a@.len() - i,
    {
        proof {
            assert(a@.skip(i as int).skip(1) =~= a@.skip(i + 1));
        }
        if i >= b.len() {
            return false;
        }
        proof {
            assert(b@.skip(i as int).skip(1) =~= b@.skip(i + 1));
        }
        if a[i] != b[i] {
            return a[i] < b[i];
        }
        i += 1;
    }
    true
}

/// A text as a key.
pub struct TextKey(pub Seq<char>);

impl KeyOrder for TextKey {
    open spec fn leq(self, other: Self) -> bool {
        text_leq(self.0, other.0)
    }

    proof fn laws(a: Self, b: Self, c: Self) {
        texts_are_ordered(a.0, b.0, c.0);
    }
}

/// Holds a text as a key.
pub struct TextRank {
    pub chars: Vec<char>,
}

impl Ranked for TextRank {
    type Key = TextKey;

    open spec fn key(&self) -> TextKey {
        TextKey(self.chars@)
    }

    fn at_most(&self, other: &Self) -> (r: bool) {
        text_at_most(&self.chars, &other.chars)
    }
}

/// A place and an instant as a key: by the place, one without a place first, and
/// at one place by the instant.
pub struct PlaceTimeKey {
    pub place: Option<Seq<char>>,
    pub at: time::Instant,
}

impl KeyOrder for PlaceTimeKey {
    open spec fn leq(self, other: Self) -> bool {
        if self.place == other.place {
            self.at.at_most(other.at)
        } else {
            match (self.place, other.place) {
                (None, _) => true,
                (_, None) => false,
                (Some(a), Some(b)) => text_leq(a, b),
            }
        }
    }

    proof fn laws(a: Self, b: Self, c: Self) {
        if a.place is Some && b.place is Some && c.place is Some {
            texts_are_ordered(a.place->0, b.place->0, c.place->0);
            texts_are_ordered(c.place->0, a.place->0, b.place->0);
            texts_are_ordered(b.place->0, c.place->0, a.place->0);
        } else if a.place is Some && b.place is Some {
            texts_are_ordered(a.place->0, b.place->0, a.place->0);
        }
    }
}

/// Holds a place and an instant as a key.
pub struct PlaceTimeRank {
    pub place: Option<Vec<char>>,
    pub at: Timestamp,
}

impl Ranked for PlaceTimeRank {
    type Key = PlaceTimeKey;

    open spec fn key(&self) -> PlaceTimeKey {
        PlaceTimeKey {
            place: match self.place {
                Some(chars) => Some(chars@),
                None => None,
            },
            at: self.at@,
        }
    }

    fn at_most(&self, other: &Self) -> (r: bool) {
        match (&self.place, &other.place) {
            (None, None) => self.at.at_most(&other.at),
            (None, Some(_)) => true,
            (Some(_), None) => false,
            (Some(a), Some(b)) => {
                let below: bool = text_at_most(a, b);
                let above: bool = text_at_most(b, a);
                proof {
                    texts_are_ordered(a@, b@, a@);
                }
                if below && above {
                    self.at.at_most(&other.at)
                } else {
                    below
                }
            },
        }
    }
}

/// The key of a place and an instant.
pub fn place_time(place: &Option<String>, at: &Timestamp) -> (r: PlaceTimeRank)
    ensures
        r.key() == (PlaceTimeKey { place: text::opt_text(*place), at: at@ }),
{
    PlaceTimeRank {
        place: match place {
            Some(s) => Some(text::chars_of(s.as_str())),
            None => None,
        },
        at: *at,
    }
}

/// How recent something is as a key: the latest instant first, and what has no
/// instant last.
pub struct RecencyKey(pub Option<time::Instant>);

impl KeyOrder for RecencyKey {
    open spec fn leq(self, other: Self) -> bool {
        match (self.0, other.0) {
            (_, None) => true,
            (None, Some(_)) => false,
            (Some(a), Some(b)) => b.at_most(a),
        }
    }

    proof fn laws(a: Self, b: Self, c: Self) {
    }
}

/// Holds how recent something is as a key.
pub struct RecencyRank {
    pub at: Option<Timestamp>,
}

impl Ranked for RecencyRank {
    type Key = RecencyKey;

    open spec fn key(&self) -> RecencyKey {
        RecencyKey(
            match self.at {
                Some(at) => Some(at@),
                None => None,
            },
        )
    }

    fn at_most(&self, other: &Self) -> (r: bool) {
        match (&self.at, &other.at) {
            (_, None) => true,
            (None, Some(_)) => false,
            (Some(a), Some(b)) => b.at_most(a),
        }
    }
}

/// A count as a key: the largest first.
pub struct CountKey(pub int);

impl KeyOrder for CountKey {
    open spec fn leq(self, other: Self) -> bool {
        self.0 >= other.0
    }

    proof fn laws(a: Self, b: Self, c: Self) {
    }
}

/// Holds a count as a key.
pub struct CountRank {
    pub count: u64,
}

impl Ranked for CountRank {
    type Key = CountKey;

    open spec fn key(&self) -> CountKey {
        CountKey(self.count as int)
    }

    fn at_most(&self, other: &Self) -> (r: bool) {
        self.count >= other.count
    }
}

/// Texts are ordered by the first character in which they differ, and one that the other
/// starts with comes first. `k` is where they differ, or where the shorter ends.
pub proof fn texts_are_ordered_by_their_first_difference(a: Seq<char>, b: Seq<char>) -> (k: int)
    ensures
        0 <= k <= a.len(),
        k <= b.len(),
        a.take(k) == b.take(k),
        k < a.len() && k < b.len() ==> a[k] != b[k],
        text_leq(a, b) <==> k == a.len() || (k < b.len() && a[k] < b[k]),
    decreases a.len(),
{
    if a.len() > 0 && b.len() > 0 && a[0] == b[0] {
        let k = texts_are_ordered_by_their_first_difference(a.skip(1), b.skip(1));
        assert(a.take(k + 1) =~= seq![a[0]] + a.skip(1).take(k));
        assert(b.take(k + 1) =~= seq![b[0]] + b.skip(1).take(k));
        if k + 1 < a.len() {
            assert(a.skip(1)[k] == a[k + 1]);
        }
        if k + 1 < b.len() {
            assert(b.skip(1)[k] == b[k + 1]);
        }
        k + 1
    } else {
        assert(a.take(0) =~= b.take(0));
        0
    }
}

/// By recency what is later comes first, and what has no instant comes behind everything
/// that has one.
pub proof fn the_latest_come_first(a: time::Instant, b: time::Instant)
    ensures
        a.secs > b.secs || (a.secs == b.secs && a.nanos > b.nanos) ==> RecencyKey(Some(a)).leq(
            RecencyKey(Some(b)),
        ) && !RecencyKey(Some(b)).leq(RecencyKey(Some(a))),
        RecencyKey(Some(a)).leq(RecencyKey(None)) && !RecencyKey(None).leq(RecencyKey(Some(a))),
{
}

/// By count what has more comes first.
pub proof fn the_largest_come_first(a: int, b: int)
    ensures
        a > b ==> CountKey(a).leq(CountKey(b)) && !CountKey(b).leq(CountKey(a)),
{
}

/// By place and time what has no place comes first, then the places in the order of their
/// texts, and at one place what is earlier.
pub proof fn places_come_in_order(
    a: Seq<char>,
    b: Seq<char>,
    at: time::Instant,
    later: time::Instant,
    place: Option<Seq<char>>,
)
    ensures
        a != b && text_leq(a, b) ==> (PlaceTimeKey { place: Some(a), at: later }).leq(
            PlaceTimeKey { place: Some(b), at },
        ) && !(PlaceTimeKey { place: Some(b), at }).leq(PlaceTimeKey { place: Some(a), at: later }),
        (PlaceTimeKey { place: None, at: later }).leq(PlaceTimeKey { place: Some(a), at })
            && !(PlaceTimeKey { place: Some(a), at }).leq(PlaceTimeKey { place: None, at: later }),
        at.secs < later.secs || (at.secs == later.secs && at.nanos < later.nanos) ==> (
        PlaceTimeKey { place, at }).leq(PlaceTimeKey { place, at: later }) && !(PlaceTimeKey {
            place,
            at: later,
        }).leq(PlaceTimeKey { place, at }),
{
    texts_are_ordered(a, b, a);
}

/// What a stable sort gives stands in the order of the keys, and each item of it comes
/// from where it stood before, from every place once. The places of items whose keys tie
/// keep their order.
pub proof fn sorted_items_stand_in_order<T, K: KeyOrder>(items: Seq<T>, keys: Seq<K>)
    requires
        items.len() == keys.len(),
    ensures
        stably_sorted(items, keys).len() == items.len(),
        forall|a: int|
            0 <= a < items.len() ==> 0 <= #[trigger] stable_positions(keys)[a] < items.len()
                && stably_sorted(items, keys)[a] == items[stable_positions(keys)[a]],
        forall|a: int, b: int|
            0 <= a < b < items.len() ==> {
                let (i, j) = (
                    #[trigger] stable_positions(keys)[a],
                    #[trigger] stable_positions(keys)[b],
                );
                &&& i != j
                &&& keys[i].leq(keys[j])
                &&& keys[j].leq(keys[i]) ==> i < j
            },
        forall|x: T| #[trigger] stably_sorted(items, keys).contains(x) <==> items.contains(x),
{
    stable_positions_sort(keys);
    let positions = stable_positions(keys);
    let sorted = stably_sorted(items, keys);
    assert forall|x: T| #[trigger] sorted.contains(x) <==> items.contains(x) by {
        if sorted.contains(x) {
            let a = choose|a: int| 0 <= a < sorted.len() && sorted[a] == x;
            assert(items[positions[a]] == x);
        }
        if items.contains(x) {
            let i = choose|i: int| 0 <= i < items.len() && items[i] == x;
            assert(positions.contains(i));
            let a = choose|a: int| 0 <= a < positions.len() && positions[a] == i;
            assert(sorted[a] == x);
        }
    }
}

} // verus!
