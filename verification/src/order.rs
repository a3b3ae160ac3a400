//! A stable sort over any type that says which of two values may stand first.

use vstd::prelude::*;
use vstd::seq_lib::*;

verus! {

/// Values that have a rank: a total preorder.
pub trait Rank: Sized {
    /// `self` may stand before `other`.
    spec fn precedes(&self, other: &Self) -> bool;

    /// Of any two values one may stand before the other.
    proof fn lemma_total(a: &Self, b: &Self)
        ensures
            a.precedes(b) || b.precedes(a),
    ;

    /// What may stand before a value may stand before all that the value precedes.
    proof fn lemma_transitive(a: &Self, b: &Self, c: &Self)
        requires
            a.precedes(b),
            b.precedes(c),
        ensures
            a.precedes(c),
    ;
}

/// Values whose rank can be computed, and which can so be sorted.
pub trait Ranked: Rank {
    /// Computes `precedes`.
    fn ranks_before(&self, other: &Self) -> (r: bool)
        ensures
            r == self.precedes(other),
    ;
}

/// Where `x` goes in `row`: in front of the first value that it may precede,
/// at the end where there is none.
pub open spec fn slot<T: Rank>(row: Seq<T>, x: T) -> int
    decreases row.len(),
{
    if row.len() == 0 || x.precedes(&row[0]) {
        0
    } else {
        1 + slot(row.drop_first(), x)
    }
}

/// `row` with `x` put at its slot.
pub open spec fn placed<T: Rank>(row: Seq<T>, x: T) -> Seq<T> {
    row.insert(slot(row, x), x)
}

/// The values of `s` by rank. Each value is put, from the last to the first,
/// in front of those already placed that it may precede, so values of equal
/// rank keep the order they had in `s`.
pub open spec fn arranged<T: Rank>(s: Seq<T>) -> Seq<T>
    decreases s.len(),
{
    if s.len() == 0 {
        s
    } else {
        placed(arranged(s.drop_first()), s[0])
    }
}

/// Every value may stand before all that follow it.
pub open spec fn in_rank_order<T: Rank>(s: Seq<T>) -> bool {
    forall|i: int, j: int|
        #![trigger s[i], s[j]]
        0 <= i < j < s.len() ==> s[i].precedes(&s[j])
}

/// The slot lies within the row; `x` may precede nothing in front of it, and
/// may precede what stands at it.
pub proof fn lemma_slot<T: Rank>(row: Seq<T>, x: T)
    ensures
        0 <= slot(row, x) <= row.len(),
        forall|j: int| 0 <= j < slot(row, x) ==> !x.precedes(&#[trigger] row[j]),
        slot(row, x) < row.len() ==> x.precedes(&row[slot(row, x)]),
    decreases row.len(),
{
    if row.len() == 0 || x.precedes(&row[0]) {
    } else {
        let rest = row.drop_first();
        lemma_slot(rest, x);
        assert forall|j: int| 0 <= j < slot(row, x) implies !x.precedes(&#[trigger] row[j]) by {
            if j > 0 {
                assert(row[j] == rest[j - 1]);
            }
        }
        if slot(row, x) < row.len() {
            assert(row[slot(row, x)] == rest[slot(rest, x)]);
        }
    }
}

/// Placing a value in a row that is in rank order leaves it in rank order.
pub proof fn lemma_placed_in_rank_order<T: Rank>(row: Seq<T>, x: T)
    requires
        in_rank_order(row),
    ensures
        in_rank_order(placed(row, x)),
{
    lemma_slot(row, x);
    let p = slot(row, x);
    let out = placed(row, x);
    assert forall|i: int, j: int|
        #![trigger out[i], out[j]]
        0 <= i < j < out.len() implies out[i].precedes(&out[j]) by {
        if j == p {
            // out[i] is row[i], which x may not precede: so it may precede x.
            assert(out[i] == row[i]);
            T::lemma_total(&x, &row[i]);
        } else if i == p {
            // out[j] is row[j - 1], at or behind the slot.
            assert(out[j] == row[j - 1]);
            if j - 1 > p {
                assert(row[p].precedes(&row[j - 1]));
                T::lemma_transitive(&x, &row[p], &row[j - 1]);
            }
        } else {
            let a = if i < p { i } else { i - 1 };
            let b = if j < p { j } else { j - 1 };
            assert(out[i] == row[a]);
            assert(out[j] == row[b]);
            assert(row[a].precedes(&row[b]));
        }
    }
}

/// The arranged row is in rank order.
pub proof fn lemma_arranged_in_rank_order<T: Rank>(s: Seq<T>)
    ensures
        in_rank_order(arranged(s)),
    decreases s.len(),
{
    if s.len() > 0 {
        lemma_arranged_in_rank_order(s.drop_first());
        lemma_placed_in_rank_order(arranged(s.drop_first()), s[0]);
    }
}

/// A row that is in rank order is arranged as it stands.
pub proof fn lemma_arranged_of_ordered<T: Rank>(s: Seq<T>)
    requires
        in_rank_order(s),
    ensures
        arranged(s) == s,
    decreases s.len(),
{
    if s.len() > 0 {
        let rest = s.drop_first();
        assert forall|i: int, j: int|
            #![trigger rest[i], rest[j]]
            0 <= i < j < rest.len() implies rest[i].precedes(&rest[j]) by {
            assert(rest[i] == s[i + 1]);
            assert(rest[j] == s[j + 1]);
        }
        lemma_arranged_of_ordered(rest);
        if rest.len() > 0 {
            assert(rest[0] == s[1]);
            assert(s[0].precedes(&s[1]));
        }
        assert(slot(rest, s[0]) == 0);
        assert(rest.insert(0, s[0]) =~= s);
    }
}

/// The arranged row holds the values of `s`, each as often as `s` does.
pub proof fn lemma_arranged_permutes<T: Rank>(s: Seq<T>)
    ensures
        arranged(s).to_multiset() == s.to_multiset(),
        arranged(s).len() == s.len(),
    decreases s.len(),
{
    broadcast use group_to_multiset_ensures;

    if s.len() > 0 {
        let rest = s.drop_first();
        lemma_arranged_permutes(rest);
        lemma_slot(arranged(rest), s[0]);
        to_multiset_insert(arranged(rest), slot(arranged(rest), s[0]), s[0]);
        to_multiset_insert(rest, 0, s[0]);
        assert(rest.insert(0, s[0]) =~= s);
    }
}

/// `y` is of the rank of `x`: each may stand before the other.
pub open spec fn ties<T: Rank>(x: T, y: T) -> bool {
    x.precedes(&y) && y.precedes(&x)
}

/// The test that picks the values of the rank of `x`.
pub open spec fn of_rank<T: Rank>(x: T) -> spec_fn(T) -> bool {
    |y: T| ties(x, y)
}

/// A row in which nothing passes a test has nothing left after filtering.
proof fn lemma_filter_none<T>(row: Seq<T>, test: spec_fn(T) -> bool)
    requires
        forall|i: int| 0 <= i < row.len() ==> !test(#[trigger] row[i]),
    ensures
        row.filter(test) == Seq::<T>::empty(),
    decreases row.len(),
{
    reveal(Seq::filter);
    if row.len() > 0 {
        let front = row.drop_last();
        assert forall|i: int| 0 <= i < front.len() implies !test(#[trigger] front[i]) by {
            assert(front[i] == row[i]);
        }
        lemma_filter_none(front, test);
        assert(!test(row[row.len() - 1]));
    } else {
        assert(row =~= Seq::<T>::empty());
    }
}

/// Filtering a row with one value put in filters what stands in front of the
/// value, the value, and what stands behind it.
proof fn lemma_filter_insert<T>(row: Seq<T>, at: int, x: T, test: spec_fn(T) -> bool)
    requires
        0 <= at <= row.len(),
    ensures
        row.insert(at, x).filter(test) == row.subrange(0, at).filter(test) + seq![x].filter(test)
            + row.subrange(at, row.len() as int).filter(test),
        row.filter(test) == row.subrange(0, at).filter(test) + row.subrange(
            at,
            row.len() as int,
        ).filter(test),
{
    let front = row.subrange(0, at);
    let back = row.subrange(at, row.len() as int);
    assert(row.insert(at, x) =~= (front + seq![x]) + back);
    assert(row =~= front + back);
    Seq::filter_distributes_over_add(front + seq![x], back, test);
    Seq::filter_distributes_over_add(front, seq![x], test);
    Seq::filter_distributes_over_add(front, back, test);
}

/// Arranging is stable: the values of any one rank stand in the arranged row
/// in the order in which they stand in `s`.
pub proof fn lemma_arranged_stable<T: Rank>(s: Seq<T>, x: T)
    ensures
        arranged(s).filter(of_rank(x)) == s.filter(of_rank(x)),
    decreases s.len(),
{
    let test = of_rank(x);
    if s.len() > 0 {
        let v = s[0];
        let rest = s.drop_first();
        let row = arranged(rest);
        let at = slot(row, v);
        lemma_arranged_stable(rest, x);
        lemma_slot(row, v);
        lemma_filter_insert(row, at, v, test);
        lemma_filter_insert(rest, 0, v, test);
        assert(rest.insert(0, v) =~= s);
        assert(rest.subrange(0, 0) =~= Seq::<T>::empty());
        assert(rest.subrange(0, rest.len() as int) =~= rest);
        lemma_filter_none(rest.subrange(0, 0), test);
        let front = row.subrange(0, at);
        if test(v) {
            assert forall|i: int| 0 <= i < front.len() implies !test(#[trigger] front[i]) by {
                assert(front[i] == row[i]);
                if test(row[i]) {
                    T::lemma_transitive(&v, &x, &row[i]);
                }
            }
            lemma_filter_none(front, test);
            assert(arranged(s).filter(test) =~= s.filter(test));
        } else {
            reveal(Seq::filter);
            assert(seq![v].drop_last() =~= Seq::<T>::empty());
            lemma_filter_none(seq![v], test);
            assert(arranged(s).filter(test) =~= s.filter(test));
        }
    } else {
    }
}

/// The slot of a value does not change when the row and the value are seen
/// through a function that keeps their ranks.
proof fn lemma_slot_maps<T: Rank, V: Rank>(row: Seq<T>, x: T, f: spec_fn(T) -> V)
    requires
        forall|a: T, b: T| #[trigger] a.precedes(&b) == f(a).precedes(&f(b)),
    ensures
        slot(row.map_values(f), f(x)) == slot(row, x),
    decreases row.len(),
{
    if row.len() > 0 {
        assert(row.map_values(f)[0] == f(row[0]));
        assert(x.precedes(&row[0]) == f(x).precedes(&f(row[0])));
        if !x.precedes(&row[0]) {
            lemma_slot_maps(row.drop_first(), x, f);
            assert(row.map_values(f).drop_first() =~= row.drop_first().map_values(f));
        }
    }
}

/// Arranging and then looking through a function that keeps the ranks gives
/// what looking first and arranging then gives.
pub proof fn lemma_arranged_maps<T: Rank, V: Rank>(s: Seq<T>, f: spec_fn(T) -> V)
    requires
        forall|a: T, b: T| #[trigger] a.precedes(&b) == f(a).precedes(&f(b)),
    ensures
        arranged(s).map_values(f) == arranged(s.map_values(f)),
    decreases s.len(),
{
    if s.len() == 0 {
        assert(s.map_values(f) =~= Seq::<V>::empty());
        assert(arranged(s).map_values(f) =~= Seq::<V>::empty());
    } else {
        let rest = s.drop_first();
        let row = arranged(rest);
        lemma_arranged_maps(rest, f);
        lemma_slot_maps(row, s[0], f);
        lemma_slot(row, s[0]);
        assert(s.map_values(f).drop_first() =~= rest.map_values(f));
        assert(s.map_values(f)[0] == f(s[0]));
        assert(row.insert(slot(row, s[0]), s[0]).map_values(f) =~= row.map_values(f).insert(
            slot(row, s[0]),
            f(s[0]),
        ));
    }
}

/// Puts `x` at its slot in `row`.
pub fn place<T: Ranked>(row: &mut Vec<T>, x: T)
    ensures
        final(row)@ == placed(old(row)@, x),
{
    let n = row.len();
    let mut i: usize = 0;
    assert(row@.skip(0) =~= row@);
    loop
        invariant
            n == row@.len(),
            row@ == old(row)@,
            i <= n,
            slot(row@, x) == i + slot(row@.skip(i as int), x),
        ensures
            i <= n,
            row@ == old(row)@,
            slot(row@, x) == i,
        decreases n - i,
    {
        if i == n {
            break;
        }
        assert(row@.skip(i as int)[0] == row@[i as int]);
        if x.ranks_before(&row[i]) {
            break;
        }
        assert(row@.skip(i as int).drop_first() =~= row@.skip(i + 1));
        i += 1;
    }
    row.insert(i, x);
}

/// Sorts `items` by rank; values of equal rank keep their order.
pub fn stable_sort<T: Ranked>(items: Vec<T>) -> (sorted: Vec<T>)
    ensures
        sorted@ == arranged(items@),
        in_rank_order(sorted@),
        sorted@.to_multiset() == items@.to_multiset(),
{
    let ghost all = items@;
    let mut rest = items;
    let mut sorted: Vec<T> = Vec::new();
    while rest.len() > 0
        invariant
            rest@ == all.subrange(0, rest@.len() as int),
            rest@.len() <= all.len(),
            sorted@ == arranged(all.subrange(rest@.len() as int, all.len() as int)),
        decreases rest@.len(),
    {
        let ghost k = rest@.len() as int;
        let x = rest.pop().unwrap();
        proof {
            let tail = all.subrange(k - 1, all.len() as int);
            assert(tail[0] == x);
            assert(tail.drop_first() =~= all.subrange(k, all.len() as int));
            assert(rest@ =~= all.subrange(0, k - 1));
        }
        place(&mut sorted, x);
    }
    proof {
        assert(all.subrange(0, all.len() as int) =~= all);
        lemma_arranged_in_rank_order(all);
        lemma_arranged_permutes(all);
    }
    sorted
}

} // verus!
