//! Stable sorting.

use vstd::prelude::*;

use crate::decimal;
use crate::decimal::Decimal;

verus! {

/// `s` with `x` put behind the last element that is not to come after it.
pub open spec fn inserted<A>(s: Seq<A>, x: A, le: spec_fn(A, A) -> bool) -> Seq<A>
    decreases s.len(),
{
    if s.len() == 0 || le(s.last(), x) {
        s.push(x)
    } else {
        inserted(s.drop_last(), x, le).push(s.last())
    }
}

/// The elements of `s` in order, those of which neither is to come first as they
/// were.
pub open spec fn sorted<A>(s: Seq<A>, le: spec_fn(A, A) -> bool) -> Seq<A>
    decreases s.len(),
{
    if s.len() == 0 {
        s
    } else {
        inserted(sorted(s.drop_last(), le), s.last(), le)
    }
}

/// Whether no element is to come before one that stands before it.
pub open spec fn ordered<A>(s: Seq<A>, le: spec_fn(A, A) -> bool) -> bool {
    forall|i: int, j: int| 0 <= i <= j < s.len() ==> #[trigger] le(s[i], s[j])
}

/// Whether any two elements can be put in order, and orders agree.
pub open spec fn total_preorder<A>(le: spec_fn(A, A) -> bool) -> bool {
    &&& forall|a: A, b: A| #[trigger] le(a, b) || le(b, a)
    &&& forall|a: A, b: A, c: A| #[trigger] le(a, b) && #[trigger] le(b, c) ==> le(a, c)
}

/// Putting an element in at an index leaves the elements before and behind it.
pub proof fn lemma_inserted<A>(s: Seq<A>, x: A, le: spec_fn(A, A) -> bool, k: int)
    requires
        0 <= k <= s.len(),
        forall|i: int| k <= i < s.len() ==> !#[trigger] le(s[i], x),
        k == 0 || le(s[k - 1], x),
    ensures
        inserted(s, x, le) == s.insert(k, x),
    decreases s.len(),
{
    if k == s.len() {
        assert(s.insert(k, x) =~= s.push(x));
    } else {
        let t = s.drop_last();
        assert(t =~= s.take(s.len() - 1));
        lemma_inserted(t, x, le, k);
        assert(t.insert(k, x).push(s.last()) =~= s.insert(k, x));
    }
}

proof fn lemma_inserted_ordered<A>(s: Seq<A>, x: A, le: spec_fn(A, A) -> bool)
    requires
        ordered(s, le),
        total_preorder(le),
    ensures
        ordered(inserted(s, x, le), le),
        inserted(s, x, le).len() == s.len() + 1,
        inserted(s, x, le).to_multiset() == s.to_multiset().insert(x),
        forall|i: int| 0 <= i < inserted(s, x, le).len() ==> #[trigger] inserted(s, x, le)[i] == x || s.contains(inserted(s, x, le)[i]),
    decreases s.len(),
{
    broadcast use vstd::seq_lib::group_to_multiset_ensures;

    let r = inserted(s, x, le);
    if s.len() == 0 {
        assert(ordered(r, le));
    } else if le(s.last(), x) {
        assert forall|i: int, j: int| 0 <= i <= j < r.len() implies #[trigger] le(r[i], r[j]) by {
            if j == s.len() && i < s.len() {
                assert(le(s[i], s[s.len() - 1]));
            }
        }
        assert forall|i: int| 0 <= i < r.len() implies #[trigger] r[i] == x || s.contains(r[i]) by {
            if i < s.len() {
                assert(s[i] == r[i]);
            }
        }
    } else {
        let t = s.drop_last();
        assert(s =~= t.push(s.last()));
        assert forall|i: int, j: int| 0 <= i <= j < t.len() implies #[trigger] le(t[i], t[j]) by {
            assert(le(s[i], s[j]));
        }
        lemma_inserted_ordered(t, x, le);
        let q = inserted(t, x, le);
        assert forall|i: int, j: int| 0 <= i <= j < r.len() implies #[trigger] le(r[i], r[j]) by {
            if j == q.len() {
                if i < q.len() {
                    assert(q[i] == x || t.contains(q[i]));
                    if q[i] != x {
                        let k = choose|k: int| 0 <= k < t.len() && t[k] == q[i];
                        assert(le(s[k], s[s.len() - 1]));
                    } else {
                        assert(le(s.last(), x) || le(x, s.last()));
                    }
                }
            } else {
                assert(le(q[i], q[j]));
            }
        }
        assert forall|i: int| 0 <= i < r.len() implies #[trigger] r[i] == x || s.contains(r[i]) by {
            if i < q.len() {
                assert(r[i] == q[i]);
                if q[i] != x {
                    let k = choose|k: int| 0 <= k < t.len() && t[k] == q[i];
                    assert(s[k] == q[i]);
                }
            } else {
                assert(s[s.len() - 1] == r[i]);
            }
        }
        assert(r.to_multiset() =~= s.to_multiset().insert(x));
    }
}

/// Sorting puts the elements in order and neither loses nor adds any.
pub proof fn sorting_orders<A>(s: Seq<A>, le: spec_fn(A, A) -> bool)
    requires
        total_preorder(le),
    ensures
        ordered(sorted(s, le), le),
        sorted(s, le).len() == s.len(),
        sorted(s, le).to_multiset() == s.to_multiset(),
    decreases s.len(),
{
    broadcast use vstd::seq_lib::group_to_multiset_ensures;

    if s.len() > 0 {
        sorting_orders(s.drop_last(), le);
        lemma_inserted_ordered(sorted(s.drop_last(), le), s.last(), le);
        assert(s =~= s.drop_last().push(s.last()));
    }
}

proof fn lemma_inserted_keeps<A>(s: Seq<A>, x: A, le: spec_fn(A, A) -> bool, p: spec_fn(A) -> bool)
    requires
        forall|i: int| 0 <= i < s.len() ==> #[trigger] p(s[i]),
        p(x),
    ensures
        inserted(s, x, le).len() == s.len() + 1,
        forall|i: int| 0 <= i < inserted(s, x, le).len() ==> #[trigger] p(inserted(s, x, le)[i]),
    decreases s.len(),
{
    if s.len() > 0 && !le(s.last(), x) {
        assert forall|i: int| 0 <= i < s.drop_last().len() implies #[trigger] p(
            s.drop_last()[i],
        ) by {
            assert(p(s[i]));
        }
        lemma_inserted_keeps(s.drop_last(), x, le, p);
        assert(p(s[s.len() - 1]));
    }
}

/// What holds of each element of some holds of each of them in order.
pub proof fn lemma_sorted_keeps<A>(s: Seq<A>, le: spec_fn(A, A) -> bool, p: spec_fn(A) -> bool)
    requires
        forall|i: int| 0 <= i < s.len() ==> #[trigger] p(s[i]),
    ensures
        sorted(s, le).len() == s.len(),
        forall|i: int| 0 <= i < sorted(s, le).len() ==> #[trigger] p(sorted(s, le)[i]),
    decreases s.len(),
{
    if s.len() > 0 {
        assert forall|i: int| 0 <= i < s.drop_last().len() implies #[trigger] p(
            s.drop_last()[i],
        ) by {
            assert(p(s[i]));
        }
        lemma_sorted_keeps(s.drop_last(), le, p);
        assert(p(s[s.len() - 1]));
        lemma_inserted_keeps(sorted(s.drop_last(), le), s.last(), le, p);
    }
}

spec fn how_many<A>(s: Seq<A>, p: spec_fn(A) -> bool) -> int
    decreases s.len(),
{
    if s.len() == 0 {
        0
    } else {
        how_many(s.drop_last(), p) + if p(s.last()) {
            1int
        } else {
            0
        }
    }
}

proof fn lemma_how_many_without<A>(s: Seq<A>, j: int, p: spec_fn(A) -> bool)
    requires
        0 <= j < s.len(),
    ensures
        how_many(s, p) == how_many(s.remove(j), p) + if p(s[j]) {
            1int
        } else {
            0
        },
    decreases s.len(),
{
    if j == s.len() - 1 {
        assert(s.remove(j) =~= s.drop_last());
    } else {
        lemma_how_many_without(s.drop_last(), j, p);
        assert(s.remove(j).drop_last() =~= s.drop_last().remove(j));
    }
}

proof fn lemma_how_many_same<A>(s: Seq<A>, t: Seq<A>, p: spec_fn(A) -> bool)
    requires
        s.to_multiset() == t.to_multiset(),
    ensures
        s.len() == t.len(),
        how_many(s, p) == how_many(t, p),
    decreases s.len(),
{
    broadcast use vstd::seq_lib::group_to_multiset_ensures;

    assert(s.len() == s.to_multiset().len());
    assert(t.len() == t.to_multiset().len());
    if s.len() > 0 {
        let x = s.last();
        let last = s.len() - 1;
        assert(s.contains(x)) by {
            assert(s[last] == x);
        }
        assert(s.to_multiset().count(x) > 0);
        assert(t.to_multiset().count(x) > 0);
        let j = choose|j: int| 0 <= j < t.len() && t[j] == x;
        assert(s.remove(last) =~= s.drop_last());
        assert(s.remove(last).to_multiset() == t.remove(j).to_multiset());
        lemma_how_many_same(s.drop_last(), t.remove(j), p);
        lemma_how_many_without(t, j, p);
    }
}

proof fn lemma_how_many_bounds<A>(s: Seq<A>, k: int, p: spec_fn(A) -> bool)
    requires
        0 <= k <= s.len(),
    ensures
        (forall|i: int| 0 <= i < k ==> #[trigger] p(s[i])) ==> how_many(s, p) >= k,
        (forall|i: int| k <= i < s.len() ==> !#[trigger] p(s[i])) ==> how_many(s, p) <= k,
        how_many(s, p) >= 0,
    decreases s.len(),
{
    if s.len() > 0 {
        let t = s.drop_last();
        let m = if k < s.len() {
            k
        } else {
            k - 1
        };
        lemma_how_many_bounds(t, m, p);
        if forall|i: int| 0 <= i < k ==> #[trigger] p(s[i]) {
            assert forall|i: int| 0 <= i < m implies #[trigger] p(t[i]) by {
                assert(p(s[i]));
            }
            if k == s.len() {
                assert(p(s[k - 1]));
            }
        }
        if forall|i: int| k <= i < s.len() ==> !#[trigger] p(s[i]) {
            assert forall|i: int| m <= i < t.len() implies !#[trigger] p(t[i]) by {
                assert(!p(s[i]));
            }
            if k < s.len() {
                assert(!p(s[s.len() - 1]));
            }
        }
    }
}

proof fn lemma_not_after<A>(s: Seq<A>, t: Seq<A>, le: spec_fn(A, A) -> bool, i: int)
    requires
        total_preorder(le),
        ordered(s, le),
        ordered(t, le),
        s.to_multiset() == t.to_multiset(),
        s.len() == t.len(),
        0 <= i < s.len(),
    ensures
        le(t[i], s[i]),
{
    if !le(t[i], s[i]) {
        let p = |a: A| le(a, s[i]);
        lemma_how_many_same(s, t, p);
        lemma_how_many_bounds(s, i + 1, p);
        lemma_how_many_bounds(t, i, p);
        assert forall|j: int| 0 <= j < i + 1 implies #[trigger] p(s[j]) by {
            assert(le(s[j], s[i]));
        }
        assert forall|j: int| i <= j < t.len() implies !#[trigger] p(t[j]) by {
            if p(t[j]) {
                assert(le(t[i], t[j]));
                assert(le(t[j], s[i]));
            }
        }
        assert(false);
    }
}

/// The same elements in order are in step, however they came to be in order.
pub proof fn orders_agree<A>(s: Seq<A>, t: Seq<A>, le: spec_fn(A, A) -> bool)
    requires
        total_preorder(le),
        ordered(s, le),
        ordered(t, le),
        s.to_multiset() == t.to_multiset(),
    ensures
        s.len() == t.len(),
        forall|i: int| 0 <= i < s.len() ==> #[trigger] le(s[i], t[i]) && le(t[i], s[i]),
{
    lemma_how_many_same(s, t, |a: A| true);
    assert forall|i: int| 0 <= i < s.len() implies #[trigger] le(s[i], t[i]) && le(
        t[i],
        s[i],
    ) by {
        lemma_not_after(s, t, le, i);
        lemma_not_after(t, s, le, i);
    }
}

/// The order of amounts, from the smallest to the largest.
pub open spec fn amount_order() -> spec_fn(Decimal, Decimal) -> bool {
    |a: Decimal, b: Decimal| decimal::at_most(a, b)
}

/// Some amounts from the smallest to the largest.
pub fn sort_amounts(v: &Vec<Decimal>) -> (r: Vec<Decimal>)
    ensures
        r@ == sorted(v@, amount_order()),
{
    let mut out: Vec<Decimal> = Vec::new();
    let mut i: usize = 0;
    while i < v.len()
        invariant
            i <= v@.len(),
            out@ == sorted(v@.take(i as int), amount_order()),
        decreases v@.len() - i,
    {
        let x = v[i];
        let mut k: usize = out.len();
        while k > 0 && !out[k - 1].le(&x)
            invariant
                k <= out@.len(),
                forall|j: int| k <= j < out@.len() ==> !#[trigger] amount_order()(out@[j], x),
            decreases k,
        {
            k = k - 1;
        }
        proof {
            assert(v@.take(i + 1).drop_last() =~= v@.take(i as int));
            if k > 0 {
                assert(amount_order()(out@[k - 1], x));
            }
            lemma_inserted(out@, x, amount_order(), k as int);
        }
        out.insert(k, x);
        i = i + 1;
    }
    assert(v@.take(i as int) =~= v@);
    out
}

/// The order of amounts is one that sorting can go by.
pub proof fn amount_order_is_total()
    ensures
        total_preorder(amount_order()),
{
    let le = amount_order();
    assert forall|a: Decimal, b: Decimal| #[trigger] le(a, b) || le(b, a) by {
        decimal::amounts_are_ordered(a, b, a);
    }
    assert forall|a: Decimal, b: Decimal, c: Decimal| #[trigger]
        le(a, b) && #[trigger] le(b, c) implies le(a, c) by {
        decimal::amounts_are_ordered(a, b, c);
    }
}

/// Elements that are in order either way keep the order in which they came.
pub proof fn sorting_is_stable<A>(s: Seq<A>, le: spec_fn(A, A) -> bool, a: A)
    requires
        total_preorder(le),
    ensures
        sorted(s, le).filter(|y: A| le(a, y) && le(y, a)) == s.filter(
            |y: A| le(a, y) && le(y, a),
        ),
    decreases s.len(),
{
    let same = |y: A| le(a, y) && le(y, a);
    reveal(Seq::filter);
    if s.len() > 0 {
        sorting_is_stable(s.drop_last(), le, a);
        lemma_inserted_stable(sorted(s.drop_last(), le), s.last(), le, a);
    }
}

proof fn lemma_inserted_stable<A>(t: Seq<A>, x: A, le: spec_fn(A, A) -> bool, a: A)
    requires
        total_preorder(le),
    ensures
        ({
            let same = |y: A| le(a, y) && le(y, a);
            inserted(t, x, le).filter(same) == (if same(x) {
                t.filter(same).push(x)
            } else {
                t.filter(same)
            })
        }),
    decreases t.len(),
{
    let same = |y: A| le(a, y) && le(y, a);
    reveal(Seq::filter);
    let r = inserted(t, x, le);
    if t.len() == 0 || le(t.last(), x) {
        assert(r =~= t.push(x));
        assert(r.drop_last() =~= t);
        assert(r.last() == x);
    } else {
        lemma_inserted_stable(t.drop_last(), x, le, a);
        let i = inserted(t.drop_last(), x, le);
        assert(r =~= i.push(t.last()));
        assert(r.drop_last() =~= i);
        assert(r.last() == t.last());
        if same(x) && same(t.last()) {
            assert(le(t.last(), a) && le(a, x));
            assert(le(t.last(), x));
        }
    }
}

} // verus!
