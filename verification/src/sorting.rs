//! Stable sorting by a total preorder.
use vstd::prelude::*;

verus! {

/// A value with a total preorder.
pub trait Ranked: Sized {
    spec fn rank_le(self, other: Self) -> bool;

    proof fn rank_total(a: Self, b: Self)
        ensures
            a.rank_le(b) || b.rank_le(a),
    ;

    proof fn rank_transitive(a: Self, b: Self, c: Self)
        requires
            a.rank_le(b),
            b.rank_le(c),
        ensures
            a.rank_le(c),
    ;
}

/// An executable value whose view is ranked and which can be compared.
pub trait Sortable: View + Sized where Self::V: Ranked {
    fn not_after(&self, other: &Self) -> (r: bool)
        ensures
            r == self@.rank_le(other@),
    ;
}

/// The views of the elements of a sequence, in order.
pub open spec fn views<T: View>(s: Seq<T>) -> Seq<T::V> {
    Seq::new(s.len(), |i: int| s[i]@)
}

/// `x` put into the sorted sequence `s` behind everything that does not rank after it.
pub open spec fn insert_sorted<T: Ranked>(s: Seq<T>, x: T) -> Seq<T>
    decreases s.len(),
{
    if s.len() == 0 || s.last().rank_le(x) {
        s.push(x)
    } else {
        insert_sorted(s.drop_last(), x).push(s.last())
    }
}

/// The elements of `s` in rank order; elements of equal rank keep their relative order.
pub open spec fn stable_sort<T: Ranked>(s: Seq<T>) -> Seq<T>
    decreases s.len(),
{
    if s.len() == 0 {
        Seq::empty()
    } else {
        insert_sorted(stable_sort(s.drop_last()), s.last())
    }
}

/// No element ranks after a later one.
pub open spec fn is_sorted<T: Ranked>(s: Seq<T>) -> bool {
    forall|i: int, j: int| 0 <= i <= j < s.len() ==> (#[trigger] s[i]).rank_le(#[trigger] s[j])
}

pub open spec fn same_rank<T: Ranked>(a: T, b: T) -> bool {
    a.rank_le(b) && b.rank_le(a)
}

/// The elements of `s` that rank the same as `x`, in their order in `s`.
pub open spec fn rank_class<T: Ranked>(s: Seq<T>, x: T) -> Seq<T>
    decreases s.len(),
{
    if s.len() == 0 {
        Seq::empty()
    } else if same_rank(s.last(), x) {
        rank_class(s.drop_last(), x).push(s.last())
    } else {
        rank_class(s.drop_last(), x)
    }
}

proof fn lemma_rank_class_push<T: Ranked>(s: Seq<T>, y: T, x: T)
    ensures
        rank_class(s.push(y), x) == if same_rank(y, x) {
            rank_class(s, x).push(y)
        } else {
            rank_class(s, x)
        },
{
    assert(s.push(y).drop_last() =~= s);
}

pub proof fn lemma_rank_class_concat<T: Ranked>(a: Seq<T>, b: Seq<T>, x: T)
    ensures
        rank_class(a + b, x) == rank_class(a, x) + rank_class(b, x),
    decreases b.len(),
{
    if b.len() == 0 {
        assert(a + b =~= a);
        assert(rank_class(a, x) + rank_class(b, x) =~= rank_class(a, x));
    } else {
        lemma_rank_class_concat(a, b.drop_last(), x);
        assert((a + b).drop_last() =~= a + b.drop_last());
        assert((a + b).last() == b.last());
        if same_rank(b.last(), x) {
            assert(rank_class(a, x) + rank_class(b.drop_last(), x).push(b.last()) =~= (rank_class(
                a,
                x,
            ) + rank_class(b.drop_last(), x)).push(b.last()));
        }
    }
}

proof fn lemma_rank_class_empty<T: Ranked>(s: Seq<T>, x: T)
    requires
        forall|i: int| 0 <= i < s.len() ==> !same_rank(#[trigger] s[i], x),
    ensures
        rank_class(s, x).len() == 0,
    decreases s.len(),
{
    if s.len() > 0 {
        assert(!same_rank(s[s.len() - 1], x));
        assert forall|i: int| 0 <= i < s.drop_last().len() implies !same_rank(
            #[trigger] s.drop_last()[i],
            x,
        ) by {
            assert(s.drop_last()[i] == s[i]);
        }
        lemma_rank_class_empty(s.drop_last(), x);
    }
}

proof fn lemma_rank_class_witness<T: Ranked>(s: Seq<T>, x: T) -> (k: int)
    requires
        rank_class(s, x).len() > 0,
    ensures
        0 <= k < s.len(),
        same_rank(s[k], x),
    decreases s.len(),
{
    if same_rank(s.last(), x) {
        s.len() - 1
    } else {
        let k = lemma_rank_class_witness(s.drop_last(), x);
        assert(s.drop_last()[k] == s[k]);
        k
    }
}

/// Two sorted sequences with the same rank classes are equal.
pub proof fn lemma_sorted_classes_unique<T: Ranked>(r1: Seq<T>, r2: Seq<T>)
    requires
        is_sorted(r1),
        is_sorted(r2),
        forall|x: T| #[trigger] rank_class(r1, x) == rank_class(r2, x),
    ensures
        r1 == r2,
    decreases r1.len(),
{
    if r1.len() == 0 {
        if r2.len() > 0 {
            let x = r2.last();
            T::rank_total(x, x);
            assert(rank_class(r2, x).len() > 0);
            assert(rank_class(r1, x).len() == 0);
        }
        assert(r1 =~= r2);
    } else {
        let x = r1.last();
        T::rank_total(x, x);
        assert(rank_class(r1, x).last() == x);
        assert(rank_class(r2, x) == rank_class(r1, x));
        let k = lemma_rank_class_witness(r2, x);
        let y = r2.last();
        assert(r2[k].rank_le(r2[r2.len() - 1]));
        T::rank_transitive(x, r2[k], y);
        T::rank_total(y, y);
        assert(rank_class(r2, y).last() == y);
        assert(rank_class(r1, y) == rank_class(r2, y));
        let m = lemma_rank_class_witness(r1, y);
        assert(r1[m].rank_le(r1[r1.len() - 1]));
        T::rank_transitive(y, r1[m], x);
        assert(same_rank(y, x));
        assert(rank_class(r2, x).last() == y);
        assert(x == y);
        let s1 = r1.drop_last();
        let s2 = r2.drop_last();
        assert forall|z: T| #[trigger] rank_class(s1, z) == rank_class(s2, z) by {
            assert(rank_class(r1, z) == rank_class(r2, z));
            if same_rank(x, z) {
                assert(rank_class(r1, z).drop_last() =~= rank_class(s1, z));
                assert(rank_class(r2, z).drop_last() =~= rank_class(s2, z));
            }
        }
        assert(is_sorted(s1)) by {
            assert forall|i: int, j: int| 0 <= i <= j < s1.len() implies (
            #[trigger] s1[i]).rank_le(#[trigger] s1[j]) by {
                assert(r1[i].rank_le(r1[j]));
            }
        }
        assert(is_sorted(s2)) by {
            assert forall|i: int, j: int| 0 <= i <= j < s2.len() implies (
            #[trigger] s2[i]).rank_le(#[trigger] s2[j]) by {
                assert(r2[i].rank_le(r2[j]));
            }
        }
        lemma_sorted_classes_unique(s1, s2);
        assert(r1 =~= s1.push(x));
        assert(r2 =~= s2.push(x));
    }
}

proof fn lemma_insert_sorted_members<T: Ranked>(s: Seq<T>, x: T, k: int)
    requires
        0 <= k < insert_sorted(s, x).len(),
    ensures
        insert_sorted(s, x).len() == s.len() + 1,
        insert_sorted(s, x)[k] == x || exists|i: int|
            0 <= i < s.len() && insert_sorted(s, x)[k] == #[trigger] s[i],
    decreases s.len(),
{
    if s.len() == 0 || s.last().rank_le(x) {
        if k < s.len() {
            assert(s.push(x)[k] == s[k]);
        }
    } else {
        let t = insert_sorted(s.drop_last(), x);
        lemma_insert_sorted_len(s.drop_last(), x);
        if k < t.len() {
            lemma_insert_sorted_members(s.drop_last(), x, k);
            if t[k] != x {
                let i = choose|i: int| 0 <= i < s.drop_last().len() && t[k] == #[trigger] s.drop_last()[i];
                assert(s[i] == t[k]);
            }
        } else {
            assert(s[s.len() - 1] == s.last());
        }
    }
}

proof fn lemma_insert_sorted_len<T: Ranked>(s: Seq<T>, x: T)
    ensures
        insert_sorted(s, x).len() == s.len() + 1,
    decreases s.len(),
{
    if !(s.len() == 0 || s.last().rank_le(x)) {
        lemma_insert_sorted_len(s.drop_last(), x);
    }
}

proof fn lemma_insert_sorted<T: Ranked>(s: Seq<T>, x: T)
    requires
        is_sorted(s),
    ensures
        is_sorted(insert_sorted(s, x)),
        forall|z: T|
            #[trigger] rank_class(insert_sorted(s, x), z) == if same_rank(x, z) {
                rank_class(s, z).push(x)
            } else {
                rank_class(s, z)
            },
    decreases s.len(),
{
    T::rank_total(x, x);
    let r = insert_sorted(s, x);
    if s.len() == 0 || s.last().rank_le(x) {
        assert forall|z: T| #[trigger] rank_class(r, z) == if same_rank(x, z) {
            rank_class(s, z).push(x)
        } else {
            rank_class(s, z)
        } by {
            lemma_rank_class_push(s, x, z);
        }
        assert forall|i: int, j: int| 0 <= i <= j < r.len() implies (#[trigger] r[i]).rank_le(
            #[trigger] r[j],
        ) by {
            if j == s.len() {
                if i < j {
                    assert(s[i].rank_le(s[s.len() - 1]));
                    T::rank_transitive(s[i], s.last(), x);
                }
            } else {
                assert(s[i].rank_le(s[j]));
            }
        }
    } else {
        let y = s.last();
        let s0 = s.drop_last();
        T::rank_total(x, y);
        T::rank_total(y, y);
        assert forall|i: int, j: int| 0 <= i <= j < s0.len() implies (#[trigger] s0[i]).rank_le(
            #[trigger] s0[j],
        ) by {
            assert(s[i].rank_le(s[j]));
        }
        lemma_insert_sorted(s0, x);
        let t = insert_sorted(s0, x);
        lemma_insert_sorted_len(s0, x);
        assert forall|i: int, j: int| 0 <= i <= j < r.len() implies (#[trigger] r[i]).rank_le(
            #[trigger] r[j],
        ) by {
            if j == t.len() {
                if i < j {
                    lemma_insert_sorted_members(s0, x, i);
                    if t[i] != x {
                        let k = choose|k: int| 0 <= k < s0.len() && t[i] == #[trigger] s0[k];
                        assert(s[k].rank_le(s[s.len() - 1]));
                    }
                }
            } else {
                assert(t[i].rank_le(t[j]));
            }
        }
        assert forall|z: T| #[trigger] rank_class(r, z) == if same_rank(x, z) {
            rank_class(s, z).push(x)
        } else {
            rank_class(s, z)
        } by {
            lemma_rank_class_push(t, y, z);
            assert(rank_class(t, z) == if same_rank(x, z) {
                rank_class(s0, z).push(x)
            } else {
                rank_class(s0, z)
            });
            if same_rank(y, z) && same_rank(x, z) {
                T::rank_transitive(y, z, x);
            }
        }
    }
}

/// `stable_sort` orders its argument and keeps each rank class as it is.
pub proof fn lemma_stable_sort<T: Ranked>(s: Seq<T>)
    ensures
        is_sorted(stable_sort(s)),
        stable_sort(s).len() == s.len(),
        forall|z: T| #[trigger] rank_class(stable_sort(s), z) == rank_class(s, z),
    decreases s.len(),
{
    if s.len() > 0 {
        let s0 = s.drop_last();
        lemma_stable_sort(s0);
        lemma_insert_sorted(stable_sort(s0), s.last());
        lemma_insert_sorted_len(stable_sort(s0), s.last());
        assert forall|z: T| #[trigger] rank_class(stable_sort(s), z) == rank_class(s, z) by {
            assert(rank_class(stable_sort(s0), z) == rank_class(s0, z));
        }
    }
}

/// A sorted sequence with the rank classes of `s` is its stable sort.
pub proof fn lemma_stable_sort_unique<T: Ranked>(r: Seq<T>, s: Seq<T>)
    requires
        is_sorted(r),
        forall|z: T| #[trigger] rank_class(r, z) == rank_class(s, z),
    ensures
        r == stable_sort(s),
{
    lemma_stable_sort(s);
    assert forall|z: T| #[trigger] rank_class(r, z) == rank_class(stable_sort(s), z) by {
        assert(rank_class(stable_sort(s), z) == rank_class(s, z));
    }
    lemma_sorted_classes_unique(r, stable_sort(s));
}

/// No element of `a` ranks after an element of `b`.
spec fn run_before<T: Ranked>(a: Seq<T>, b: Seq<T>) -> bool {
    forall|i: int, j: int|
        0 <= i < a.len() && 0 <= j < b.len() ==> (#[trigger] a[i]).rank_le(#[trigger] b[j])
}

/// Merges two sorted runs; elements of `left` come before elements of `right` of equal rank.
fn merge_runs<T: Sortable>(left: Vec<T>, right: Vec<T>) -> (merged: Vec<T>) where T::V: Ranked
    requires
        is_sorted(views(left@)),
        is_sorted(views(right@)),
    ensures
        is_sorted(views(merged@)),
        merged@.len() == left@.len() + right@.len(),
        forall|z: T::V| #[trigger]
            rank_class(views(merged@), z) == rank_class(views(left@), z) + rank_class(
                views(right@),
                z,
            ),
{
    let ghost l0 = views(left@);
    let ghost r0 = views(right@);
    let mut left = left;
    let mut right = right;
    let mut backward: Vec<T> = Vec::new();
    let ghost mut tail: Seq<T::V> = Seq::empty();
    proof {
        assert(tail =~= views(backward@).reverse());
        assert forall|z: T::V| rank_class(l0, z) + rank_class(r0, z) == #[trigger] rank_class(
            views(left@),
            z,
        ) + rank_class(views(right@), z) + rank_class(tail, z) by {
            assert(rank_class(tail, z) =~= Seq::empty());
            assert(rank_class(l0, z) + rank_class(r0, z) + Seq::empty() =~= rank_class(l0, z)
                + rank_class(r0, z));
        }
    }
    while left.len() > 0 || right.len() > 0
        invariant
            is_sorted(views(left@)),
            is_sorted(views(right@)),
            is_sorted(tail),
            tail.len() == backward@.len(),
            left@.len() + right@.len() + tail.len() == l0.len() + r0.len(),
            tail == views(backward@).reverse(),
            run_before(views(left@), tail),
            run_before(views(right@), tail),
            forall|z: T::V|
                rank_class(l0, z) + rank_class(r0, z) == #[trigger] rank_class(views(left@), z)
                    + rank_class(views(right@), z) + rank_class(tail, z),
        decreases left@.len() + right@.len(),
    {
        let take_left: bool = if left.len() == 0 {
            false
        } else if right.len() == 0 {
            true
        } else {
            !left[left.len() - 1].not_after(&right[right.len() - 1])
        };
        let ghost lv = views(left@);
        let ghost rv = views(right@);
        let ghost t0 = tail;
        if take_left {
            let ghost y = lv.last();
            match left.pop() {
                Some(x) => {
                    backward.push(x);
                },
                None => {},
            }
            proof {
                tail = seq![y] + t0;
                assert(tail =~= views(backward@).reverse());
                assert(views(left@) =~= lv.drop_last());
                lemma_take_run_end(lv, rv, t0, true);
                assert forall|z: T::V| rank_class(l0, z) + rank_class(r0, z) == #[trigger] rank_class(
                    views(left@),
                    z,
                ) + rank_class(views(right@), z) + rank_class(tail, z) by {
                    assert(rank_class(lv, z) + rank_class(rv, z) + rank_class(t0, z) == rank_class(
                        l0,
                        z,
                    ) + rank_class(r0, z));
                    lemma_take_left_class(lv, rv, t0, z);
                }
            }
        } else {
            let ghost y = rv.last();
            match right.pop() {
                Some(x) => {
                    backward.push(x);
                },
                None => {},
            }
            proof {
                tail = seq![y] + t0;
                assert(tail =~= views(backward@).reverse());
                assert(views(right@) =~= rv.drop_last());
                lemma_take_run_end(lv, rv, t0, false);
                assert forall|z: T::V| rank_class(l0, z) + rank_class(r0, z) == #[trigger] rank_class(
                    views(left@),
                    z,
                ) + rank_class(views(right@), z) + rank_class(tail, z) by {
                    assert(rank_class(lv, z) + rank_class(rv, z) + rank_class(t0, z) == rank_class(
                        l0,
                        z,
                    ) + rank_class(r0, z));
                    lemma_take_right_class(lv, rv, t0, z);
                }
            }
        }
    }
    let merged = reverse_run(backward);
    proof {
        assert(views(merged@) =~= tail);
        assert forall|z: T::V| #[trigger] rank_class(views(merged@), z) == rank_class(l0, z)
            + rank_class(r0, z) by {
            assert(rank_class(views(left@), z) + rank_class(views(right@), z) + rank_class(tail, z)
                =~= rank_class(tail, z));
        }
    }
    merged
}

/// What moving the last element of the chosen run to the front of the tail keeps.
proof fn lemma_take_run_end<V: Ranked>(l: Seq<V>, r: Seq<V>, t: Seq<V>, from_left: bool)
    requires
        is_sorted(l),
        is_sorted(r),
        is_sorted(t),
        from_left ==> l.len() > 0 && (r.len() > 0 ==> !l.last().rank_le(r.last())),
        !from_left ==> r.len() > 0 && (l.len() > 0 ==> l.last().rank_le(r.last())),
        run_before(l, t),
        run_before(r, t),
    ensures
        ({
            let y = if from_left { l.last() } else { r.last() };
            let t2 = seq![y] + t;
            let l2 = if from_left { l.drop_last() } else { l };
            let r2 = if from_left { r } else { r.drop_last() };
            &&& is_sorted(t2)
            &&& is_sorted(l2)
            &&& is_sorted(r2)
            &&& run_before(l2, t2)
            &&& run_before(r2, t2)
        }),
{
    let y = if from_left { l.last() } else { r.last() };
    let t2 = seq![y] + t;
    let l2 = if from_left { l.drop_last() } else { l };
    let r2 = if from_left { r } else { r.drop_last() };
    V::rank_total(y, y);
    if l.len() > 0 && r.len() > 0 {
        V::rank_total(l.last(), r.last());
    }
    assert forall|i: int| 0 <= i < l.len() implies (#[trigger] l[i]).rank_le(y) by {
        assert(l[i].rank_le(l[l.len() - 1]));
        if !from_left {
            V::rank_transitive(l[i], l.last(), y);
        }
    }
    assert forall|i: int| 0 <= i < r.len() implies (#[trigger] r[i]).rank_le(y) by {
        assert(r[i].rank_le(r[r.len() - 1]));
        if from_left {
            V::rank_transitive(r[i], r.last(), y);
        }
    }
    assert forall|j: int| 0 < j < t2.len() implies #[trigger] t2[j] == t[j - 1] by {}
    assert forall|j: int| 0 <= j < t.len() implies y.rank_le(#[trigger] t[j]) by {
        if from_left {
            assert(l[l.len() - 1].rank_le(t[j]));
        } else {
            assert(r[r.len() - 1].rank_le(t[j]));
        }
    }
    assert forall|i: int, j: int| 0 <= i <= j < t2.len() implies (#[trigger] t2[i]).rank_le(
        #[trigger] t2[j],
    ) by {
        if i > 0 {
            assert(t[i - 1].rank_le(t[j - 1]));
        } else if j > 0 {
            assert(y.rank_le(t[j - 1]));
        }
    }
    assert forall|i: int, j: int| 0 <= i <= j < l2.len() implies (#[trigger] l2[i]).rank_le(
        #[trigger] l2[j],
    ) by {
        assert(l[i].rank_le(l[j]));
    }
    assert forall|i: int, j: int| 0 <= i <= j < r2.len() implies (#[trigger] r2[i]).rank_le(
        #[trigger] r2[j],
    ) by {
        assert(r[i].rank_le(r[j]));
    }
    assert forall|i: int, j: int| 0 <= i < l2.len() && 0 <= j < t2.len() implies (
    #[trigger] l2[i]).rank_le(#[trigger] t2[j]) by {
        assert(l2[i] == l[i]);
        if j > 0 {
            assert(l[i].rank_le(t[j - 1]));
        }
    }
    assert forall|i: int, j: int| 0 <= i < r2.len() && 0 <= j < t2.len() implies (
    #[trigger] r2[i]).rank_le(#[trigger] t2[j]) by {
        assert(r2[i] == r[i]);
        if j > 0 {
            assert(r[i].rank_le(t[j - 1]));
        }
    }
}

proof fn lemma_take_right_class<V: Ranked>(l: Seq<V>, r: Seq<V>, t: Seq<V>, z: V)
    requires
        r.len() > 0,
    ensures
        rank_class(l, z) + rank_class(r.drop_last(), z) + rank_class(seq![r.last()] + t, z)
            == rank_class(l, z) + rank_class(r, z) + rank_class(t, z),
{
    let y = r.last();
    lemma_rank_class_concat(seq![y], t, z);
    lemma_rank_class_push(Seq::empty(), y, z);
    assert(Seq::<V>::empty().push(y) =~= seq![y]);
    assert(rank_class(l, z) + rank_class(r.drop_last(), z) + rank_class(seq![y] + t, z)
        =~= rank_class(l, z) + rank_class(r, z) + rank_class(t, z));
}

proof fn lemma_take_left_class<V: Ranked>(l: Seq<V>, r: Seq<V>, t: Seq<V>, z: V)
    requires
        is_sorted(r),
        l.len() > 0,
        r.len() > 0 ==> !l.last().rank_le(r.last()),
    ensures
        rank_class(l.drop_last(), z) + rank_class(r, z) + rank_class(seq![l.last()] + t, z)
            == rank_class(l, z) + rank_class(r, z) + rank_class(t, z),
{
    let y = l.last();
    lemma_rank_class_concat(seq![y], t, z);
    lemma_rank_class_push(Seq::empty(), y, z);
    assert(Seq::<V>::empty().push(y) =~= seq![y]);
    if same_rank(y, z) {
        assert forall|i: int| 0 <= i < r.len() implies !same_rank(#[trigger] r[i], z) by {
            if same_rank(r[i], z) {
                V::rank_transitive(y, z, r[i]);
                assert(r[i].rank_le(r[r.len() - 1]));
                V::rank_transitive(y, r[i], r.last());
            }
        }
        lemma_rank_class_empty(r, z);
    }
    assert(rank_class(l.drop_last(), z) + rank_class(r, z) + rank_class(seq![y] + t, z)
        =~= rank_class(l, z) + rank_class(r, z) + rank_class(t, z));
}

fn reverse_run<T>(run: Vec<T>) -> (reversed: Vec<T>)
    ensures
        reversed@.len() == run@.len(),
        forall|i: int| 0 <= i < run@.len() ==> #[trigger] reversed@[i] == run@[run@.len() - 1 - i],
{
    let ghost whole = run@;
    let mut run = run;
    let mut reversed: Vec<T> = Vec::new();
    while run.len() > 0
        invariant
            run@.len() + reversed@.len() == whole.len(),
            forall|i: int| 0 <= i < run@.len() ==> #[trigger] run@[i] == whole[i],
            forall|i: int|
                0 <= i < reversed@.len() ==> #[trigger] reversed@[i] == whole[whole.len() - 1 - i],
        decreases run@.len(),
    {
        match run.pop() {
            Some(x) => {
                reversed.push(x);
            },
            None => {},
        }
    }
    reversed
}

/// Sorts by rank, keeping the relative order of elements of equal rank.
pub fn sort_stable<T: Sortable>(items: Vec<T>) -> (sorted: Vec<T>) where T::V: Ranked
    ensures
        views(sorted@) == stable_sort(views(items@)),
    decreases items@.len(),
{
    let ghost whole = views(items@);
    if items.len() <= 1 {
        proof {
            assert forall|i: int, j: int| 0 <= i <= j < whole.len() implies (
            #[trigger] whole[i]).rank_le(#[trigger] whole[j]) by {
                T::V::rank_total(whole[i], whole[j]);
            }
            lemma_stable_sort_unique(whole, whole);
        }
        items
    } else {
        let mut left = items;
        let mid: usize = left.len() / 2;
        let right = left.split_off(mid);
        let ghost l = views(left@);
        let ghost r = views(right@);
        let left = sort_stable(left);
        let right = sort_stable(right);
        proof {
            lemma_stable_sort(l);
            lemma_stable_sort(r);
        }
        let merged = merge_runs(left, right);
        proof {
            assert(whole =~= l + r);
            assert forall|z: T::V| #[trigger] rank_class(views(merged@), z) == rank_class(whole, z) by {
                lemma_rank_class_concat(l, r, z);
                assert(rank_class(stable_sort(l), z) == rank_class(l, z));
                assert(rank_class(stable_sort(r), z) == rank_class(r, z));
            }
            lemma_stable_sort_unique(views(merged@), whole);
        }
        merged
    }
}

/// A ranking in which only equal values rank the same.
pub trait StrictlyRanked: Ranked {
    proof fn rank_antisymmetric(a: Self, b: Self)
        requires
            a.rank_le(b),
            b.rank_le(a),
        ensures
            a == b,
    ;
}

proof fn lemma_strict_class<T: StrictlyRanked>(s: Seq<T>, x: T)
    ensures
        rank_class(s, x).len() == s.to_multiset().count(x),
        forall|i: int| 0 <= i < rank_class(s, x).len() ==> #[trigger] rank_class(s, x)[i] == x,
    decreases s.len(),
{
    broadcast use vstd::seq_lib::group_to_multiset_ensures;

    if s.len() > 0 {
        let y = s.last();
        lemma_strict_class(s.drop_last(), x);
        assert(s =~= s.drop_last().push(y));
        assert(s.to_multiset() =~= s.drop_last().to_multiset().insert(y));
        if same_rank(y, x) {
            T::rank_antisymmetric(y, x);
        } else {
            T::rank_total(x, x);
        }
    }
}

/// Where only equal values rank the same, the sorted sequence depends on what was to be sorted
/// and not on the order in which it came.
pub proof fn law_sort_ignores_arrival_order<T: StrictlyRanked>(a: Seq<T>, b: Seq<T>)
    requires
        a.to_multiset() == b.to_multiset(),
    ensures
        stable_sort(a) == stable_sort(b),
{
    assert forall|x: T| #[trigger] rank_class(stable_sort(a), x) == rank_class(b, x) by {
        lemma_stable_sort(a);
        assert(rank_class(stable_sort(a), x) == rank_class(a, x));
        lemma_strict_class(a, x);
        lemma_strict_class(b, x);
        assert(rank_class(a, x) =~= rank_class(b, x));
    }
    lemma_stable_sort(a);
    lemma_stable_sort_unique(stable_sort(a), b);
}

proof fn lemma_insert_sorted_multiset<T: Ranked>(s: Seq<T>, x: T)
    ensures
        insert_sorted(s, x).to_multiset() == s.to_multiset().insert(x),
    decreases s.len(),
{
    broadcast use vstd::seq_lib::group_to_multiset_ensures;

    if !(s.len() == 0 || s.last().rank_le(x)) {
        lemma_insert_sorted_multiset(s.drop_last(), x);
        assert(s =~= s.drop_last().push(s.last()));
        assert(insert_sorted(s, x).to_multiset() =~= s.to_multiset().insert(x));
    }
}

/// Sorting neither loses nor adds anything.
pub proof fn law_sort_keeps_contents<T: Ranked>(s: Seq<T>)
    ensures
        stable_sort(s).to_multiset() == s.to_multiset(),
    decreases s.len(),
{
    broadcast use vstd::seq_lib::group_to_multiset_ensures;

    if s.len() > 0 {
        law_sort_keeps_contents(s.drop_last());
        lemma_insert_sorted_multiset(stable_sort(s.drop_last()), s.last());
        assert(s =~= s.drop_last().push(s.last()));
    } else {
        assert(stable_sort(s) =~= s);
    }
}

/// Sorting puts what ranks lower first, and leaves what ranks the same in the order that it had.
pub proof fn law_sort_is_stable<T: Ranked>(s: Seq<T>, x: T)
    ensures
        stable_sort(s).len() == s.len(),
        forall|i: int, j: int|
            0 <= i <= j < s.len() ==> (#[trigger] stable_sort(s)[i]).rank_le(
                #[trigger] stable_sort(s)[j],
            ),
        stable_sort(s).filter(|y: T| y.rank_le(x) && x.rank_le(y)) == s.filter(
            |y: T| y.rank_le(x) && x.rank_le(y),
        ),
{
    lemma_stable_sort(s);
    law_sort_keeps_contents(s);
    lemma_rank_class_filter(stable_sort(s), x);
    lemma_rank_class_filter(s, x);
}

proof fn lemma_rank_class_filter<T: Ranked>(s: Seq<T>, x: T)
    ensures
        rank_class(s, x) == s.filter(|y: T| y.rank_le(x) && x.rank_le(y)),
    decreases s.len(),
{
    reveal(Seq::filter);
    if s.len() > 0 {
        lemma_rank_class_filter(s.drop_last(), x);
    }
}

} // verus!
