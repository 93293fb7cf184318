//! Stable sorting by a total preorder, as `slice::sort_by` and
//! `slice::sort_by_key` order: equal elements keep their relative order.
use vstd::prelude::*;

verus! {

/// An order on the views of a type: total and transitive, with an
/// executable comparison.
pub trait SortOrder: View + Sized {
    /// `a` may stand before `b`.
    spec fn view_le(a: Self::V, b: Self::V) -> bool;

    fn le(&self, other: &Self) -> (r: bool)
        ensures
            r == Self::view_le(self@, other@),
    ;

    proof fn lemma_total(a: Self::V, b: Self::V)
        ensures
            Self::view_le(a, b) || Self::view_le(b, a),
    ;

    proof fn lemma_transitive(a: Self::V, b: Self::V, c: Self::V)
        requires
            Self::view_le(a, b),
            Self::view_le(b, c),
        ensures
            Self::view_le(a, c),
    ;
}

/// `x` placed into `s` after every element that may stand before it, counted
/// from the end: where `s` is sorted, after all elements not above `x`.
pub open spec fn insert_stable<T: SortOrder>(s: Seq<T::V>, x: T::V) -> Seq<T::V>
    decreases s.len(),
{
    if s.len() == 0 {
        seq![x]
    } else if T::view_le(s.last(), x) {
        s.push(x)
    } else {
        insert_stable::<T>(s.drop_last(), x).push(s.last())
    }
}

/// The stable sort of `s`: each element in turn placed into the sorted
/// earlier ones.
pub open spec fn stable_sorted<T: SortOrder>(s: Seq<T::V>) -> Seq<T::V>
    decreases s.len(),
{
    if s.len() == 0 {
        s
    } else {
        insert_stable::<T>(stable_sorted::<T>(s.drop_last()), s.last())
    }
}

/// Every element may stand before every later one.
pub open spec fn is_sorted<T: SortOrder>(s: Seq<T::V>) -> bool {
    forall|i: int, j: int| 0 <= i < j < s.len() ==> T::view_le(#[trigger] s[i], #[trigger] s[j])
}

pub open spec fn seq_views<T: View>(s: Seq<T>) -> Seq<T::V> {
    s.map_values(|x: T| x@)
}

proof fn lemma_insert_stable_at<T: SortOrder>(s: Seq<T::V>, x: T::V, j: int)
    requires
        0 <= j <= s.len(),
        forall|m: int| j <= m < s.len() ==> !T::view_le(#[trigger] s[m], x),
        j > 0 ==> T::view_le(s[j - 1], x),
    ensures
        insert_stable::<T>(s, x) == s.insert(j, x),
    decreases s.len(),
{
    if s.len() == 0 {
        assert(s.insert(j, x) =~= seq![x]);
    } else if j == s.len() {
        assert(s.insert(j, x) =~= s.push(x));
    } else {
        assert(!T::view_le(s[s.len() - 1], x));
        lemma_insert_stable_at::<T>(s.drop_last(), x, j);
        assert(s.drop_last().insert(j, x).push(s.last()) =~= s.insert(j, x));
    }
}

/// Sorts stably by `T`'s order.
#[verifier::rlimit(30)]
pub fn stable_sort<T: SortOrder>(items: Vec<T>) -> (r: Vec<T>)
    ensures
        seq_views(r@) == stable_sorted::<T>(seq_views(items@)),
{
    let ghost orig = seq_views(items@);
    let mut rest = items;
    let mut r: Vec<T> = Vec::new();
    let ghost mut done: int = 0;
    assert(orig.take(0) =~= Seq::<T::V>::empty());
    assert(seq_views(rest@) =~= orig.skip(0));
    while rest.len() > 0
        invariant
            0 <= done <= orig.len(),
            seq_views(rest@) == orig.skip(done),
            seq_views(r@) == stable_sorted::<T>(orig.take(done)),
        decreases rest.len(),
    {
        let ghost old_rest = rest@;
        assert(seq_views(old_rest).len() == old_rest.len());
        assert(seq_views(old_rest)[0] == old_rest[0]@);
        let x = rest.remove(0);
        assert(x@ == orig[done]);
        assert(rest@ =~= old_rest.subrange(1, old_rest.len() as int));
        assert forall|k: int| 0 <= k < rest.len() implies #[trigger] seq_views(rest@)[k]
            == orig.skip(done + 1)[k] by {
            assert(seq_views(rest@)[k] == rest@[k]@);
            assert(rest@[k] == old_rest[k + 1]);
            assert(seq_views(old_rest)[k + 1] == old_rest[k + 1]@);
            assert(orig.skip(done)[k + 1] == orig[done + k + 1]);
        }
        assert(seq_views(rest@) =~= orig.skip(done + 1));
        assert(orig.take(done + 1).drop_last() =~= orig.take(done));
        let ghost s = seq_views(r@);
        let mut j = r.len();
        while j > 0 && !r[j - 1].le(&x)
            invariant
                j <= r.len(),
                s == seq_views(r@),
                forall|m: int| j <= m < s.len() ==> !T::view_le(#[trigger] s[m], x@),
            decreases j,
        {
            j = j - 1;
        }
        proof {
            lemma_insert_stable_at::<T>(s, x@, j as int);
        }
        r.insert(j, x);
        assert(seq_views(r@) =~= s.insert(j as int, orig[done]));
        proof {
            done = done + 1;
        }
    }
    assert(orig.take(done) =~= orig);
    r
}

#[verifier::rlimit(30)]
proof fn lemma_insert_stable_sorted<T: SortOrder>(s: Seq<T::V>, x: T::V)
    requires
        is_sorted::<T>(s),
    ensures
        is_sorted::<T>(insert_stable::<T>(s, x)),
        insert_stable::<T>(s, x).to_multiset() == s.to_multiset().insert(x),
    decreases s.len(),
{
    broadcast use vstd::seq_lib::group_to_multiset_ensures;

    if s.len() == 0 {
        assert(seq![x] =~= Seq::<T::V>::empty().push(x));
    } else if T::view_le(s.last(), x) {
        let r = s.push(x);
        assert forall|i: int, j: int| 0 <= i < j < r.len() implies T::view_le(
            #[trigger] r[i],
            #[trigger] r[j],
        ) by {
            if j == s.len() && i < s.len() - 1 {
                T::lemma_transitive(s[i], s.last(), x);
            }
        }
    } else {
        let d = s.drop_last();
        assert(is_sorted::<T>(d));
        lemma_insert_stable_sorted::<T>(d, x);
        let inner = insert_stable::<T>(d, x);
        let r = inner.push(s.last());
        T::lemma_total(s.last(), x);
        assert forall|k: int| 0 <= k < inner.len() implies T::view_le(
            #[trigger] inner[k],
            s.last(),
        ) by {
            assert(inner.to_multiset().count(inner[k]) > 0);
            assert(d.to_multiset().insert(x).count(inner[k]) > 0);
            if inner[k] != x {
                assert(d.to_multiset().count(inner[k]) > 0);
                assert(d.contains(inner[k]));
                let m = choose|m: int| 0 <= m < d.len() && d[m] == inner[k];
                assert(s[m] == d[m]);
            }
        }
        assert forall|i: int, j: int| 0 <= i < j < r.len() implies T::view_le(
            #[trigger] r[i],
            #[trigger] r[j],
        ) by {
            if j == inner.len() {
                assert(r[i] == inner[i]);
            } else {
                assert(r[i] == inner[i] && r[j] == inner[j]);
            }
        }
        assert(d.push(s.last()) =~= s);
    }
}

/// `x` and `y` may each stand before the other: they compare equal.
pub open spec fn equivalent<T: SortOrder>(x: T::V, y: T::V) -> bool {
    T::view_le(x, y) && T::view_le(y, x)
}

pub open spec fn equivalent_to<T: SortOrder>(key: T::V) -> spec_fn(T::V) -> bool {
    |y: T::V| equivalent::<T>(key, y)
}

proof fn lemma_insert_stable_ties<T: SortOrder>(s: Seq<T::V>, x: T::V, key: T::V)
    ensures
        insert_stable::<T>(s, x).filter(equivalent_to::<T>(key)) == if equivalent::<T>(key, x) {
            s.filter(equivalent_to::<T>(key)).push(x)
        } else {
            s.filter(equivalent_to::<T>(key))
        },
    decreases s.len(),
{
    let p = equivalent_to::<T>(key);
    if s.len() == 0 {
        reveal_with_fuel(Seq::<_>::filter, 1);
        assert(seq![x] =~= s.push(x));
        s.lemma_filter_push(x, p);
    } else if T::view_le(s.last(), x) {
        s.lemma_filter_push(x, p);
    } else {
        let d = s.drop_last();
        let inner = insert_stable::<T>(d, x);
        lemma_insert_stable_ties::<T>(d, x, key);
        assert(d.push(s.last()) =~= s);
        inner.lemma_filter_push(s.last(), p);
        d.lemma_filter_push(s.last(), p);
        if equivalent::<T>(key, x) && equivalent::<T>(key, s.last()) {
            T::lemma_transitive(s.last(), key, x);
        }
    }
}

/// The sort is stable: the elements that compare equal to any `key` come
/// out in the order they were given.
pub proof fn lemma_stable_sorted_keeps_ties<T: SortOrder>(s: Seq<T::V>, key: T::V)
    ensures
        stable_sorted::<T>(s).filter(equivalent_to::<T>(key)) == s.filter(equivalent_to::<T>(key)),
    decreases s.len(),
{
    if s.len() > 0 {
        let d = s.drop_last();
        lemma_stable_sorted_keeps_ties::<T>(d, key);
        lemma_insert_stable_ties::<T>(stable_sorted::<T>(d), s.last(), key);
        assert(d.push(s.last()) =~= s);
        d.lemma_filter_push(s.last(), equivalent_to::<T>(key));
    } else {
        assert(stable_sorted::<T>(s) == s);
    }
}

/// The stable sort is sorted and holds exactly the elements it was given.
pub proof fn lemma_stable_sorted_sorted_permutation<T: SortOrder>(s: Seq<T::V>)
    ensures
        is_sorted::<T>(stable_sorted::<T>(s)),
        stable_sorted::<T>(s).to_multiset() == s.to_multiset(),
    decreases s.len(),
{
    broadcast use vstd::seq_lib::group_to_multiset_ensures;

    if s.len() > 0 {
        lemma_stable_sorted_sorted_permutation::<T>(s.drop_last());
        lemma_insert_stable_sorted::<T>(stable_sorted::<T>(s.drop_last()), s.last());
        assert(s.drop_last().push(s.last()) =~= s);
    }
}

} // verus!
