//! A stable insertion sort of keyed values, ordered by pairs of integers compared
//! lexicographically.

use vstd::prelude::*;

verus! {

/// The ordering key of a row: compared on the first integer, then on the second.
pub type SortKey = (i128, i128);

/// `a` sorts strictly before `b`.
pub open spec fn key_lt(a: SortKey, b: SortKey) -> bool {
    a.0 < b.0 || (a.0 == b.0 && a.1 < b.1)
}

/// `a` sorts before `b` or ties with it.
pub open spec fn key_le(a: SortKey, b: SortKey) -> bool {
    !key_lt(b, a)
}

/// The keys of `s` never decrease.
pub open spec fn is_sorted<T>(s: Seq<(SortKey, T)>) -> bool {
    forall|i: int, j: int| 0 <= i < j < s.len() ==> key_le(#[trigger] s[i].0, #[trigger] s[j].0)
}

/// Where a value with key `k` goes in `s` so that it comes after every element whose key
/// does not exceed `k`: the number of leading elements with such keys.
pub open spec fn slot_for<T>(s: Seq<(SortKey, T)>, k: SortKey) -> int
    decreases s.len(),
{
    if s.len() == 0 {
        0
    } else if key_lt(k, s[0].0) {
        0
    } else {
        1 + slot_for(s.drop_first(), k)
    }
}

/// `s` with `x` inserted after every element whose key does not exceed its key.
pub open spec fn insert_keyed<T>(s: Seq<(SortKey, T)>, x: (SortKey, T)) -> Seq<(SortKey, T)> {
    s.insert(slot_for(s, x.0), x)
}

/// The stable sort of `s` by key: elements of equal keys keep their order in `s`.
pub open spec fn sort_keyed<T>(s: Seq<(SortKey, T)>) -> Seq<(SortKey, T)>
    decreases s.len(),
{
    if s.len() == 0 {
        s
    } else {
        insert_keyed(sort_keyed(s.drop_last()), s.last())
    }
}

/// The values of keyed pairs, in order.
pub open spec fn values_of<T>(s: Seq<(SortKey, T)>) -> Seq<T> {
    Seq::new(s.len(), |i: int| s[i].1)
}

/// `slot_for` is the first position whose key is greater than `k`.
pub proof fn lemma_slot_for<T>(s: Seq<(SortKey, T)>, k: SortKey, i: int)
    requires
        0 <= i <= s.len(),
        forall|j: int| 0 <= j < i ==> !key_lt(k, #[trigger] s[j].0),
        i == s.len() || key_lt(k, s[i].0),
    ensures
        slot_for(s, k) == i,
    decreases i,
{
    if i > 0 {
        let t = s.drop_first();
        assert forall|j: int| 0 <= j < i - 1 implies !key_lt(k, #[trigger] t[j].0) by {
            assert(t[j] == s[j + 1]);
        }
        assert(!key_lt(k, s[0].0));
        lemma_slot_for(t, k, i - 1);
    }
}

/// `slot_for` lies within the sequence, after every key not greater than `k` and before a greater one.
pub proof fn lemma_slot_for_bounds<T>(s: Seq<(SortKey, T)>, k: SortKey)
    ensures
        0 <= slot_for(s, k) <= s.len(),
        forall|j: int| 0 <= j < slot_for(s, k) ==> !key_lt(k, #[trigger] s[j].0),
        slot_for(s, k) == s.len() || key_lt(k, s[slot_for(s, k)].0),
    decreases s.len(),
{
    if s.len() > 0 && !key_lt(k, s[0].0) {
        let t = s.drop_first();
        lemma_slot_for_bounds(t, k);
        assert forall|j: int| 0 <= j < slot_for(s, k) implies !key_lt(k, #[trigger] s[j].0) by {
            if j > 0 {
                assert(s[j] == t[j - 1]);
            }
        }
        if slot_for(s, k) < s.len() {
            assert(s[slot_for(s, k)] == t[slot_for(t, k)]);
        }
    }
}

/// Inserts `x` into the sorted vector `v` after every element whose key does not exceed its key.
fn insert_sorted<T>(v: &mut Vec<(SortKey, T)>, x: (SortKey, T))
    ensures
        final(v)@ == insert_keyed(old(v)@, x),
{
    let n = v.len();
    let mut i: usize = 0;
    while i < n && !(x.0.0 < v[i].0.0 || (x.0.0 == v[i].0.0 && x.0.1 < v[i].0.1))
        invariant
            n == v@.len(),
            i <= n,
            forall|j: int| 0 <= j < i ==> !key_lt(x.0, #[trigger] v@[j].0),
        decreases n - i,
    {
        i += 1;
    }
    proof {
        lemma_slot_for(v@, x.0, i as int);
    }
    v.insert(i, x);
}

/// Sorts keyed values stably by key.
pub fn sort_by_key<T>(v: Vec<(SortKey, T)>) -> (r: Vec<(SortKey, T)>)
    ensures
        r@ == sort_keyed(v@),
{
    let ghost orig = v@;
    let mut rest = v;
    let mut r: Vec<(SortKey, T)> = Vec::new();
    let n = rest.len();
    let mut i: usize = 0;
    while i < n
        invariant
            n == orig.len(),
            i <= n,
            rest@ == orig.skip(i as int),
            r@ == sort_keyed(orig.take(i as int)),
        decreases n - i,
    {
        let x = rest.remove(0);
        proof {
            assert(orig.take(i + 1).drop_last() =~= orig.take(i as int));
            assert(orig.take(i + 1).last() == orig[i as int]);
        }
        insert_sorted(&mut r, x);
        i += 1;
        assert(rest@ =~= orig.skip(i as int));
    }
    assert(orig.take(n as int) =~= orig);
    r
}

/// The values of keyed pairs, in order.
pub fn into_values<T>(v: Vec<(SortKey, T)>) -> (r: Vec<T>)
    ensures
        r@ == values_of(v@),
{
    let ghost orig = v@;
    let mut rest = v;
    let mut r: Vec<T> = Vec::new();
    let n = rest.len();
    let mut i: usize = 0;
    while i < n
        invariant
            n == orig.len(),
            i <= n,
            rest@ == orig.skip(i as int),
            r@ == values_of(orig.take(i as int)),
        decreases n - i,
    {
        let x = rest.remove(0);
        r.push(x.1);
        i += 1;
        assert(rest@ =~= orig.skip(i as int));
        assert(r@ =~= values_of(orig.take(i as int)));
    }
    assert(orig.take(n as int) =~= orig);
    r
}

/// A stable sort returns its input's elements in an order of non-decreasing keys.
pub proof fn lemma_sort_keyed<T>(s: Seq<(SortKey, T)>)
    ensures
        is_sorted(sort_keyed(s)),
        sort_keyed(s).to_multiset() == s.to_multiset(),
        sort_keyed(s).len() == s.len(),
    decreases s.len(),
{
    if s.len() > 0 {
        let p = sort_keyed(s.drop_last());
        lemma_sort_keyed(s.drop_last());
        let x = s.last();
        let k = slot_for(p, x.0);
        lemma_slot_for_bounds(p, x.0);
        let q = p.insert(k, x);
        assert(q == sort_keyed(s));
        assert forall|i: int, j: int| 0 <= i < j < q.len() implies key_le(#[trigger] q[i].0, #[trigger] q[j].0) by {
            if j < k {
                assert(q[i] == p[i] && q[j] == p[j]);
            } else if j == k {
                assert(q[j] == x);
                assert(q[i] == p[i]);
            } else if i == k {
                assert(q[i] == x);
                assert(q[j] == p[j - 1]);
                if j - 1 > k {
                    assert(key_le(p[k].0, p[j - 1].0));
                }
            } else if i < k {
                assert(q[i] == p[i] && q[j] == p[j - 1]);
            } else {
                assert(q[i] == p[i - 1] && q[j] == p[j - 1]);
            }
        }
        vstd::seq_lib::lemma_multiset_commutative(p.take(k), seq![x] + p.skip(k));
        vstd::seq_lib::lemma_multiset_commutative(seq![x], p.skip(k));
        vstd::seq_lib::lemma_multiset_commutative(p.take(k), p.skip(k));
        assert(q =~= p.take(k) + (seq![x] + p.skip(k)));
        assert(p =~= p.take(k) + p.skip(k));
        assert(s =~= s.drop_last().push(x));
        s.drop_last().to_multiset_ensures();
        assert(seq![x].to_multiset() =~= vstd::multiset::Multiset::singleton(x)) by {
            Seq::<(SortKey, T)>::empty().to_multiset_ensures();
            assert(seq![x] =~= Seq::<(SortKey, T)>::empty().push(x));
        }
    }
}

} // verus!
