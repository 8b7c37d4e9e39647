use vstd::prelude::*;
use vstd::seq_lib::lemma_multiset_commutative;

verus! {

/// The values `0, 1, .., n - 1` in ascending order.
pub open spec fn identity(n: nat) -> Seq<usize> {
    Seq::new(n, |i: int| i as usize)
}

/// `a` holds the same values as `b`, each as often, in some order.
pub open spec fn rearranged(a: Seq<usize>, b: Seq<usize>) -> bool {
    a.to_multiset() == b.to_multiset()
}

/// `s` holds each of `0 .. s.len() - 1` exactly once.
pub open spec fn is_permutation(s: Seq<usize>) -> bool {
    rearranged(s, identity(s.len()))
}

/// No value of `s` is followed by a smaller one.
pub open spec fn ascending(s: Seq<usize>) -> bool {
    forall|i: int, j: int| 0 <= i <= j < s.len() ==> s[i] <= s[j]
}

/// No value at an index in `lo .. hi` is followed, inside that range, by a smaller one.
pub open spec fn ascending_in(s: Seq<usize>, lo: int, hi: int) -> bool {
    forall|i: int, j: int| lo <= i <= j < hi ==> s[i] <= s[j]
}

/// `a` and `b` agree at every index outside `lo .. hi`.
pub open spec fn same_outside(a: Seq<usize>, b: Seq<usize>, lo: int, hi: int) -> bool {
    &&& a.len() == b.len()
    &&& forall|k: int| 0 <= k < a.len() && !(lo <= k < hi) ==> a[k] == b[k]
}

/// `a` is `b` with the values at the indices `lo .. hi` put in some order among themselves.
pub open spec fn rearranged_in(a: Seq<usize>, b: Seq<usize>, lo: int, hi: int) -> bool {
    &&& same_outside(a, b, lo, hi)
    &&& rearranged(a.subrange(lo, hi), b.subrange(lo, hi))
}

/// `s` with the values at `i` and `j` exchanged.
pub open spec fn exchanged(s: Seq<usize>, i: int, j: int) -> Seq<usize> {
    s.update(i, s[j]).update(j, s[i])
}

/// Overwriting one place takes the old value out of the multiset and puts the new one in.
pub proof fn lemma_update_multiset(s: Seq<usize>, i: int, v: usize)
    requires
        0 <= i < s.len(),
    ensures
        s.update(i, v).to_multiset() =~= s.to_multiset().remove(s[i]).insert(v),
        s.to_multiset().count(s[i]) > 0,
{
    broadcast use vstd::seq_lib::group_to_multiset_ensures;
}

/// Exchanging two places keeps the values.
pub proof fn lemma_exchange_rearranged(s: Seq<usize>, i: int, j: int)
    requires
        0 <= i < s.len(),
        0 <= j < s.len(),
    ensures
        rearranged(exchanged(s, i, j), s),
{
    let t = s.update(i, s[j]);
    lemma_update_multiset(s, i, s[j]);
    lemma_update_multiset(t, j, s[i]);
    if i == j {
        assert(exchanged(s, i, j) =~= s);
    } else {
        assert(exchanged(s, i, j).to_multiset() =~= s.to_multiset());
    }
}

/// A sequence is the front, the middle and the back of it, and so is its multiset.
pub proof fn lemma_split_multiset(s: Seq<usize>, lo: int, hi: int)
    requires
        0 <= lo <= hi <= s.len(),
    ensures
        s.to_multiset() =~= s.subrange(0, lo).to_multiset().add(
            s.subrange(lo, hi).to_multiset(),
        ).add(s.subrange(hi, s.len() as int).to_multiset()),
{
    let front = s.subrange(0, lo);
    let middle = s.subrange(lo, hi);
    let back = s.subrange(hi, s.len() as int);
    assert(s =~= (front + middle) + back);
    lemma_multiset_commutative(front + middle, back);
    lemma_multiset_commutative(front, middle);
}

/// Rearranging the whole while leaving all but a range in place rearranges that range.
pub proof fn lemma_rearranged_whole_in(a: Seq<usize>, b: Seq<usize>, lo: int, hi: int)
    requires
        0 <= lo <= hi <= b.len(),
        same_outside(a, b, lo, hi),
        rearranged(a, b),
    ensures
        rearranged_in(a, b, lo, hi),
{
    lemma_split_multiset(a, lo, hi);
    lemma_split_multiset(b, lo, hi);
    assert(a.subrange(0, lo) =~= b.subrange(0, lo));
    assert(a.subrange(hi, a.len() as int) =~= b.subrange(hi, b.len() as int));
    let front = b.subrange(0, lo).to_multiset();
    let back = b.subrange(hi, b.len() as int).to_multiset();
    let ma = a.subrange(lo, hi).to_multiset();
    let mb = b.subrange(lo, hi).to_multiset();
    assert forall|v: usize| ma.count(v) == mb.count(v) by {
        assert(front.add(ma).add(back).count(v) == front.add(mb).add(back).count(v));
    }
    assert(ma =~= mb);
}

/// Every value of a rearrangement is a value of what was rearranged, and there are as many.
pub proof fn lemma_rearranged_member(a: Seq<usize>, b: Seq<usize>, k: int)
    requires
        rearranged(a, b),
        0 <= k < a.len(),
    ensures
        a.len() == b.len(),
        exists|m: int| 0 <= m < b.len() && b[m] == a[k],
{
    broadcast use vstd::seq_lib::group_to_multiset_ensures;
    lemma_rearranged_len(a, b);
    assert(b.to_multiset().count(a[k]) > 0);
}

/// A rearrangement has as many values as what was rearranged.
pub proof fn lemma_rearranged_len(a: Seq<usize>, b: Seq<usize>)
    requires
        rearranged(a, b),
    ensures
        a.len() == b.len(),
{
    vstd::seq_lib::to_multiset_len(a);
    vstd::seq_lib::to_multiset_len(b);
}

/// Leaving out the last value takes it out of the multiset.
proof fn lemma_drop_last_multiset(s: Seq<usize>)
    requires
        s.len() > 0,
    ensures
        s.drop_last().to_multiset() =~= s.to_multiset().remove(s.last()),
{
    broadcast use vstd::seq_lib::group_to_multiset_ensures;
    assert(s.remove(s.len() - 1) =~= s.drop_last());
}

/// There is one way only to put given values in ascending order: two sorts of the same
/// values that both went to the end hold the same at every index, whatever steps each took
/// and in whatever order.
pub proof fn lemma_ascending_unique(a: Seq<usize>, b: Seq<usize>)
    requires
        rearranged(a, b),
        ascending(a),
        ascending(b),
    ensures
        a == b,
    decreases a.len(),
{
    lemma_rearranged_len(a, b);
    if a.len() > 0 {
        let n = a.len() - 1;
        lemma_rearranged_member(a, b, n);
        lemma_rearranged_member(b, a, n);
        lemma_drop_last_multiset(a);
        lemma_drop_last_multiset(b);
        lemma_ascending_unique(a.drop_last(), b.drop_last());
        assert(b =~= b.drop_last().push(b[n]));
    }
}

/// Whatever has rearranged a permutation of `0 .. n - 1` has left one: no value was made,
/// doubled or lost.
pub proof fn lemma_rearranged_permutation(before: Seq<usize>, after: Seq<usize>)
    requires
        is_permutation(before),
        rearranged(after, before),
    ensures
        is_permutation(after),
{
    lemma_rearranged_len(after, before);
}

/// A permutation of `0 .. n - 1` that was rearranged into ascending order holds `0 .. n - 1`
/// in that order, each value at the index of its own number and so each less than the next.
pub proof fn lemma_sorted_permutation(before: Seq<usize>, after: Seq<usize>)
    requires
        before.len() <= usize::MAX,
        is_permutation(before),
        rearranged(after, before),
        ascending(after),
    ensures
        after == identity(before.len()),
        forall|i: int| 0 <= i < after.len() ==> after[i] == i,
        forall|i: int, j: int| 0 <= i < j < after.len() ==> after[i] < after[j],
{
    lemma_ascending_unique(after, identity(before.len()));
}

/// Turning the order round keeps the values: of a permutation of `0 .. n - 1` it leaves one.
pub proof fn lemma_reverse_rearranged(s: Seq<usize>)
    ensures
        rearranged(s.reverse(), s),
{
    s.lemma_reverse_to_multiset();
}

} // verus!
