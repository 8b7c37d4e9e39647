use crate::sorting_array::array::DataArrWrapper;
use crate::sorting_array::order::{
    ascending_in, lemma_exchange_rearranged, lemma_rearranged_whole_in, rearranged,
    same_outside,
};
use crate::sorting_array::sorts::{accepts_rearranged, insertion_sort, may_stop_at, pause};
use vstd::prelude::*;

verus! {

/// A range of fewer values than this is left to insertion sort by the hybrid quicksort.
pub const MAX_RUN_SIZE: usize = 16;

/// The values at `l ..= r` are split round the one at `p`: the smaller ones before it, the
/// others behind it.
pub open spec fn partitioned(s: Seq<usize>, l: int, p: int, r: int) -> bool {
    &&& l <= p <= r
    &&& forall|k: int| l <= k < p ==> s[k] < s[p]
    &&& forall|k: int| p < k <= r ==> s[k] >= s[p]
}

/// Lomuto's partition of the values at `l ..= r` round the last of them: the values smaller
/// than it are exchanged to the front one by one, each exchange being one step of the
/// animation, and then it is exchanged to its place behind them, which is the answer.
///
/// The partition looks whether the sort was told to stop before each comparison and before
/// the last exchange, and then leaves the range as it is at that point and answers nothing.
pub fn lomuto_partitioning<F: Fn(&DataArrWrapper, u128) -> bool>(
    data: &mut DataArrWrapper,
    sleep_time: u128,
    l: usize,
    r: usize,
    pace: &F,
) -> (place: Option<usize>)
    requires
        l <= r < old(data)@.values.len(),
        accepts_rearranged(pace, sleep_time, old(data)@.values),
    ensures
        rearranged(final(data)@.values, old(data)@.values),
        same_outside(final(data)@.values, old(data)@.values, l as int, r + 1),
        final(data)@.max_val == old(data)@.max_val,
        final(data)@.pivot == Some(r),
        final(data)@.active matches Some(a) ==> a < final(data)@.values.len()
            || final(data)@.active == old(data)@.active,
        final(data)@.active_2 matches Some(a) ==> a < final(data)@.values.len()
            || final(data)@.active_2 == old(data)@.active_2,
        old(data)@.sorted ==> final(data)@.sorted,
        final(data)@.sorted && !old(data)@.sorted ==> may_stop_at(
            pace,
            sleep_time,
            final(data)@.values,
        ),
        l < r ==> (place is Some <==> final(data)@.running()),
        l == r ==> place == Some(l) && final(data)@.values == old(data)@.values,
        l < r && !old(data)@.running() ==> place is None && final(data)@.values
            == old(data)@.values,
        place matches Some(p) ==> partitioned(final(data)@.values, l as int, p as int, r as int)
            && final(data)@.values[p as int] == old(data)@.values[r as int],
{
    let ghost len: nat = data@.values.len();
    let pivot: usize = data.get(r);
    data.set_pivot(r);
    if l == r {
        return Some(l);
    }
    let mut i: usize = l;
    let mut j: usize = l;
    while j < r
        invariant
            l <= i <= j <= r < len,
            len == data@.values.len(),
            len == old(data)@.values.len(),
            rearranged(data@.values, old(data)@.values),
            same_outside(data@.values, old(data)@.values, l as int, r + 1),
            accepts_rearranged(pace, sleep_time, old(data)@.values),
            data@.max_val == old(data)@.max_val,
            data@.pivot == Some(r),
            data@.active matches Some(a) ==> a < len || data@.active == old(data)@.active,
            data@.active_2 matches Some(a) ==> a < len || data@.active_2 == old(data)@.active_2,
            old(data)@.sorted ==> data@.sorted && data@.values == old(data)@.values && j == l,
            data@.sorted && !old(data)@.sorted ==> may_stop_at(pace, sleep_time, data@.values),
            data@.values[r as int] == pivot,
            pivot == old(data)@.values[r as int],
            forall|k: int| l <= k < i ==> data@.values[k] < pivot,
            forall|k: int| i <= k < j ==> data@.values[k] >= pivot,
        decreases r - j,
    {
        if data.sorted {
            return None;
        }
        data.set_active(i);
        data.set_active_2(j);
        if data.get(j) < pivot {
            proof {
                lemma_exchange_rearranged(data@.values, i as int, j as int);
            }
            data.swap(i, j);
            i += 1;
            pause(data, sleep_time, pace);
        }
        j += 1;
    }
    if data.sorted {
        return None;
    }
    proof {
        lemma_exchange_rearranged(data@.values, i as int, r as int);
    }
    data.swap(i, r);
    Some(i)
}

/// The two sides that are left to sort once the values at `l ..= r` are split round the one
/// at `p`, each as its first and last index, or nothing for a side that holds no value. The
/// sides lie inside `l ..= r` on either side of `p`, so that no index belongs to both.
pub fn quick_sort_sides(l: usize, r: usize, p: usize) -> (sides: (
    Option<(usize, usize)>,
    Option<(usize, usize)>,
))
    requires
        l <= p <= r,
    ensures
        sides.0 == (if p > l {
            Some((l, (p - 1) as usize))
        } else {
            None
        }),
        sides.1 == (if p < r {
            Some(((p + 1) as usize, r))
        } else {
            None
        }),
{
    let left: Option<(usize, usize)> = if p > l {
        Some((l, p - 1))
    } else {
        None
    };
    let right: Option<(usize, usize)> = if p < r {
        Some((p + 1, r))
    } else {
        None
    };
    (left, right)
}

/// Once a range is split round `p` and each side is put in order among itself, the range is
/// in order. The sides may have been sorted one after the other or at the same time: only
/// what each holds at the end counts.
pub proof fn lemma_sorted_sides(split: Seq<usize>, done: Seq<usize>, l: int, p: int, r: int)
    requires
        0 <= l <= p <= r < split.len(),
        partitioned(split, l, p, r),
        done.len() == split.len(),
        done[p] == split[p],
        rearranged(done.subrange(l, p), split.subrange(l, p)),
        rearranged(done.subrange(p + 1, r + 1), split.subrange(p + 1, r + 1)),
        ascending_in(done, l, p),
        ascending_in(done, p + 1, r + 1),
    ensures
        ascending_in(done, l, r + 1),
        partitioned(done, l, p, r),
{
    broadcast use vstd::seq_lib::group_to_multiset_ensures;
    assert forall|k: int| l <= k < p implies done[k] < done[p] by {
        let part = done.subrange(l, p);
        let before = split.subrange(l, p);
        assert(part[k - l] == done[k]);
        assert(before.to_multiset().count(done[k]) > 0);
    }
    assert forall|k: int| p < k <= r implies done[k] >= done[p] by {
        let part = done.subrange(p + 1, r + 1);
        let before = split.subrange(p + 1, r + 1);
        assert(part[k - p - 1] == done[k]);
        assert(before.to_multiset().count(done[k]) > 0);
    }
}

/// Quicksort of the values at `l ..= r` with Lomuto's partition, first the side before the
/// pivot and then the side behind it.
/// An array that is not marked as running is left as it is.
pub fn quick_sort_lomuto<F: Fn(&DataArrWrapper, u128) -> bool>(
    data: &mut DataArrWrapper,
    sleep_time: u128,
    l: usize,
    r: usize,
    pace: &F,
)
    requires
        l < r ==> r < old(data)@.values.len(),
        accepts_rearranged(pace, sleep_time, old(data)@.values),
    ensures
        rearranged(final(data)@.values, old(data)@.values),
        same_outside(final(data)@.values, old(data)@.values, l as int, r + 1),
        final(data)@.max_val == old(data)@.max_val,
        old(data)@.markers_in_range() ==> final(data)@.markers_in_range(),
        !old(data)@.running() || l >= r ==> final(data)@ == old(data)@,
        final(data)@.running() ==> ascending_in(final(data)@.values, l as int, r + 1),
        old(data)@.running() && !final(data)@.running() ==> may_stop_at(
            pace,
            sleep_time,
            final(data)@.values,
        ),
    decreases r - l,
{
    if l < r {
        if data.sorted {
            return;
        }
        match lomuto_partitioning(data, sleep_time, l, r, pace) {
            None => {},
            Some(p) => {
                let ghost split = data@.values;
                let sides = quick_sort_sides(l, r, p);
                if let Some((first, last)) = sides.0 {
                    quick_sort_lomuto(data, sleep_time, first, last, pace);
                }
                let ghost half = data@.values;
                if let Some((first, last)) = sides.1 {
                    quick_sort_lomuto(data, sleep_time, first, last, pace);
                }
                proof {
                    lemma_sides_done(split, half, data@.values, l as int, p as int, r as int);
                    if data@.running() {
                        lemma_sorted_sides(split, data@.values, l as int, p as int, r as int);
                    }
                }
            },
        }
    }
}

/// What sorting first one side and then the other leaves of a split range: each side
/// rearranged among itself, the pivot and all outside the range where they were.
proof fn lemma_sides_done(
    split: Seq<usize>,
    half: Seq<usize>,
    done: Seq<usize>,
    l: int,
    p: int,
    r: int,
)
    requires
        0 <= l <= p <= r < split.len(),
        rearranged(half, split),
        same_outside(half, split, l, p),
        rearranged(done, half),
        same_outside(done, half, p + 1, r + 1),
    ensures
        done.len() == split.len(),
        done[p] == split[p],
        same_outside(done, split, l, r + 1),
        rearranged(done, split),
        rearranged(done.subrange(l, p), split.subrange(l, p)),
        rearranged(done.subrange(p + 1, r + 1), split.subrange(p + 1, r + 1)),
        ascending_in(half, l, p) ==> ascending_in(done, l, p),
{
    lemma_rearranged_whole_in(half, split, l, p);
    lemma_rearranged_whole_in(done, half, p + 1, r + 1);
    assert(done.subrange(l, p) =~= half.subrange(l, p));
    assert(half.subrange(p + 1, r + 1) =~= split.subrange(p + 1, r + 1));
}

/// Quicksort of the values at `l ..= r` that hands a range of fewer than `MAX_RUN_SIZE`
/// values to insertion sort.
/// An array that is not marked as running is left as it is.
pub fn quicktimsort<F: Fn(&DataArrWrapper, u128) -> bool>(
    data: &mut DataArrWrapper,
    sleep_time: u128,
    l: usize,
    r: usize,
    pace: &F,
)
    requires
        l < r ==> r < old(data)@.values.len(),
        accepts_rearranged(pace, sleep_time, old(data)@.values),
    ensures
        rearranged(final(data)@.values, old(data)@.values),
        same_outside(final(data)@.values, old(data)@.values, l as int, r + 1),
        final(data)@.max_val == old(data)@.max_val,
        old(data)@.markers_in_range() ==> final(data)@.markers_in_range(),
        !old(data)@.running() || l >= r ==> final(data)@ == old(data)@,
        final(data)@.running() ==> ascending_in(final(data)@.values, l as int, r + 1),
        old(data)@.running() && !final(data)@.running() ==> may_stop_at(
            pace,
            sleep_time,
            final(data)@.values,
        ),
    decreases r - l,
{
    if l < r {
        if data.sorted {
            return;
        }
        if r - l < MAX_RUN_SIZE {
            insertion_sort(data, sleep_time, l, r, pace);
        } else {
            match lomuto_partitioning(data, sleep_time, l, r, pace) {
                None => {},
                Some(p) => {
                    let ghost split = data@.values;
                    let sides = quick_sort_sides(l, r, p);
                    if let Some((first, last)) = sides.0 {
                        quicktimsort(data, sleep_time, first, last, pace);
                    }
                    let ghost half = data@.values;
                    if let Some((first, last)) = sides.1 {
                        quicktimsort(data, sleep_time, first, last, pace);
                    }
                    proof {
                        lemma_sides_done(split, half, data@.values, l as int, p as int, r as int);
                        if data@.running() {
                            lemma_sorted_sides(
                                split,
                                data@.values,
                                l as int,
                                p as int,
                                r as int,
                            );
                        }
                    }
                },
            }
        }
    }
}

} // verus!
