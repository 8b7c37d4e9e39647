use crate::sorting_array::array::DataArrWrapper;
use crate::sorting_array::order::{
    ascending_in, lemma_exchange_rearranged, rearranged, same_outside,
};
use crate::sorting_array::sorts::{accepts_rearranged, may_stop_at, pause};
use vstd::prelude::*;

verus! {

/// Merges the values at `start ..= mid` with those at `mid + 1 ..= end` in place: while both
/// parts hold values, the first one of the front part stays where it is if it is not greater
/// than the first one of the back part; else that one is taken out, the front part is moved
/// one place up, and it is put before them, which is one step of the animation.
///
/// Nothing is done where the last value of the front part is not greater than the first of
/// the back part. Where both parts were in order, the whole range then is.
/// An array that is not marked as running is left as it is.
pub fn merge_in_place<F: Fn(&DataArrWrapper, u128) -> bool>(
    data: &mut DataArrWrapper,
    sleep_time: u128,
    start: usize,
    mid: usize,
    end: usize,
    pace: &F,
)
    requires
        start <= mid < end < old(data)@.values.len(),
        accepts_rearranged(pace, sleep_time, old(data)@.values),
    ensures
        rearranged(final(data)@.values, old(data)@.values),
        same_outside(final(data)@.values, old(data)@.values, start as int, end + 1),
        final(data)@.max_val == old(data)@.max_val,
        final(data)@.active_2 == old(data)@.active_2,
        final(data)@.active matches Some(a) ==> a < final(data)@.values.len()
            || final(data)@.active == old(data)@.active,
        final(data)@.pivot matches Some(a) ==> a < final(data)@.values.len()
            || final(data)@.pivot == old(data)@.pivot,
        !old(data)@.running() ==> final(data)@ == old(data)@,
        old(data)@.running() && !final(data)@.running() ==> may_stop_at(
            pace,
            sleep_time,
            final(data)@.values,
        ),
        final(data)@.running() && ascending_in(old(data)@.values, start as int, mid + 1)
            && ascending_in(old(data)@.values, mid + 1, end + 1) ==> ascending_in(
            final(data)@.values,
            start as int,
            end + 1,
        ),
        old(data)@.values[mid as int] <= old(data)@.values[mid + 1] ==> final(data)@ == old(data)@,
{
    let len: usize = data.len();
    let ghost halves = ascending_in(data@.values, start as int, mid + 1) && ascending_in(
        data@.values,
        mid + 1,
        end + 1,
    );
    let mut front: usize = start;
    let mut middle: usize = mid;
    let mut back: usize = mid + 1;
    if data.get(middle) <= data.get(back) || data.sorted {
        return;
    }
    while front <= middle && back <= end
        invariant
            start <= front <= middle + 1,
            start <= mid < end,
            old(data)@.values[mid as int] > old(data)@.values[mid + 1],
            back == middle + 1,
            back <= end + 1,
            end < len,
            len == data@.values.len(),
            len == old(data)@.values.len(),
            rearranged(data@.values, old(data)@.values),
            same_outside(data@.values, old(data)@.values, start as int, end + 1),
            accepts_rearranged(pace, sleep_time, old(data)@.values),
            data@.max_val == old(data)@.max_val,
            data@.active_2 == old(data)@.active_2,
            data@.active matches Some(a) ==> a < len || data@.active == old(data)@.active,
            data@.pivot matches Some(a) ==> a < len || data@.pivot == old(data)@.pivot,
            old(data)@.running(),
            data@.sorted ==> may_stop_at(pace, sleep_time, data@.values),
            halves ==> ascending_in(data@.values, start as int, front as int),
            halves ==> ascending_in(data@.values, front as int, middle + 1),
            halves ==> ascending_in(data@.values, back as int, end + 1),
            halves ==> forall|a: int, b: int|
                start <= a < front <= b <= end ==> data@.values[a] <= data@.values[b],
        decreases (end + 1 - back) + (middle + 1 - front),
    {
        if data.sorted {
            return;
        }
        if data.get(front) <= data.get(back) {
            front += 1;
        } else {
            let value: usize = data.get(back);
            let mut index: usize = back;
            let ghost before = data@.values;
            data.set_pivot(back);
            proof {
                assert(data@.values.update(index as int, value) =~= data@.values);
            }
            while index != front
                invariant
                    front <= index <= back <= end < len,
                    len == data@.values.len(),
                    len == before.len(),
                    rearranged(data@.values.update(index as int, value), before),
                    value == before[back as int],
                    data@.max_val == old(data)@.max_val,
                    data@.active_2 == old(data)@.active_2,
                    data@.sorted == false,
                    data@.active matches Some(a) ==> a < len || data@.active == old(data)@.active,
                    data@.pivot == Some(back),
                    forall|k: int| index < k <= back ==> data@.values[k] == before[k - 1],
                    forall|k: int|
                        0 <= k < len && (k <= index || k > back) ==> data@.values[k]
                            == before[k],
                decreases index,
            {
                data.set_active(index);
                let moved: usize = data.get(index - 1);
                proof {
                    let filled = data@.values.update(index as int, value);
                    lemma_exchange_rearranged(filled, index - 1, index as int);
                    assert(data@.values.update(index as int, moved).update(index - 1, value)
                        =~= filled.update(index - 1, filled[index as int]).update(
                        index as int,
                        filled[index - 1],
                    ));
                }
                data.set(index, moved);
                index -= 1;
            }
            data.set(front, value);
            proof {
                let after = data@.values;
                assert(forall|k: int|
                    0 <= k < len && (k < front || k > back) ==> after[k] == before[k]);
            }
            front += 1;
            middle += 1;
            back += 1;
            pause(data, sleep_time, pace);
        }
    }
}

/// Where a range `l ..= r` of more than one value is halved: the first half is `l ..= m`, the
/// second `m + 1 ..= r`, with `m` the index midway, so that no index belongs to both.
pub fn merge_sort_halves(l: usize, r: usize) -> (halves: ((usize, usize), (usize, usize)))
    requires
        l < r,
    ensures
        halves.0 == (l, ((l + r) / 2) as usize),
        halves.1 == (((l + r) / 2 + 1) as usize, r),
        l <= halves.0.1 < halves.1.0 <= r,
{
    let m: usize = l + (r - l) / 2;
    ((l, m), (m + 1, r))
}

/// Merge sort of the values at `l ..= r` in place: the first half is sorted, then the second,
/// and the two are merged.
/// An array that is not marked as running is left as it is.
pub fn merge_sort_in_place<F: Fn(&DataArrWrapper, u128) -> bool>(
    data: &mut DataArrWrapper,
    sleep_time: u128,
    l: usize,
    r: usize,
    pace: &F,
)
    requires
        l < r ==> r < old(data)@.values.len(),
        accepts_rearranged(pace, sleep_time, old(data)@.values),
    ensures
        rearranged(final(data)@.values, old(data)@.values),
        same_outside(final(data)@.values, old(data)@.values, l as int, r + 1),
        final(data)@.max_val == old(data)@.max_val,
        final(data)@.active_2 == old(data)@.active_2,
        old(data)@.markers_in_range() ==> final(data)@.markers_in_range(),
        !old(data)@.running() || l >= r ==> final(data)@ == old(data)@,
        final(data)@.running() ==> ascending_in(final(data)@.values, l as int, r + 1),
        old(data)@.running() && !final(data)@.running() ==> may_stop_at(
            pace,
            sleep_time,
            final(data)@.values,
        ),
    decreases r - l,
{
    if l < r {
        if data.sorted {
            return;
        }
        let halves = merge_sort_halves(l, r);
        let m: usize = halves.0.1;
        merge_sort_in_place(data, sleep_time, l, m, pace);
        merge_sort_in_place(data, sleep_time, m + 1, r, pace);
        merge_in_place(data, sleep_time, l, m, r, pace);
    }
}

} // verus!
