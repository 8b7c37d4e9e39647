use crate::sorting_array::array::{ArrayState, DataArrWrapper};
use crate::sorting_array::order::{
    ascending, ascending_in, exchanged, lemma_exchange_rearranged, lemma_rearranged_len,
    rearranged, same_outside,
};
use vstd::prelude::*;

pub mod merge_sorting;
pub mod quick_sorting;
pub mod radix;
pub mod shell;

verus! {

/// `pace` can answer that the sort is to stop when it is shown a running array that holds
/// `values`, each at its place. A sort is handed `pace` as its hook to the world outside: at
/// each step that is to be seen it calls `pace` with the array as it stands and the time to
/// let pass, and `pace` answers whether the sort is to stop.
pub open spec fn may_stop_at<F: Fn(&DataArrWrapper, u128) -> bool>(
    pace: &F,
    sleep_time: u128,
    values: Seq<usize>,
) -> bool {
    exists|d: DataArrWrapper|
        d@.running() && d@.values == values && #[trigger] pace.ensures((&d, sleep_time), true)
}

/// `pace` can be called with any running array that holds `values` in some order.
pub open spec fn accepts_rearranged<F: Fn(&DataArrWrapper, u128) -> bool>(
    pace: &F,
    sleep_time: u128,
    values: Seq<usize>,
) -> bool {
    forall|d: DataArrWrapper|
        d@.running() && rearranged(d@.values, values) ==> #[trigger] pace.requires(
            (&d, sleep_time),
        )
}

/// `pace` can be called with any running array of `len` values.
pub open spec fn accepts_len<F: Fn(&DataArrWrapper, u128) -> bool>(
    pace: &F,
    sleep_time: u128,
    len: nat,
) -> bool {
    forall|d: DataArrWrapper|
        d@.running() && d@.values.len() == len ==> #[trigger] pace.requires((&d, sleep_time))
}

/// A hook that takes every array of some length takes every rearrangement of one of them.
pub proof fn lemma_accepts_len_rearranged<F: Fn(&DataArrWrapper, u128) -> bool>(
    pace: &F,
    sleep_time: u128,
    values: Seq<usize>,
)
    requires
        accepts_len(pace, sleep_time, values.len()),
    ensures
        accepts_rearranged(pace, sleep_time, values),
{
    assert forall|d: DataArrWrapper|
        d@.running() && rearranged(d@.values, values) implies #[trigger] pace.requires(
        (&d, sleep_time),
    ) by {
        lemma_rearranged_len(d@.values, values);
    }
}

/// Shows the array to `pace` and lets the step's time pass there. Where `pace` answers that
/// the sort is to stop, the array is marked as not running. Hands on what `pace` answered.
pub fn pause<F: Fn(&DataArrWrapper, u128) -> bool>(
    data: &mut DataArrWrapper,
    sleep_time: u128,
    pace: &F,
) -> (stop: bool)
    requires
        pace.requires((&*old(data), sleep_time)),
    ensures
        pace.ensures((&*old(data), sleep_time), stop),
        final(data)@ == (ArrayState { sorted: old(data)@.sorted || stop, ..old(data)@ }),
{
    let stop: bool = pace(&*data, sleep_time);
    if stop {
        data.sorted = true;
    }
    stop
}

/// The last `k` values are in their final places: none of them has a greater value anywhere
/// before it.
pub open spec fn top_settled(s: Seq<usize>, k: int) -> bool {
    forall|a: int, b: int| 0 <= a <= b < s.len() && s.len() - k <= b ==> s[a] <= s[b]
}

/// Looks at the neighbours `i` and `i + 1` and exchanges them where the first is the greater,
/// which is one step of the animation. Answers whether it exchanged them.
pub fn bubble<F: Fn(&DataArrWrapper, u128) -> bool>(
    data: &mut DataArrWrapper,
    i: usize,
    sleep_time: u128,
    pace: &F,
) -> (swapped: bool)
    requires
        i + 1 < old(data)@.values.len(),
        old(data)@.running(),
        accepts_rearranged(pace, sleep_time, old(data)@.values),
    ensures
        swapped == (old(data)@.values[i as int] > old(data)@.values[i + 1]),
        final(data)@ == (ArrayState {
            values: if swapped {
                exchanged(old(data)@.values, i as int, i + 1)
            } else {
                old(data)@.values
            },
            active: Some((i + 1) as usize),
            should_play_sound: true,
            sorted: final(data)@.sorted,
            ..old(data)@
        }),
        final(data)@.sorted ==> swapped && may_stop_at(pace, sleep_time, final(data)@.values),
{
    let _len: usize = data.len();
    data.set_active(i + 1);
    if data.get(i) > data.get(i + 1) {
        data.swap(i, i + 1);
        proof {
            lemma_exchange_rearranged(old(data)@.values, i as int, i + 1);
        }
        pause(data, sleep_time, pace);
        true
    } else {
        false
    }
}

/// One pass from the bottom to the top over all neighbours. Answers whether it exchanged any.
fn forward_pass<F: Fn(&DataArrWrapper, u128) -> bool>(
    data: &mut DataArrWrapper,
    sleep_time: u128,
    pace: &F,
    Ghost(settled): Ghost<int>,
) -> (swapped: bool)
    requires
        old(data)@.values.len() >= 2,
        0 <= settled < old(data)@.values.len(),
        top_settled(old(data)@.values, settled),
        accepts_rearranged(pace, sleep_time, old(data)@.values),
    ensures
        rearranged(final(data)@.values, old(data)@.values),
        final(data)@.values.len() == old(data)@.values.len(),
        final(data)@.max_val == old(data)@.max_val,
        final(data)@.active_2 == old(data)@.active_2,
        final(data)@.pivot == old(data)@.pivot,
        final(data)@.active matches Some(a) ==> a < final(data)@.values.len()
            || final(data)@.active == old(data)@.active,
        old(data)@.sorted ==> final(data)@ == old(data)@,
        final(data)@.sorted && !old(data)@.sorted ==> may_stop_at(
            pace,
            sleep_time,
            final(data)@.values,
        ),
        top_settled(final(data)@.values, settled),
        final(data)@.running() ==> top_settled(final(data)@.values, settled + 1),
        final(data)@.running() && swapped ==> settled + 1 < final(data)@.values.len(),
        final(data)@.running() && !swapped ==> ascending(final(data)@.values),
{
    let len: usize = data.len();
    let mut swapped: bool = false;
    let mut i: usize = 0;
    while i < len - 1
        invariant
            len == data@.values.len(),
            len == old(data)@.values.len(),
            len >= 2,
            0 <= settled < len,
            i <= len - 1,
            rearranged(data@.values, old(data)@.values),
            accepts_rearranged(pace, sleep_time, old(data)@.values),
            data@.max_val == old(data)@.max_val,
            data@.active_2 == old(data)@.active_2,
            data@.pivot == old(data)@.pivot,
            data@.active matches Some(a) ==> a < len || data@.active == old(data)@.active,
            old(data)@.sorted ==> data@ == old(data)@,
            data@.sorted && !old(data)@.sorted ==> may_stop_at(pace, sleep_time, data@.values),
            top_settled(data@.values, settled),
            forall|a: int| 0 <= a <= i ==> data@.values[a] <= data@.values[i as int],
            i >= len - settled - 1 ==> (forall|a: int|
                0 <= a <= len - settled - 1 ==> #[trigger] data@.values[a] <= data@.values[len
                    - settled - 1]),
            swapped ==> settled + 1 < len,
            !swapped ==> ascending_in(data@.values, 0, i + 1),
        decreases len - i,
    {
        if data.sorted {
            return swapped;
        }
        let ghost before = data@.values;
        let exchanged_here: bool = bubble(data, i, sleep_time, pace);
        if exchanged_here {
            swapped = true;
            proof {
                lemma_exchange_rearranged(before, i as int, i + 1);
            }
        }
        i += 1;
    }
    swapped
}

/// One pass from the top to the bottom over all neighbours, which carries the least value met
/// down with it: a pass that is not stopped leaves the least of all values at the bottom.
/// Answers whether it exchanged any pair, which it does exactly where the array is running
/// and its values are not in ascending order; a pass that exchanged none has moved no value.
fn backward_pass<F: Fn(&DataArrWrapper, u128) -> bool>(
    data: &mut DataArrWrapper,
    sleep_time: u128,
    pace: &F,
    Ghost(settled): Ghost<int>,
) -> (swapped: bool)
    requires
        old(data)@.values.len() >= 2,
        0 <= settled <= old(data)@.values.len(),
        top_settled(old(data)@.values, settled),
        accepts_rearranged(pace, sleep_time, old(data)@.values),
    ensures
        rearranged(final(data)@.values, old(data)@.values),
        final(data)@.values.len() == old(data)@.values.len(),
        final(data)@.max_val == old(data)@.max_val,
        final(data)@.active_2 == old(data)@.active_2,
        final(data)@.pivot == old(data)@.pivot,
        final(data)@.active matches Some(a) ==> a < final(data)@.values.len()
            || final(data)@.active == old(data)@.active,
        old(data)@.sorted ==> final(data)@ == old(data)@,
        final(data)@.sorted && !old(data)@.sorted ==> may_stop_at(
            pace,
            sleep_time,
            final(data)@.values,
        ),
        top_settled(final(data)@.values, settled),
        swapped == (old(data)@.running() && !ascending(old(data)@.values)),
        !swapped ==> final(data)@.values == old(data)@.values,
        final(data)@.running() ==> forall|b: int|
            0 <= b < final(data)@.values.len() ==> final(data)@.values[0]
                <= #[trigger] final(data)@.values[b],
        final(data)@.running() && !swapped ==> ascending(final(data)@.values),
{
    let len: usize = data.len();
    let mut swapped: bool = false;
    let mut i: usize = len - 1;
    while i > 0
        invariant
            len == data@.values.len(),
            len == old(data)@.values.len(),
            len >= 2,
            0 <= settled <= len,
            i <= len - 1,
            rearranged(data@.values, old(data)@.values),
            accepts_rearranged(pace, sleep_time, old(data)@.values),
            data@.max_val == old(data)@.max_val,
            data@.active_2 == old(data)@.active_2,
            data@.pivot == old(data)@.pivot,
            data@.active matches Some(a) ==> a < len || data@.active == old(data)@.active,
            old(data)@.sorted ==> data@ == old(data)@,
            data@.sorted && !old(data)@.sorted ==> may_stop_at(pace, sleep_time, data@.values),
            top_settled(data@.values, settled),
            !swapped ==> data@.values == old(data)@.values,
            !swapped ==> ascending_in(data@.values, i as int, len as int),
            swapped ==> old(data)@.running() && !ascending(old(data)@.values),
            data@.sorted && !old(data)@.sorted ==> swapped,
            forall|b: int| i <= b < len ==> data@.values[i as int] <= #[trigger] data@.values[b],
        decreases i,
    {
        if data.sorted {
            return swapped;
        }
        i -= 1;
        let ghost before = data@.values;
        let exchanged_here: bool = bubble(data, i, sleep_time, pace);
        if exchanged_here {
            swapped = true;
            proof {
                lemma_exchange_rearranged(before, i as int, i + 1);
            }
        }
    }
    swapped
}

/// Bubble sort: passes from the bottom to the top that exchange each pair of neighbours found
/// out of order, until a whole pass exchanges none or the sort is told to stop.
/// An array that is not marked as running is left as it is.
pub fn bubble_sort<F: Fn(&DataArrWrapper, u128) -> bool>(
    data: &mut DataArrWrapper,
    sleep_time: u128,
    pace: &F,
)
    requires
        accepts_rearranged(pace, sleep_time, old(data)@.values),
    ensures
        rearranged(final(data)@.values, old(data)@.values),
        final(data)@.values.len() == old(data)@.values.len(),
        final(data)@.max_val == old(data)@.max_val,
        final(data)@.active_2 == old(data)@.active_2,
        final(data)@.pivot == old(data)@.pivot,
        old(data)@.markers_in_range() ==> final(data)@.markers_in_range(),
        !old(data)@.running() ==> final(data)@ == old(data)@,
        final(data)@.running() ==> ascending(final(data)@.values),
        old(data)@.running() && !final(data)@.running() ==> may_stop_at(
            pace,
            sleep_time,
            final(data)@.values,
        ),
{
    let len: usize = data.len();
    if len < 2 {
        return;
    }
    let mut swapped: bool = true;
    let ghost mut settled: int = 0;
    while swapped && !data.sorted
        invariant
            len == data@.values.len(),
            len == old(data)@.values.len(),
            len >= 2,
            0 <= settled <= len,
            swapped ==> settled < len,
            rearranged(data@.values, old(data)@.values),
            accepts_rearranged(pace, sleep_time, old(data)@.values),
            data@.max_val == old(data)@.max_val,
            data@.active_2 == old(data)@.active_2,
            data@.pivot == old(data)@.pivot,
            data@.active matches Some(a) ==> a < len || data@.active == old(data)@.active,
            old(data)@.sorted ==> data@ == old(data)@,
            data@.sorted && !old(data)@.sorted ==> may_stop_at(pace, sleep_time, data@.values),
            top_settled(data@.values, settled),
            !swapped && data@.running() ==> ascending(data@.values),
        decreases len - settled, if data@.sorted { 0int } else { 1int },
    {
        swapped = forward_pass(data, sleep_time, pace, Ghost(settled));
        proof {
            if data@.running() {
                settled = settled + 1;
            }
        }
    }
}

/// Cocktail shaker sort: a pass from the bottom to the top, then one from the top to the
/// bottom, and so on in turn, until a whole pass exchanges no pair of neighbours or the sort
/// is told to stop.
/// An array that is not marked as running is left as it is.
pub fn cocktail_shaker_sort<F: Fn(&DataArrWrapper, u128) -> bool>(
    data: &mut DataArrWrapper,
    sleep_time: u128,
    pace: &F,
)
    requires
        accepts_rearranged(pace, sleep_time, old(data)@.values),
    ensures
        rearranged(final(data)@.values, old(data)@.values),
        final(data)@.values.len() == old(data)@.values.len(),
        final(data)@.max_val == old(data)@.max_val,
        final(data)@.active_2 == old(data)@.active_2,
        final(data)@.pivot == old(data)@.pivot,
        old(data)@.markers_in_range() ==> final(data)@.markers_in_range(),
        !old(data)@.running() ==> final(data)@ == old(data)@,
        final(data)@.running() ==> ascending(final(data)@.values),
        old(data)@.running() && !final(data)@.running() ==> may_stop_at(
            pace,
            sleep_time,
            final(data)@.values,
        ),
{
    let len: usize = data.len();
    if len < 2 {
        return;
    }
    let mut swapped: bool = true;
    let ghost mut settled: int = 0;
    while swapped && !data.sorted
        invariant
            len == data@.values.len(),
            len == old(data)@.values.len(),
            len >= 2,
            0 <= settled <= len,
            swapped ==> settled < len,
            rearranged(data@.values, old(data)@.values),
            accepts_rearranged(pace, sleep_time, old(data)@.values),
            data@.max_val == old(data)@.max_val,
            data@.active_2 == old(data)@.active_2,
            data@.pivot == old(data)@.pivot,
            data@.active matches Some(a) ==> a < len || data@.active == old(data)@.active,
            old(data)@.sorted ==> data@ == old(data)@,
            data@.sorted && !old(data)@.sorted ==> may_stop_at(pace, sleep_time, data@.values),
            top_settled(data@.values, settled),
            !swapped && data@.running() ==> ascending(data@.values),
        decreases len - settled, if data@.sorted { 0int } else { 1int },
    {
        swapped = forward_pass(data, sleep_time, pace, Ghost(settled));
        proof {
            if data@.running() {
                settled = settled + 1;
            }
        }
        if swapped {
            swapped = backward_pass(data, sleep_time, pace, Ghost(settled));
        }
    }
}

/// Insertion sort of the values at `start ..= end`: each value in turn is moved down past
/// its neighbours, one exchange at a time, until the one before it is smaller.
/// An array that is not marked as running is left as it is.
pub fn insertion_sort<F: Fn(&DataArrWrapper, u128) -> bool>(
    data: &mut DataArrWrapper,
    sleep_time: u128,
    start: usize,
    end: usize,
    pace: &F,
)
    requires
        start <= end ==> end < old(data)@.values.len(),
        accepts_rearranged(pace, sleep_time, old(data)@.values),
    ensures
        rearranged(final(data)@.values, old(data)@.values),
        same_outside(final(data)@.values, old(data)@.values, start as int, end + 1),
        final(data)@.max_val == old(data)@.max_val,
        final(data)@.active_2 == old(data)@.active_2,
        old(data)@.markers_in_range() ==> final(data)@.markers_in_range(),
        !old(data)@.running() || start > end ==> final(data)@ == old(data)@,
        final(data)@.running() ==> ascending_in(final(data)@.values, start as int, end + 1),
        old(data)@.running() && !final(data)@.running() ==> may_stop_at(
            pace,
            sleep_time,
            final(data)@.values,
        ),
{
    let len: usize = data.len();
    if start > end || data.sorted {
        return;
    }
    let mut i: usize = start;
    while i <= end
        invariant
            start <= i <= end + 1,
            end < len,
            len == data@.values.len(),
            len == old(data)@.values.len(),
            rearranged(data@.values, old(data)@.values),
            same_outside(data@.values, old(data)@.values, start as int, end + 1),
            accepts_rearranged(pace, sleep_time, old(data)@.values),
            data@.max_val == old(data)@.max_val,
            data@.active_2 == old(data)@.active_2,
            data@.active matches Some(a) ==> a < len || data@.active == old(data)@.active,
            data@.pivot matches Some(a) ==> a < len || data@.pivot == old(data)@.pivot,
            old(data)@.running(),
            data@.sorted ==> may_stop_at(pace, sleep_time, data@.values),
            data@.running() ==> ascending_in(data@.values, start as int, i as int),
        decreases end + 1 - i,
    {
        if data.sorted {
            return;
        }
        data.set_pivot(i);
        let mut j: usize = i;
        let mut placed: bool = false;
        while j > start && !placed
            invariant
                start <= j <= i <= end,
                end < len,
                len == data@.values.len(),
                len == old(data)@.values.len(),
                rearranged(data@.values, old(data)@.values),
                same_outside(data@.values, old(data)@.values, start as int, end + 1),
                accepts_rearranged(pace, sleep_time, old(data)@.values),
                data@.max_val == old(data)@.max_val,
                data@.active_2 == old(data)@.active_2,
                data@.active matches Some(a) ==> a < len || data@.active == old(data)@.active,
                data@.pivot matches Some(a) ==> a < len || data@.pivot == old(data)@.pivot,
                data@.sorted ==> may_stop_at(pace, sleep_time, data@.values),
                data@.running() ==> forall|a: int, b: int|
                    start <= a <= b <= i && a != j && b != j ==> data@.values[a]
                        <= data@.values[b],
                data@.running() ==> forall|b: int|
                    j < b <= i ==> data@.values[j as int] <= data@.values[b],
                data@.running() && placed ==> ascending_in(
                    data@.values,
                    start as int,
                    i + 1,
                ),
            decreases j, if placed { 0int } else { 1int },
        {
            data.set_active(j);
            if data.sorted || data.get(j - 1) < data.get(j) {
                placed = true;
            } else {
                proof {
                    lemma_exchange_rearranged(data@.values, j as int, j - 1);
                }
                data.swap(j, j - 1);
                pause(data, sleep_time, pace);
                j -= 1;
            }
        }
        i += 1;
    }
}

/// Selection sort: for each place from the bottom up, the least of the values from there on
/// is looked for, one comparison at a time, and exchanged into the place. The sort looks
/// whether it was told to stop before each comparison and before each exchange.
/// An array that is not marked as running is left as it is.
pub fn selection_sort<F: Fn(&DataArrWrapper, u128) -> bool>(
    data: &mut DataArrWrapper,
    sleep_time: u128,
    pace: &F,
)
    requires
        accepts_rearranged(pace, sleep_time, old(data)@.values),
    ensures
        rearranged(final(data)@.values, old(data)@.values),
        final(data)@.values.len() == old(data)@.values.len(),
        final(data)@.max_val == old(data)@.max_val,
        old(data)@.markers_in_range() ==> final(data)@.markers_in_range(),
        !old(data)@.running() ==> final(data)@ == old(data)@,
        final(data)@.running() ==> ascending(final(data)@.values),
        old(data)@.running() && !final(data)@.running() ==> may_stop_at(
            pace,
            sleep_time,
            final(data)@.values,
        ),
{
    let len: usize = data.len();
    if len < 2 || data.sorted {
        return;
    }
    let mut done: usize = 0;
    while done < len - 1
        invariant
            done <= len - 1,
            len >= 2,
            len == data@.values.len(),
            len == old(data)@.values.len(),
            rearranged(data@.values, old(data)@.values),
            accepts_rearranged(pace, sleep_time, old(data)@.values),
            data@.max_val == old(data)@.max_val,
            data@.active matches Some(a) ==> a < len || data@.active == old(data)@.active,
            data@.active_2 matches Some(a) ==> a < len || data@.active_2 == old(data)@.active_2,
            data@.pivot matches Some(a) ==> a < len || data@.pivot == old(data)@.pivot,
            old(data)@.running(),
            data@.sorted ==> may_stop_at(pace, sleep_time, data@.values),
            ascending_in(data@.values, 0, done as int),
            forall|a: int, b: int|
                0 <= a < done <= b < len ==> data@.values[a] <= data@.values[b],
        decreases len - done,
    {
        if data.sorted {
            return;
        }
        data.set_active_2(done);
        let mut min_index: usize = done;
        let mut min_value: usize = data.get(done);
        let mut i: usize = done + 1;
        while i < len
            invariant
                done < i <= len,
                done <= min_index < i,
                old(data)@.running(),
                len == data@.values.len(),
                len == old(data)@.values.len(),
                rearranged(data@.values, old(data)@.values),
                accepts_rearranged(pace, sleep_time, old(data)@.values),
                data@.max_val == old(data)@.max_val,
                data@.active matches Some(a) ==> a < len || data@.active == old(data)@.active,
                data@.active_2 matches Some(a) ==> a < len || data@.active_2 == old(data)@.active_2,
                data@.pivot matches Some(a) ==> a < len || data@.pivot == old(data)@.pivot,
                data@.sorted ==> may_stop_at(pace, sleep_time, data@.values),
                ascending_in(data@.values, 0, done as int),
                forall|a: int, b: int|
                    0 <= a < done <= b < len ==> data@.values[a] <= data@.values[b],
                min_value == data@.values[min_index as int],
                forall|k: int| done <= k < i ==> min_value <= data@.values[k],
            decreases len - i,
        {
            if data.sorted {
                return;
            }
            data.set_active(i);
            let val: usize = data.get(i);
            if val < min_value {
                min_index = i;
                min_value = val;
                data.set_pivot(i);
            }
            pause(data, sleep_time, pace);
            i += 1;
        }
        if data.sorted {
            return;
        }
        proof {
            lemma_exchange_rearranged(data@.values, min_index as int, done as int);
        }
        data.swap(min_index, done);
        done += 1;
    }
}

} // verus!
