use crate::sorting_array::array::DataArrWrapper;
use crate::sorting_array::order::{ascending, lemma_exchange_rearranged, rearranged};
use crate::sorting_array::sorts::{accepts_rearranged, may_stop_at, pause};
use crate::tools::{checked_power, lemma_pow2_exceeds};
use vstd::arithmetic::power::pow;
use vstd::prelude::*;

verus! {

/// Gives the gaps of shell sort from the smallest up: `2^k - 1` for `k = 1, 2, ..`.
pub struct ShellSortGapsIter {
    count: usize,
}

impl View for ShellSortGapsIter {
    type V = nat;

    /// The exponent `k` of the gap that comes next.
    closed spec fn view(&self) -> nat {
        self.count as nat
    }
}

impl Default for ShellSortGapsIter {
    fn default() -> (iter: ShellSortGapsIter)
        ensures
            iter@ == 1,
    {
        ShellSortGapsIter { count: 1 }
    }
}

impl ShellSortGapsIter {
    /// The next gap, `2^k - 1`, or nothing once that is more than a `usize` holds.
    pub fn next(&mut self) -> (gap: Option<usize>)
        ensures
            gap == if pow(2, old(self)@) <= usize::MAX {
                Some((pow(2, old(self)@) - 1) as usize)
            } else {
                None
            },
            final(self)@ == if gap.is_some() {
                old(self)@ + 1
            } else {
                old(self)@
            },
    {
        proof {
            lemma_pow2_exceeds(self.count as nat);
        }
        match checked_power(2, self.count) {
            Some(p) => {
                self.count += 1;
                Some(p - 1)
            },
            None => None,
        }
    }
}

/// The gaps of shell sort for `len` values, in the order they are applied: all of
/// `2^k - 1`, `k >= 1`, that are less than `len`, from the greatest down to 1.
pub fn shell_gaps(len: usize) -> (gaps: Vec<usize>)
    ensures
        forall|i: int|
            0 <= i < gaps@.len() ==> #[trigger] gaps@[i] == pow(2, (gaps@.len() - i) as nat) - 1,
        forall|i: int| 0 <= i < gaps@.len() ==> 1 <= #[trigger] gaps@[i] < len,
        pow(2, (gaps@.len() + 1) as nat) - 1 >= len,
{
    let mut iter: ShellSortGapsIter = ShellSortGapsIter::default();
    let mut rising: Vec<usize> = Vec::new();
    let mut more: bool = true;
    while more
        invariant
            more ==> iter@ == rising@.len() + 1,
            rising@.len() <= len,
            forall|i: int|
                0 <= i < rising@.len() ==> #[trigger] rising@[i] == pow(2, (i + 1) as nat) - 1,
            forall|i: int| 0 <= i < rising@.len() ==> 1 <= #[trigger] rising@[i] < len,
            !more ==> pow(2, (rising@.len() + 1) as nat) - 1 >= len,
        decreases len - rising@.len(), if more { 1int } else { 0int },
    {
        proof {
            lemma_pow2_exceeds((rising@.len() + 1) as nat);
        }
        match iter.next() {
            Some(gap) => {
                if gap < len {
                    rising.push(gap);
                } else {
                    more = false;
                }
            },
            None => {
                more = false;
            },
        }
    }
    let count: usize = rising.len();
    let mut gaps: Vec<usize> = Vec::with_capacity(count);
    let mut k: usize = count;
    while k > 0
        invariant
            k <= count,
            count == rising@.len(),
            gaps@.len() == count - k,
            forall|i: int| 0 <= i < gaps@.len() ==> #[trigger] gaps@[i] == rising@[count - 1 - i],
        decreases k,
    {
        k -= 1;
        gaps.push(rising[k]);
    }
    gaps
}

/// Each value is no less than the one `gap` places before it.
pub open spec fn gap_sorted(s: Seq<usize>, gap: int) -> bool {
    forall|k: int| gap <= k < s.len() ==> s[k - gap] <= #[trigger] s[k]
}

/// Values that are each no less than the one before are in ascending order.
pub proof fn lemma_gap_one_ascending(s: Seq<usize>)
    requires
        gap_sorted(s, 1),
    ensures
        ascending(s),
{
    assert forall|i: int, j: int| 0 <= i <= j < s.len() implies s[i] <= s[j] by {
        lemma_gap_one_between(s, i, j);
    }
}

proof fn lemma_gap_one_between(s: Seq<usize>, i: int, j: int)
    requires
        gap_sorted(s, 1),
        0 <= i <= j < s.len(),
    ensures
        s[i] <= s[j],
    decreases j - i,
{
    if i < j {
        lemma_gap_one_between(s, i, j - 1);
    }
}

/// One pass of insertion over the values that stand `gap` apart: each value in turn is moved
/// down past the greater ones `gap`, `2 * gap`, .. places before it, by one exchange after
/// another, each being one step of the animation. The pass looks whether it was told to stop
/// before each exchange.
/// An array that is not marked as running is left as it is.
pub fn gapped_pass<F: Fn(&DataArrWrapper, u128) -> bool>(
    data: &mut DataArrWrapper,
    sleep_time: u128,
    gap: usize,
    pace: &F,
)
    requires
        gap >= 1,
        accepts_rearranged(pace, sleep_time, old(data)@.values),
    ensures
        rearranged(final(data)@.values, old(data)@.values),
        final(data)@.values.len() == old(data)@.values.len(),
        final(data)@.max_val == old(data)@.max_val,
        final(data)@.pivot == old(data)@.pivot,
        final(data)@.active matches Some(a) ==> a < final(data)@.values.len()
            || final(data)@.active == old(data)@.active,
        final(data)@.active_2 matches Some(a) ==> a < final(data)@.values.len()
            || final(data)@.active_2 == old(data)@.active_2,
        !old(data)@.running() ==> final(data)@ == old(data)@,
        final(data)@.running() ==> gap_sorted(final(data)@.values, gap as int),
        old(data)@.running() && !final(data)@.running() ==> may_stop_at(
            pace,
            sleep_time,
            final(data)@.values,
        ),
{
    let len: usize = data.len();
    if gap >= len || data.sorted {
        return;
    }
    let mut i: usize = gap;
    while i < len
        invariant
            1 <= gap <= i <= len,
            len == data@.values.len(),
            len == old(data)@.values.len(),
            rearranged(data@.values, old(data)@.values),
            accepts_rearranged(pace, sleep_time, old(data)@.values),
            data@.max_val == old(data)@.max_val,
            data@.pivot == old(data)@.pivot,
            data@.active matches Some(a) ==> a < len || data@.active == old(data)@.active,
            data@.active_2 matches Some(a) ==> a < len || data@.active_2 == old(data)@.active_2,
            old(data)@.running(),
            data@.sorted ==> may_stop_at(pace, sleep_time, data@.values),
            data@.running() ==> forall|k: int|
                gap <= k < i ==> data@.values[k - gap] <= #[trigger] data@.values[k],
        decreases len - i,
    {
        if data.sorted {
            return;
        }
        let mut j: usize = i;
        while j >= gap && !data.sorted && data.get(j - gap) > data.get(j)
            invariant
                1 <= gap <= i < len,
                j <= i,
                len == data@.values.len(),
                len == old(data)@.values.len(),
                rearranged(data@.values, old(data)@.values),
                accepts_rearranged(pace, sleep_time, old(data)@.values),
                data@.max_val == old(data)@.max_val,
                data@.pivot == old(data)@.pivot,
                data@.active matches Some(a) ==> a < len || data@.active == old(data)@.active,
                data@.active_2 matches Some(a) ==> a < len || data@.active_2 == old(
                    data,
                )@.active_2,
                data@.sorted ==> may_stop_at(pace, sleep_time, data@.values),
                data@.running() ==> forall|k: int|
                    gap <= k <= i && k != j ==> data@.values[k - gap] <= #[trigger] data@.values[k],
                data@.running() && j < i && j >= gap ==> data@.values[j - gap] <= data@.values[j
                    + gap],
            decreases j,
        {
            data.set_active(j - gap);
            data.set_active_2(j);
            proof {
                lemma_exchange_rearranged(data@.values, j as int, j - gap);
            }
            data.swap(j, j - gap);
            j -= gap;
            pause(data, sleep_time, pace);
        }
        i += 1;
    }
}

/// Shell sort: a gapped pass for each gap `2^k - 1` below the number of values, from the
/// greatest gap down to 1.
/// An array that is not marked as running is left as it is.
pub fn shell_sort<F: Fn(&DataArrWrapper, u128) -> bool>(
    data: &mut DataArrWrapper,
    sleep_time: u128,
    pace: &F,
)
    requires
        accepts_rearranged(pace, sleep_time, old(data)@.values),
    ensures
        rearranged(final(data)@.values, old(data)@.values),
        final(data)@.values.len() == old(data)@.values.len(),
        final(data)@.max_val == old(data)@.max_val,
        final(data)@.pivot == old(data)@.pivot,
        old(data)@.markers_in_range() ==> final(data)@.markers_in_range(),
        !old(data)@.running() ==> final(data)@ == old(data)@,
        final(data)@.running() ==> ascending(final(data)@.values),
        old(data)@.running() && !final(data)@.running() ==> may_stop_at(
            pace,
            sleep_time,
            final(data)@.values,
        ),
{
    let len: usize = data.len();
    if data.sorted {
        return;
    }
    let gaps: Vec<usize> = shell_gaps(len);
    let count: usize = gaps.len();
    proof {
        reveal_with_fuel(pow, 3);
    }
    let mut n: usize = 0;
    while n < count
        invariant
            n <= count,
            count == gaps@.len(),
            forall|i: int| 0 <= i < gaps@.len() ==> 1 <= #[trigger] gaps@[i] < len,
            count > 0 ==> gaps@[count - 1] == 1,
            count == 0 ==> len < 2,
            len == data@.values.len(),
            len == old(data)@.values.len(),
            rearranged(data@.values, old(data)@.values),
            accepts_rearranged(pace, sleep_time, old(data)@.values),
            data@.max_val == old(data)@.max_val,
            data@.pivot == old(data)@.pivot,
            data@.active matches Some(a) ==> a < len || data@.active == old(data)@.active,
            data@.active_2 matches Some(a) ==> a < len || data@.active_2 == old(data)@.active_2,
            old(data)@.running(),
            data@.sorted ==> may_stop_at(pace, sleep_time, data@.values),
            n == count && count > 0 && data@.running() ==> gap_sorted(data@.values, 1),
        decreases count - n,
    {
        if data.sorted {
            return;
        }
        gapped_pass(data, sleep_time, gaps[n], pace);
        n += 1;
    }
    proof {
        if data@.running() {
            if count > 0 {
                lemma_gap_one_ascending(data@.values);
            }
        }
    }
}

/// Comb sort: a gapped pass for each gap from half the number of values, halved from pass to
/// pass, down to 1.
/// An array that is not marked as running is left as it is.
pub fn comb_sort<F: Fn(&DataArrWrapper, u128) -> bool>(
    data: &mut DataArrWrapper,
    sleep_time: u128,
    pace: &F,
)
    requires
        accepts_rearranged(pace, sleep_time, old(data)@.values),
    ensures
        rearranged(final(data)@.values, old(data)@.values),
        final(data)@.values.len() == old(data)@.values.len(),
        final(data)@.max_val == old(data)@.max_val,
        final(data)@.pivot == old(data)@.pivot,
        old(data)@.markers_in_range() ==> final(data)@.markers_in_range(),
        !old(data)@.running() ==> final(data)@ == old(data)@,
        final(data)@.running() ==> ascending(final(data)@.values),
        old(data)@.running() && !final(data)@.running() ==> may_stop_at(
            pace,
            sleep_time,
            final(data)@.values,
        ),
{
    let len: usize = data.len();
    if data.sorted {
        return;
    }
    let mut gap: usize = if len / 2 >= 1 {
        len / 2
    } else {
        1
    };
    let mut last: bool = false;
    while !last
        invariant
            gap >= 1,
            len == data@.values.len(),
            len == old(data)@.values.len(),
            rearranged(data@.values, old(data)@.values),
            accepts_rearranged(pace, sleep_time, old(data)@.values),
            data@.max_val == old(data)@.max_val,
            data@.pivot == old(data)@.pivot,
            data@.active matches Some(a) ==> a < len || data@.active == old(data)@.active,
            data@.active_2 matches Some(a) ==> a < len || data@.active_2 == old(data)@.active_2,
            old(data)@.running(),
            data@.sorted ==> may_stop_at(pace, sleep_time, data@.values),
            last && data@.running() ==> gap_sorted(data@.values, 1),
        decreases gap, if last { 0int } else { 1int },
    {
        if data.sorted {
            return;
        }
        gapped_pass(data, sleep_time, gap, pace);
        if gap == 1 {
            last = true;
        } else {
            gap = gap / 2;
        }
    }
    proof {
        if data@.running() {
            lemma_gap_one_ascending(data@.values);
        }
    }
}

} // verus!
