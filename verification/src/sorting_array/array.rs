use crate::config::{SleepTimes, MAX_ARRAY_LEN, MAX_RADIX_BASE, MIN_RADIX_BASE};
use crate::sorting_array::commands::{MergeSortType, QuickSortType, SortInstruction};
use crate::sorting_array::order::{
    ascending, exchanged, identity, is_permutation, lemma_exchange_rearranged,
    lemma_reverse_rearranged, lemma_sorted_permutation, rearranged,
};
use crate::sorting_array::pacing::{step_sleep, step_sleep_for};
use crate::sorting_array::sorts::merge_sorting::merge_sort_in_place;
use crate::sorting_array::sorts::quick_sorting::{quick_sort_lomuto, quicktimsort};
use crate::sorting_array::sorts::radix::{radix_lsd, stopped_in_pass};
use crate::sorting_array::sorts::shell::{comb_sort, shell_sort};
use crate::sorting_array::sorts::{
    accepts_len, accepts_rearranged, bubble_sort, cocktail_shaker_sort, insertion_sort,
    lemma_accepts_len_rearranged, may_stop_at, pause, selection_sort,
};
use vstd::prelude::*;

verus! {

/// What an observer sees of an array at one instant: the values, the three markers, the sound
/// trigger, whether a sort is in progress, and the value that magnitudes are scaled by.
pub struct ArrayState {
    pub values: Seq<usize>,
    pub active: Option<usize>,
    pub active_2: Option<usize>,
    pub pivot: Option<usize>,
    pub should_play_sound: bool,
    pub sorted: bool,
    pub max_val: usize,
}

impl ArrayState {
    /// A sort is in progress, and clearing this stops it.
    pub open spec fn running(self) -> bool {
        !self.sorted
    }

    /// Each marker that is set points at a value.
    pub open spec fn markers_in_range(self) -> bool {
        &&& self.active matches Some(i) ==> i < self.values.len()
        &&& self.active_2 matches Some(i) ==> i < self.values.len()
        &&& self.pivot matches Some(i) ==> i < self.values.len()
    }

    /// The state with no marker set and no sort in progress.
    pub open spec fn idle(self) -> ArrayState {
        ArrayState { active: None, active_2: None, pivot: None, sorted: true, ..self }
    }

    /// The idle state with the values back in ascending order.
    pub open spec fn reset(self) -> ArrayState {
        ArrayState { values: identity(self.values.len()), ..self.idle() }
    }

    /// The state with the order of the values turned round.
    pub open spec fn reversed(self) -> ArrayState {
        ArrayState { values: self.values.reverse(), ..self }
    }

    /// The values are `0 .. len - 1` in some order, scaled by their number, and the markers
    /// point at values.
    pub open spec fn wf(self) -> bool {
        &&& is_permutation(self.values)
        &&& self.max_val == self.values.len()
        &&& self.markers_in_range()
    }
}

/// Resetting twice is resetting once: from any state the values are then `0 .. len - 1` in
/// ascending order, no marker is set and no sort is in progress.
pub proof fn lemma_reset_idempotent(state: ArrayState)
    ensures
        state.reset().reset() == state.reset(),
        state.reset().values == identity(state.values.len()),
        !state.reset().running(),
        state.reset().active is None && state.reset().active_2 is None && state.reset().pivot
            is None,
{
}

/// Turning the order round twice gives back the order there was, and changes nothing else.
pub proof fn lemma_reverse_twice(state: ArrayState)
    ensures
        state.reversed().reversed() == state,
{
    assert(state.values.reverse().reverse() =~= state.values);
}

/// The values being sorted, with what the animation shows of the sort at work on them.
pub struct DataArrWrapper {
    pub arr: Vec<usize>,
    pub active: Option<usize>,
    pub active_2: Option<usize>,
    pub pivot: Option<usize>,
    pub should_play_sound: bool,
    pub sorted: bool,
    pub max_val: usize,
}

impl View for DataArrWrapper {
    type V = ArrayState;

    open spec fn view(&self) -> ArrayState {
        ArrayState {
            values: self.arr@,
            active: self.active,
            active_2: self.active_2,
            pivot: self.pivot,
            should_play_sound: self.should_play_sound,
            sorted: self.sorted,
            max_val: self.max_val,
        }
    }
}

impl DataArrWrapper {
    /// Wraps `arr`: no marker set, no sound due, no sort in progress.
    pub fn new(arr: Vec<usize>, max_val: usize) -> (s: Self)
        ensures
            s@ == (ArrayState {
                values: arr@,
                active: None,
                active_2: None,
                pivot: None,
                should_play_sound: false,
                sorted: true,
                max_val,
            }),
    {
        Self {
            arr,
            active: None,
            active_2: None,
            pivot: None,
            should_play_sound: false,
            sorted: true,
            max_val,
        }
    }

    /// The number of values.
    pub fn len(&self) -> (n: usize)
        ensures
            n == self@.values.len(),
    {
        self.arr.len()
    }

    /// The value at `i`.
    pub fn get(&self, i: usize) -> (v: usize)
        requires
            i < self@.values.len(),
        ensures
            v == self@.values[i as int],
    {
        self.arr[i]
    }

    /// Puts `v` at `i`.
    pub fn set(&mut self, i: usize, v: usize)
        requires
            i < old(self)@.values.len(),
        ensures
            final(self)@ == (ArrayState {
                values: old(self)@.values.update(i as int, v),
                ..old(self)@
            }),
    {
        self.arr[i] = v;
    }

    /// Exchanges the values at `i` and `j`.
    pub fn swap(&mut self, i: usize, j: usize)
        requires
            i < old(self)@.values.len(),
            j < old(self)@.values.len(),
        ensures
            final(self)@ == (ArrayState {
                values: exchanged(old(self)@.values, i as int, j as int),
                ..old(self)@
            }),
    {
        let at_i: usize = self.arr[i];
        let at_j: usize = self.arr[j];
        self.arr[i] = at_j;
        self.arr[j] = at_i;
    }

    /// Marks `index` as the value being looked at or moved, which is also when a sound is due.
    #[inline]
    pub fn set_active(&mut self, index: usize)
        ensures
            final(self)@ == (ArrayState {
                active: Some(index),
                should_play_sound: true,
                ..old(self)@
            }),
    {
        self.active = Some(index);
        self.should_play_sound = true;
    }

    /// Marks `index` as the second value of a comparison.
    #[inline]
    pub fn set_active_2(&mut self, index: usize)
        ensures
            final(self)@ == (ArrayState { active_2: Some(index), ..old(self)@ }),
    {
        self.active_2 = Some(index);
    }

    /// Marks `index` as the value that the others are measured against.
    #[inline]
    pub fn set_pivot(&mut self, index: usize)
        ensures
            final(self)@ == (ArrayState { pivot: Some(index), ..old(self)@ }),
    {
        self.pivot = Some(index);
    }

    /// Says whether a sort is in progress. Marking the array as not running is how a sort at
    /// work on it is told to stop.
    pub fn mark_running(&mut self, running: bool)
        ensures
            final(self)@ == (ArrayState { sorted: !running, ..old(self)@ }),
    {
        self.sorted = !running;
    }

    /// Whether a sort is in progress.
    pub fn is_running(&self) -> (r: bool)
        ensures
            r == self@.running(),
    {
        !self.sorted
    }

    /// Puts the values back in ascending order `0 .. len - 1`, clears the markers and marks the
    /// array as not running.
    pub fn reset(&mut self)
        ensures
            final(self)@ == old(self)@.reset(),
    {
        self.active = None;
        self.active_2 = None;
        self.pivot = None;
        self.sorted = true;
        let n: usize = self.arr.len();
        let mut i: usize = 0;
        while i < n
            invariant
                i <= n,
                n == self.arr@.len(),
                self@ == (ArrayState { values: self.arr@, ..old(self)@.idle() }),
                forall|k: int| 0 <= k < i ==> self.arr@[k] == k,
            decreases n - i,
        {
            self.arr[i] = i;
            i += 1;
        }
        assert(self.arr@ =~= identity(n as nat));
    }

    /// Turns the order of the values round. Markers and flags stay as they are.
    pub fn reverse(&mut self)
        ensures
            final(self)@ == old(self)@.reversed(),
    {
        let n: usize = self.arr.len();
        let mut i: usize = 0;
        while i < n / 2
            invariant
                i <= n / 2,
                n == self.arr@.len(),
                n == old(self).arr@.len(),
                self@ == (ArrayState { values: self.arr@, ..old(self)@ }),
                forall|k: int| 0 <= k < i ==> self.arr@[k] == old(self).arr@[n - 1 - k],
                forall|k: int| n - i <= k < n ==> self.arr@[k] == old(self).arr@[n - 1 - k],
                forall|k: int| i <= k < n - i ==> self.arr@[k] == old(self).arr@[k],
            decreases n / 2 - i,
        {
            self.swap(i, n - 1 - i);
            i += 1;
        }
        assert(self.arr@ =~= old(self).arr@.reverse());
    }

    /// A copy of the values, markers and flags as they are now.
    pub fn snapshot(&self) -> (copy: Self)
        ensures
            copy@ == self@,
    {
        let n: usize = self.arr.len();
        let mut arr: Vec<usize> = Vec::with_capacity(n);
        let mut i: usize = 0;
        while i < n
            invariant
                i <= n,
                n == self.arr@.len(),
                arr@ == self.arr@.take(i as int),
            decreases n - i,
        {
            arr.push(self.arr[i]);
            i += 1;
        }
        assert(self.arr@.take(n as int) =~= self.arr@);
        Self {
            arr,
            active: self.active,
            active_2: self.active_2,
            pivot: self.pivot,
            should_play_sound: self.should_play_sound,
            sorted: self.sorted,
            max_val: self.max_val,
        }
    }
}

/// How the work that an instruction started came to its end.
#[derive(Clone, Copy, Debug, PartialEq, Eq, Structural)]
pub enum Outcome {
    /// It was done to the end.
    Completed,
    /// It was told to stop, and left the array as it was at that point.
    Stopped,
}

/// A position in `0 .. len` that `nannou::rand::random_range(0, len)` draws from the
/// thread's random number generator: any of them may come, and no other. With no position
/// to draw from, the generator panics.
#[verifier::external_body]
fn random_index(len: usize) -> (index: usize)
    requires
        len > 0,
    ensures
        index < len,
{
    nannou::rand::random_range(0usize, len)
}

/// An array with the times that the animations of the algorithms are given on it. It takes
/// the instructions and sees each through.
pub struct SortArray {
    pub data: DataArrWrapper,
    pub sleep_times: SleepTimes,
}

impl SortArray {
    /// An array of the values `0 .. num_of_lines - 1` in ascending order, with no marker set
    /// and no sort in progress.
    pub fn new(num_of_lines: usize, sleep_times: SleepTimes) -> (s: SortArray)
        ensures
            s.data@ == (ArrayState {
                values: identity(num_of_lines as nat),
                active: None,
                active_2: None,
                pivot: None,
                should_play_sound: false,
                sorted: true,
                max_val: num_of_lines,
            }),
            s.data@.wf(),
            s.sleep_times == sleep_times,
    {
        let mut arr: Vec<usize> = Vec::with_capacity(num_of_lines);
        let mut i: usize = 0;
        while i < num_of_lines
            invariant
                i <= num_of_lines,
                arr@.len() == i,
                forall|k: int| 0 <= k < i ==> arr@[k] == k,
            decreases num_of_lines - i,
        {
            arr.push(i);
            i += 1;
        }
        assert(arr@ =~= identity(num_of_lines as nat));
        SortArray { data: DataArrWrapper::new(arr, num_of_lines), sleep_times }
    }

    /// The number of values.
    #[inline]
    pub fn len(&self) -> (n: usize)
        ensures
            n == self.data@.values.len(),
    {
        self.data.len()
    }

    /// Clears the markers and marks the array as not running: what is done when the work
    /// that an instruction started has come to its end.
    #[inline]
    pub fn reset_arr_info(data: &mut DataArrWrapper)
        ensures
            final(data)@ == old(data)@.idle(),
    {
        data.active = None;
        data.active_2 = None;
        data.pivot = None;
        data.sorted = true;
    }

    /// Puts the values back in ascending order `0 .. len - 1`, clears the markers and marks
    /// the array as not running.
    pub fn reset(&mut self)
        ensures
            final(self).data@ == old(self).data@.reset(),
            final(self).sleep_times == old(self).sleep_times,
    {
        self.data.reset();
    }

    /// One step of a shuffle: the value at `i` changes places with the one at `target`, and
    /// is marked as the one just moved.
    pub fn shuffle_step(data: &mut DataArrWrapper, i: usize, target: usize)
        requires
            i < old(data)@.values.len(),
            target < old(data)@.values.len(),
        ensures
            final(data)@ == (ArrayState {
                values: exchanged(old(data)@.values, i as int, target as int),
                active: Some(i),
                should_play_sound: true,
                ..old(data)@
            }),
    {
        data.swap(i, target);
        data.set_active(i);
    }

    /// Shuffles the values: in each of `passes` passes, each value from the first to the
    /// last changes places with one drawn at random from all of them, which is one step of
    /// the animation. Before each step the shuffle looks whether it was told to stop.
    /// An array that is not marked as running is left as it is.
    pub fn shuffle<F: Fn(&DataArrWrapper, u128) -> bool>(
        data: &mut DataArrWrapper,
        sleep_time: u128,
        passes: u16,
        pace: &F,
    )
        requires
            accepts_rearranged(pace, sleep_time, old(data)@.values),
        ensures
            rearranged(final(data)@.values, old(data)@.values),
            final(data)@.values.len() == old(data)@.values.len(),
            final(data)@.max_val == old(data)@.max_val,
            final(data)@.active_2 == old(data)@.active_2,
            final(data)@.pivot == old(data)@.pivot,
            old(data)@.markers_in_range() ==> final(data)@.markers_in_range(),
            passes == 0 || !old(data)@.running() || old(data)@.values.len() == 0 ==> final(data)@
                == old(data)@,
            final(data)@.running() && passes > 0 && old(data)@.values.len() > 0
                ==> final(data)@.active == Some((old(data)@.values.len() - 1) as usize),
            old(data)@.running() && !final(data)@.running() ==> may_stop_at(
                pace,
                sleep_time,
                final(data)@.values,
            ),
    {
        let len: usize = data.len();
        if len == 0 || data.sorted {
            return;
        }
        let mut pass: u16 = 0;
        while pass < passes
            invariant
                pass <= passes,
                len > 0,
                len == data@.values.len(),
                len == old(data)@.values.len(),
                rearranged(data@.values, old(data)@.values),
                accepts_rearranged(pace, sleep_time, old(data)@.values),
                data@.max_val == old(data)@.max_val,
                data@.active_2 == old(data)@.active_2,
                data@.pivot == old(data)@.pivot,
                data@.active matches Some(a) ==> a < len || data@.active == old(data)@.active,
                old(data)@.running(),
                pass == 0 ==> data@ == old(data)@,
                pass > 0 && data@.running() ==> data@.active == Some((len - 1) as usize),
                data@.sorted ==> may_stop_at(pace, sleep_time, data@.values),
            decreases passes - pass,
        {
            let mut i: usize = 0;
            while i < len
                invariant
                    i <= len,
                    pass < passes,
                    len > 0,
                    len == data@.values.len(),
                    len == old(data)@.values.len(),
                    rearranged(data@.values, old(data)@.values),
                    accepts_rearranged(pace, sleep_time, old(data)@.values),
                    data@.max_val == old(data)@.max_val,
                    data@.active_2 == old(data)@.active_2,
                    data@.pivot == old(data)@.pivot,
                    data@.active matches Some(a) ==> a < len || data@.active == old(data)@.active,
                    old(data)@.running(),
                    i > 0 && data@.running() ==> data@.active == Some((i - 1) as usize),
                    data@.sorted ==> may_stop_at(pace, sleep_time, data@.values),
                decreases len - i,
            {
                if data.sorted {
                    return;
                }
                let target: usize = random_index(len);
                proof {
                    lemma_exchange_rearranged(data@.values, i as int, target as int);
                }
                Self::shuffle_step(data, i, target);
                pause(data, sleep_time, pace);
                i += 1;
            }
            pass += 1;
        }
    }

    /// Sees `instruction` through on `data`. `Reset`, `Reverse` and `Stop` are done at once.
    /// For the others the array is marked as running, the work is done step by step, with
    /// the time for a step that the algorithm's share of `sleep_times` gives for this many
    /// values, and at its end the markers are cleared and the array is marked as not running.
    ///
    /// The work is done on the thread that calls; which of the kinds of quicksort and merge
    /// sort is asked for decides how a program that has threads hands the two sides out, not
    /// what the array holds at the end.
    pub fn run<F: Fn(&DataArrWrapper, u128) -> bool>(
        data: &mut DataArrWrapper,
        sleep_times: &SleepTimes,
        instruction: SortInstruction,
        pace: &F,
    ) -> (outcome: Outcome)
        requires
            instruction.is_run() ==> old(data)@.values.len() >= 1,
            instruction is ShellSort || instruction is CombSort ==> old(data)@.values.len()
                <= MAX_ARRAY_LEN,
            instruction matches SortInstruction::RadixSort(base) ==> MIN_RADIX_BASE <= base
                <= MAX_RADIX_BASE,
            instruction.is_run() ==> accepts_len(
                pace,
                step_sleep(*sleep_times, instruction, old(data)@.values.len()),
                old(data)@.values.len(),
            ),
        ensures
            final(data)@.values.len() == old(data)@.values.len(),
            final(data)@.max_val == old(data)@.max_val,
            instruction is Reset ==> final(data)@ == old(data)@.reset(),
            instruction is Reverse ==> final(data)@ == old(data)@.reversed(),
            instruction is Stop ==> final(data)@ == (ArrayState { sorted: true, ..old(data)@ }),
            !instruction.is_run() ==> outcome == Outcome::Completed,
            instruction.is_run() ==> final(data)@ == (ArrayState {
                values: final(data)@.values,
                should_play_sound: final(data)@.should_play_sound,
                ..old(data)@.idle()
            }),
            instruction.is_run() && !(instruction is RadixSort && outcome == Outcome::Stopped)
                ==> rearranged(final(data)@.values, old(data)@.values),
            instruction matches SortInstruction::RadixSort(base) ==> outcome == Outcome::Stopped
                ==> stopped_in_pass(old(data)@.values, final(data)@.values, base as int),
            instruction.is_sort() && outcome == Outcome::Completed ==> ascending(
                final(data)@.values,
            ),
            is_permutation(old(data)@.values) && instruction.is_run() && !(instruction
                is RadixSort && outcome == Outcome::Stopped) ==> is_permutation(
                final(data)@.values,
            ),
            is_permutation(old(data)@.values) && instruction.is_sort() && outcome
                == Outcome::Completed ==> final(data)@.values == identity(
                old(data)@.values.len(),
            ),
            old(data)@.wf() && !(instruction is RadixSort && outcome == Outcome::Stopped)
                ==> final(data)@.wf(),
            instruction matches SortInstruction::Shuffle(passes) ==> passes == 0
                ==> final(data)@.values == old(data)@.values,
            outcome == Outcome::Stopped ==> may_stop_at(
                pace,
                step_sleep(*sleep_times, instruction, old(data)@.values.len()),
                final(data)@.values,
            ),
    {
        let data_len: usize = data.len();
        match instruction {
            SortInstruction::Reset => {
                data.reset();
                return Outcome::Completed;
            },
            SortInstruction::Reverse => {
                data.reverse();
                proof {
                    lemma_reverse_rearranged(old(data)@.values);
                }
                return Outcome::Completed;
            },
            SortInstruction::Stop => {
                data.mark_running(false);
                return Outcome::Completed;
            },
            _ => {},
        }
        let sleep_time: u128 = step_sleep_for(sleep_times, instruction, data_len);
        data.mark_running(true);
        proof {
            lemma_accepts_len_rearranged(pace, sleep_time, data@.values);
        }
        match instruction {
            SortInstruction::Shuffle(rounds) => {
                Self::shuffle(data, sleep_time, rounds, pace);
            },
            SortInstruction::BubbleSort => {
                bubble_sort(data, sleep_time, pace);
            },
            SortInstruction::CocktailShakerSort => {
                cocktail_shaker_sort(data, sleep_time, pace);
            },
            SortInstruction::InsertionSort => {
                insertion_sort(data, sleep_time, 0, data_len - 1, pace);
            },
            SortInstruction::SelectionSort => {
                selection_sort(data, sleep_time, pace);
            },
            SortInstruction::ShellSort => {
                shell_sort(data, sleep_time, pace);
            },
            SortInstruction::CombSort => {
                comb_sort(data, sleep_time, pace);
            },
            SortInstruction::QuickSort(partition_type) => {
                match partition_type {
                    QuickSortType::Lomuto { multithreaded: _, insertion_hybrid } => {
                        if insertion_hybrid {
                            quicktimsort(data, sleep_time, 0, data_len - 1, pace);
                        } else {
                            quick_sort_lomuto(data, sleep_time, 0, data_len - 1, pace);
                        }
                    },
                }
            },
            SortInstruction::MergeSort(merge_type) => {
                match merge_type {
                    MergeSortType::InPlace { multithreaded: _ } => {
                        merge_sort_in_place(data, sleep_time, 0, data_len - 1, pace);
                    },
                }
            },
            SortInstruction::RadixSort(base) => {
                radix_lsd(data, sleep_time, base, pace);
            },
            _ => {},
        }
        let outcome: Outcome = if data.is_running() {
            Outcome::Completed
        } else {
            Outcome::Stopped
        };
        proof {
            if is_permutation(old(data)@.values) && instruction.is_sort() && outcome
                == Outcome::Completed {
                lemma_sorted_permutation(old(data)@.values, data@.values);
            }
        }
        Self::reset_arr_info(data);
        outcome
    }

    /// Sees `instruction` through on this array, with the times it was made with.
    pub fn instruction<F: Fn(&DataArrWrapper, u128) -> bool>(
        &mut self,
        instruction: SortInstruction,
        pace: &F,
    ) -> (outcome: Outcome)
        requires
            instruction.is_run() ==> old(self).data@.values.len() >= 1,
            instruction is ShellSort || instruction is CombSort ==> old(self).data@.values.len()
                <= MAX_ARRAY_LEN,
            instruction matches SortInstruction::RadixSort(base) ==> MIN_RADIX_BASE <= base
                <= MAX_RADIX_BASE,
            instruction.is_run() ==> accepts_len(
                pace,
                step_sleep(old(self).sleep_times, instruction, old(self).data@.values.len()),
                old(self).data@.values.len(),
            ),
        ensures
            final(self).sleep_times == old(self).sleep_times,
            final(self).data@.values.len() == old(self).data@.values.len(),
            final(self).data@.max_val == old(self).data@.max_val,
            instruction is Reset ==> final(self).data@ == old(self).data@.reset(),
            instruction is Reverse ==> final(self).data@ == old(self).data@.reversed(),
            instruction is Stop ==> final(self).data@ == (ArrayState {
                sorted: true,
                ..old(self).data@
            }),
            !instruction.is_run() ==> outcome == Outcome::Completed,
            instruction.is_run() ==> final(self).data@ == (ArrayState {
                values: final(self).data@.values,
                should_play_sound: final(self).data@.should_play_sound,
                ..old(self).data@.idle()
            }),
            instruction.is_run() && !(instruction is RadixSort && outcome == Outcome::Stopped)
                ==> rearranged(final(self).data@.values, old(self).data@.values),
            instruction matches SortInstruction::RadixSort(base) ==> outcome == Outcome::Stopped
                ==> stopped_in_pass(
                old(self).data@.values,
                final(self).data@.values,
                base as int,
            ),
            instruction.is_sort() && outcome == Outcome::Completed ==> ascending(
                final(self).data@.values,
            ),
            is_permutation(old(self).data@.values) && instruction.is_run() && !(instruction
                is RadixSort && outcome == Outcome::Stopped) ==> is_permutation(
                final(self).data@.values,
            ),
            is_permutation(old(self).data@.values) && instruction.is_sort() && outcome
                == Outcome::Completed ==> final(self).data@.values == identity(
                old(self).data@.values.len(),
            ),
            old(self).data@.wf() && !(instruction is RadixSort && outcome == Outcome::Stopped)
                ==> final(self).data@.wf(),
            instruction matches SortInstruction::Shuffle(passes) ==> passes == 0
                ==> final(self).data@.values == old(self).data@.values,
            outcome == Outcome::Stopped ==> may_stop_at(
                pace,
                step_sleep(old(self).sleep_times, instruction, old(self).data@.values.len()),
                final(self).data@.values,
            ),
    {
        Self::run(&mut self.data, &self.sleep_times, instruction, pace)
    }
}

} // verus!
