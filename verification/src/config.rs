use crate::sorting_array::commands::{MergeSortType, QuickSortType};
use vstd::prelude::*;

verus! {

/// The longest array the engine is asked to animate.
pub const MAX_ARRAY_LEN: usize = 4_294_967_295;

/// The shortest array that there is anything to sort in.
pub const MIN_ARRAY_LEN: usize = 2;

/// The least base that radix sort splits values into digits by.
pub const MIN_RADIX_BASE: usize = 2;

/// The greatest base that radix sort splits values into digits by.
pub const MAX_RADIX_BASE: usize = 36;

/// What a configuration was turned down for.
#[derive(Clone, Copy, Debug, PartialEq, Eq, Structural)]
pub enum ConfigError {
    /// The array length is less than two or more than `MAX_ARRAY_LEN`.
    ArrayLength,
    /// The length of the arrays shown side by side is less than two or more than
    /// `MAX_ARRAY_LEN`.
    MultiArrayLength,
    /// A time is zero or negative.
    SleepTime,
    /// The radix base is less than 2 or more than 36.
    RadixBase,
    /// The name is that of no kind of quicksort.
    QuicksortPartitioning,
    /// The name is that of no kind of merge sort.
    MergeSortType,
    /// The number of shuffle passes is negative or more than 65535.
    ShufflePasses,
    /// The name is that of no waveform.
    Waveform,
}

/// For each algorithm, the time in milliseconds that its animation is spread over, whatever
/// the number of values.
#[derive(Clone, Copy, Debug)]
pub struct SleepTimes {
    pub bubble: u64,
    pub cocktail: u64,
    pub insertion: u64,
    pub selection: u64,
    pub shell: u64,
    pub comb: u64,
    pub quick: u64,
    pub merge: u64,
    pub radix: u64,
    pub shuffle: u64,
}

impl SleepTimes {
    /// Every time is more than nothing.
    pub open spec fn wf(self) -> bool {
        &&& self.bubble > 0
        &&& self.cocktail > 0
        &&& self.insertion > 0
        &&& self.selection > 0
        &&& self.shell > 0
        &&& self.comb > 0
        &&& self.quick > 0
        &&& self.merge > 0
        &&& self.radix > 0
        &&& self.shuffle > 0
    }

    /// The times as a configuration gives them, in milliseconds: accepted where each is
    /// more than nothing.
    pub fn new(
        bubble_sleep: i64,
        cocktail_shaker_sleep: i64,
        insertion_sleep: i64,
        selection_sleep: i64,
        shell_sleep: i64,
        comb_sleep: i64,
        quick_sleep: i64,
        merge_sleep: i64,
        radix_sleep: i64,
        shuffle_sleep: i64,
    ) -> (r: Result<SleepTimes, ConfigError>)
        ensures
            r == (if bubble_sleep > 0 && cocktail_shaker_sleep > 0 && insertion_sleep > 0
                && selection_sleep > 0 && shell_sleep > 0 && comb_sleep > 0 && quick_sleep > 0
                && merge_sleep > 0 && radix_sleep > 0 && shuffle_sleep > 0 {
                Ok(
                    SleepTimes {
                        bubble: bubble_sleep as u64,
                        cocktail: cocktail_shaker_sleep as u64,
                        insertion: insertion_sleep as u64,
                        selection: selection_sleep as u64,
                        shell: shell_sleep as u64,
                        comb: comb_sleep as u64,
                        quick: quick_sleep as u64,
                        merge: merge_sleep as u64,
                        radix: radix_sleep as u64,
                        shuffle: shuffle_sleep as u64,
                    },
                )
            } else {
                Err(ConfigError::SleepTime)
            }),
            r matches Ok(times) ==> times.wf(),
    {
        if bubble_sleep > 0 && cocktail_shaker_sleep > 0 && insertion_sleep > 0
            && selection_sleep > 0 && shell_sleep > 0 && comb_sleep > 0 && quick_sleep > 0
            && merge_sleep > 0 && radix_sleep > 0 && shuffle_sleep > 0 {
            Ok(
                SleepTimes {
                    bubble: bubble_sleep as u64,
                    cocktail: cocktail_shaker_sleep as u64,
                    insertion: insertion_sleep as u64,
                    selection: selection_sleep as u64,
                    shell: shell_sleep as u64,
                    comb: comb_sleep as u64,
                    quick: quick_sleep as u64,
                    merge: merge_sleep as u64,
                    radix: radix_sleep as u64,
                    shuffle: shuffle_sleep as u64,
                },
            )
        } else {
            Err(ConfigError::SleepTime)
        }
    }
}

/// What the engine is set up with.
#[derive(Clone, Copy, Debug)]
pub struct Config {
    pub array_len: usize,
    pub multi_array_len: usize,
    pub sleep_times: SleepTimes,
    pub radix_base: usize,
    pub quicksort_partition_type: QuickSortType,
    pub merge_sort_type: MergeSortType,
    pub shuffle_passes: u16,
}

impl Config {
    /// The lengths and the radix base are within their limits, and every time is more than
    /// nothing.
    pub open spec fn wf(self) -> bool {
        &&& MIN_ARRAY_LEN <= self.array_len <= MAX_ARRAY_LEN
        &&& MIN_ARRAY_LEN <= self.multi_array_len <= MAX_ARRAY_LEN
        &&& MIN_RADIX_BASE <= self.radix_base <= MAX_RADIX_BASE
        &&& self.sleep_times.wf()
    }

    /// What `new` answers once the two names are known for what they name.
    pub open spec fn checked(
        array_length: i64,
        multi_array_length: i64,
        sleep_times: SleepTimes,
        radix_lsd_base: i64,
        quicksort_partitioning: Result<QuickSortType, ConfigError>,
        merge_sort_type: Result<MergeSortType, ConfigError>,
        shuffle_passes: i64,
    ) -> Result<Config, ConfigError> {
        if !(MIN_ARRAY_LEN <= array_length <= MAX_ARRAY_LEN) {
            Err(ConfigError::ArrayLength)
        } else if !(MIN_ARRAY_LEN <= multi_array_length <= MAX_ARRAY_LEN) {
            Err(ConfigError::MultiArrayLength)
        } else if !sleep_times.wf() {
            Err(ConfigError::SleepTime)
        } else if !(MIN_RADIX_BASE <= radix_lsd_base <= MAX_RADIX_BASE) {
            Err(ConfigError::RadixBase)
        } else if quicksort_partitioning is Err {
            Err(ConfigError::QuicksortPartitioning)
        } else if merge_sort_type is Err {
            Err(ConfigError::MergeSortType)
        } else if !(0 <= shuffle_passes <= u16::MAX) {
            Err(ConfigError::ShufflePasses)
        } else {
            Ok(
                Config {
                    array_len: array_length as usize,
                    multi_array_len: multi_array_length as usize,
                    sleep_times,
                    radix_base: radix_lsd_base as usize,
                    quicksort_partition_type: quicksort_partitioning->Ok_0,
                    merge_sort_type: merge_sort_type->Ok_0,
                    shuffle_passes: shuffle_passes as u16,
                },
            )
        }
    }

    /// The configuration made of the values as a configuration file gives them: numbers as
    /// they stand there, the kinds of quicksort and merge sort by their names. The first
    /// value found out of its limits, in the order of `checked`, is what it is turned down
    /// for.
    pub fn new(
        array_length: i64,
        multi_array_length: i64,
        sleep_times: SleepTimes,
        radix_lsd_base: i64,
        quicksort_partitioning: &str,
        merge_sort_type: &str,
        shuffle_passes: i64,
    ) -> (r: Result<Config, ConfigError>)
        ensures
            r == Config::checked(
                array_length,
                multi_array_length,
                sleep_times,
                radix_lsd_base,
                QuickSortType::named(quicksort_partitioning@),
                MergeSortType::named(merge_sort_type@),
                shuffle_passes,
            ),
            r matches Ok(config) ==> config.wf(),
    {
        if array_length < 2 || array_length > 4_294_967_295 {
            return Err(ConfigError::ArrayLength);
        }
        if multi_array_length < 2 || multi_array_length > 4_294_967_295 {
            return Err(ConfigError::MultiArrayLength);
        }
        if !(sleep_times.bubble > 0 && sleep_times.cocktail > 0 && sleep_times.insertion > 0
            && sleep_times.selection > 0 && sleep_times.shell > 0 && sleep_times.comb > 0
            && sleep_times.quick > 0 && sleep_times.merge > 0 && sleep_times.radix > 0
            && sleep_times.shuffle > 0) {
            return Err(ConfigError::SleepTime);
        }
        if radix_lsd_base < 2 || radix_lsd_base > 36 {
            return Err(ConfigError::RadixBase);
        }
        let quicksort_partition_type: QuickSortType = match QuickSortType::from_str(
            quicksort_partitioning,
        ) {
            Ok(kind) => kind,
            Err(_) => {
                return Err(ConfigError::QuicksortPartitioning);
            },
        };
        let merge_sort_type: MergeSortType = match MergeSortType::from_str(merge_sort_type) {
            Ok(kind) => kind,
            Err(_) => {
                return Err(ConfigError::MergeSortType);
            },
        };
        if shuffle_passes < 0 || shuffle_passes > 65_535 {
            return Err(ConfigError::ShufflePasses);
        }
        Ok(
            Config {
                array_len: array_length as usize,
                multi_array_len: multi_array_length as usize,
                sleep_times,
                radix_base: radix_lsd_base as usize,
                quicksort_partition_type,
                merge_sort_type,
                shuffle_passes: shuffle_passes as u16,
            },
        )
    }
}

} // verus!
