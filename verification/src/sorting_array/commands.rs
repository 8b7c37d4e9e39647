use crate::config::ConfigError;
use vstd::prelude::*;

verus! {

/// What an array can be told to do.
#[derive(Clone, Copy, Debug)]
pub enum SortInstruction {
    Shuffle(u16),
    Reset,
    Reverse,
    Stop,
    BubbleSort,
    CocktailShakerSort,
    InsertionSort,
    SelectionSort,
    ShellSort,
    CombSort,
    QuickSort(QuickSortType),
    MergeSort(MergeSortType),
    RadixSort(usize),
}

impl SortInstruction {
    /// The instruction starts work that goes on step by step and can be stopped; the others
    /// are done at once.
    pub open spec fn is_run(self) -> bool {
        !(self is Reset || self is Reverse || self is Stop)
    }

    /// The instruction asks for the values in ascending order.
    pub open spec fn is_sort(self) -> bool {
        self.is_run() && !(self is Shuffle)
    }
}

/// The kinds of quicksort.
#[derive(Clone, Copy, Debug, PartialEq, Eq, Structural)]
pub enum QuickSortType {
    Lomuto { multithreaded: bool, insertion_hybrid: bool },
}

/// The kinds of merge sort.
#[derive(Clone, Copy, Debug, PartialEq, Eq, Structural)]
pub enum MergeSortType {
    InPlace { multithreaded: bool },
}

/// How the array is drawn.
#[derive(Clone, Copy, Debug, PartialEq, Eq, Structural)]
pub enum DisplayMode {
    Bars,
    Pyramid,
    Circle,
    Doughnut,
    Dots,
    DisparityLine,
    DisparityLoop,
    Pixels,
}

impl Default for DisplayMode {
    fn default() -> (mode: DisplayMode)
        ensures
            mode == DisplayMode::Circle,
    {
        DisplayMode::Circle
    }
}

/// `s` with its upper-case letters turned to lower case, as `str::to_lowercase` does it.
pub uninterp spec fn lowercase(s: Seq<char>) -> Seq<char>;

/// `s` in lower case: what `str::to_lowercase` gives, which goes by Unicode's rules for each
/// character and by nothing else.
#[verifier::external_body]
pub(crate) fn to_lowercase(s: &str) -> (lower: String)
    ensures
        lower@ == lowercase(s@),
{
    s.to_lowercase()
}

/// Whether two strings hold the same characters.
pub(crate) fn same_text(a: &str, b: &str) -> (same: bool)
    ensures
        same == (a@ == b@),
{
    a.to_owned() == b.to_owned()
}

impl QuickSortType {
    /// The kind of quicksort that a name in lower case stands for.
    pub open spec fn named_lower(name: Seq<char>) -> Result<QuickSortType, ConfigError> {
        if name == "lomuto"@ {
            Ok(QuickSortType::Lomuto { multithreaded: false, insertion_hybrid: false })
        } else if name == "lomuto_multi"@ {
            Ok(QuickSortType::Lomuto { multithreaded: true, insertion_hybrid: false })
        } else if name == "lomuto_insertion_hybrid"@ {
            Ok(QuickSortType::Lomuto { multithreaded: false, insertion_hybrid: true })
        } else if name == "lomuto_insertion_hybrid_multi"@ {
            Ok(QuickSortType::Lomuto { multithreaded: true, insertion_hybrid: true })
        } else {
            Err(ConfigError::QuicksortPartitioning)
        }
    }

    /// The kind of quicksort that a name stands for, in whatever case it is written.
    pub open spec fn named(name: Seq<char>) -> Result<QuickSortType, ConfigError> {
        Self::named_lower(lowercase(name))
    }

    /// The kind of quicksort that `name` stands for as it is written: one of `lomuto`,
    /// `lomuto_multi`, `lomuto_insertion_hybrid` and `lomuto_insertion_hybrid_multi`.
    pub fn from_lowercase(name: &str) -> (r: Result<QuickSortType, ConfigError>)
        ensures
            r == Self::named_lower(name@),
    {
        if same_text(name, "lomuto") {
            Ok(QuickSortType::Lomuto { multithreaded: false, insertion_hybrid: false })
        } else if same_text(name, "lomuto_multi") {
            Ok(QuickSortType::Lomuto { multithreaded: true, insertion_hybrid: false })
        } else if same_text(name, "lomuto_insertion_hybrid") {
            Ok(QuickSortType::Lomuto { multithreaded: false, insertion_hybrid: true })
        } else if same_text(name, "lomuto_insertion_hybrid_multi") {
            Ok(QuickSortType::Lomuto { multithreaded: true, insertion_hybrid: true })
        } else {
            Err(ConfigError::QuicksortPartitioning)
        }
    }

    /// The kind of quicksort that `s` stands for once it is put in lower case.
    pub fn from_str(s: &str) -> (r: Result<QuickSortType, ConfigError>)
        ensures
            r == Self::named(s@),
    {
        let lower: String = to_lowercase(s);
        Self::from_lowercase(lower.as_str())
    }
}

impl MergeSortType {
    /// The kind of merge sort that a name in lower case stands for.
    pub open spec fn named_lower(name: Seq<char>) -> Result<MergeSortType, ConfigError> {
        if name == "in_place"@ {
            Ok(MergeSortType::InPlace { multithreaded: false })
        } else if name == "in_place_multi"@ {
            Ok(MergeSortType::InPlace { multithreaded: true })
        } else {
            Err(ConfigError::MergeSortType)
        }
    }

    /// The kind of merge sort that a name stands for, in whatever case it is written.
    pub open spec fn named(name: Seq<char>) -> Result<MergeSortType, ConfigError> {
        Self::named_lower(lowercase(name))
    }

    /// The kind of merge sort that `name` stands for as it is written: `in_place` or
    /// `in_place_multi`.
    pub fn from_lowercase(name: &str) -> (r: Result<MergeSortType, ConfigError>)
        ensures
            r == Self::named_lower(name@),
    {
        if same_text(name, "in_place") {
            Ok(MergeSortType::InPlace { multithreaded: false })
        } else if same_text(name, "in_place_multi") {
            Ok(MergeSortType::InPlace { multithreaded: true })
        } else {
            Err(ConfigError::MergeSortType)
        }
    }

    /// The kind of merge sort that `s` stands for once it is put in lower case.
    pub fn from_str(s: &str) -> (r: Result<MergeSortType, ConfigError>)
        ensures
            r == Self::named(s@),
    {
        let lower: String = to_lowercase(s);
        Self::from_lowercase(lower.as_str())
    }
}

} // verus!
