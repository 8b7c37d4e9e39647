use sorting_visualiser::config::SleepTimes;
use sorting_visualiser::sorting_array::array::{DataArrWrapper, Outcome, SortArray};
use sorting_visualiser::sorting_array::commands::{MergeSortType, QuickSortType, SortInstruction};
use std::cell::{Cell, RefCell};

fn times() -> SleepTimes {
    SleepTimes {
        bubble: 40_000,
        cocktail: 30_000,
        insertion: 20_000,
        selection: 10_000,
        shell: 5_000,
        comb: 4_000,
        quick: 3_000,
        merge: 2_000,
        radix: 1_000,
        shuffle: 500,
    }
}

fn never(_: &DataArrWrapper, _: u128) -> bool {
    false
}

fn scrambled_array(n: usize) -> SortArray {
    let mut array = SortArray::new(n, times());
    let mut seed: usize = 987;
    for i in (1..n).rev() {
        seed = seed.wrapping_mul(1103515245).wrapping_add(12345) % 2147483648;
        array.data.swap(i, seed % (i + 1));
    }
    array
}

fn identity(n: usize) -> Vec<usize> {
    (0..n).collect()
}

fn is_permutation(values: &[usize]) -> bool {
    let mut seen = vec![false; values.len()];
    for v in values {
        if *v >= values.len() || seen[*v] {
            return false;
        }
        seen[*v] = true;
    }
    true
}

fn every_sort() -> Vec<SortInstruction> {
    vec![
        SortInstruction::BubbleSort,
        SortInstruction::CocktailShakerSort,
        SortInstruction::InsertionSort,
        SortInstruction::SelectionSort,
        SortInstruction::ShellSort,
        SortInstruction::CombSort,
        SortInstruction::QuickSort(QuickSortType::Lomuto {
            multithreaded: false,
            insertion_hybrid: false,
        }),
        SortInstruction::QuickSort(QuickSortType::Lomuto {
            multithreaded: true,
            insertion_hybrid: false,
        }),
        SortInstruction::QuickSort(QuickSortType::Lomuto {
            multithreaded: false,
            insertion_hybrid: true,
        }),
        SortInstruction::QuickSort(QuickSortType::Lomuto {
            multithreaded: true,
            insertion_hybrid: true,
        }),
        SortInstruction::MergeSort(MergeSortType::InPlace { multithreaded: false }),
        SortInstruction::MergeSort(MergeSortType::InPlace { multithreaded: true }),
        SortInstruction::RadixSort(10),
        SortInstruction::RadixSort(2),
    ]
}

#[test]
fn every_sort_runs_to_the_identity() {
    for n in [2usize, 3, 17, 64] {
        for instruction in every_sort() {
            let mut array = scrambled_array(n);
            let outcome = array.instruction(instruction, &never);
            assert_eq!(outcome, Outcome::Completed);
            assert_eq!(array.data.arr, identity(n));
            assert!(!array.data.is_running());
            assert_eq!(array.data.active, None);
            assert_eq!(array.data.active_2, None);
            assert_eq!(array.data.pivot, None);
            assert_eq!(array.data.max_val, n);
        }
    }
}

#[test]
fn every_sort_of_one_value() {
    for instruction in every_sort() {
        let mut array = SortArray::new(1, times());
        assert_eq!(array.instruction(instruction, &never), Outcome::Completed);
        assert_eq!(array.data.arr, vec![0]);
    }
}

#[test]
fn every_sort_stopped_is_idle_afterwards() {
    for instruction in every_sort() {
        for stop_at in [1usize, 2, 5] {
            let mut array = scrambled_array(24);
            let calls = Cell::new(0usize);
            let outcome = array.instruction(instruction, &|_: &DataArrWrapper, _: u128| {
                calls.set(calls.get() + 1);
                calls.get() == stop_at
            });
            assert_eq!(outcome, Outcome::Stopped);
            assert_eq!(calls.get(), stop_at);
            assert!(!array.data.is_running());
            assert_eq!(array.data.active, None);
            assert_eq!(array.data.active_2, None);
            assert_eq!(array.data.pivot, None);
            assert_eq!(array.data.arr.len(), 24);
            if !matches!(instruction, SortInstruction::RadixSort(_)) {
                assert!(is_permutation(&array.data.arr));
            }
        }
    }
}

#[test]
fn stopping_bubble_sort_after_one_swap() {
    let mut array = SortArray::new(4, times());
    array.data.swap(0, 1);
    array.data.swap(2, 3);
    assert_eq!(array.data.arr, vec![1, 0, 3, 2]);
    let always = |_: &DataArrWrapper, _: u128| true;
    let outcome = array.instruction(SortInstruction::BubbleSort, &always);
    assert_eq!(outcome, Outcome::Stopped);
    assert_eq!(array.data.arr, vec![0, 1, 3, 2]);
    assert!(!array.data.is_running());
}

#[test]
fn the_hook_sees_a_running_array_and_the_step_time() {
    let seen = RefCell::new(Vec::new());
    let mut array = SortArray::new(10, times());
    array.data.reverse();
    let outcome = array.instruction(SortInstruction::BubbleSort, &|d: &DataArrWrapper, t: u128| {
        seen.borrow_mut().push((d.is_running(), t));
        false
    });
    assert_eq!(outcome, Outcome::Completed);
    assert_eq!(seen.borrow().len(), 45);
    assert!(seen.borrow().iter().all(|s| *s == (true, 400_000_000)));
}

#[test]
fn reset_is_done_at_once() {
    let mut array = scrambled_array(12);
    array.data.set_active(3);
    array.data.mark_running(true);
    let calls = Cell::new(0usize);
    let outcome = array.instruction(SortInstruction::Reset, &|_: &DataArrWrapper, _: u128| {
        calls.set(calls.get() + 1);
        true
    });
    assert_eq!(outcome, Outcome::Completed);
    assert_eq!(calls.get(), 0);
    assert_eq!(array.data.arr, identity(12));
    assert!(!array.data.is_running());
    assert_eq!(array.data.active, None);
    array.instruction(SortInstruction::Reset, &never);
    assert_eq!(array.data.arr, identity(12));
    assert!(!array.data.is_running());
}

#[test]
fn reverse_keeps_the_array_idle() {
    let mut array = SortArray::new(5, times());
    let outcome = array.instruction(SortInstruction::Reverse, &never);
    assert_eq!(outcome, Outcome::Completed);
    assert_eq!(array.data.arr, vec![4, 3, 2, 1, 0]);
    assert!(!array.data.is_running());
    array.instruction(SortInstruction::Reverse, &never);
    assert_eq!(array.data.arr, vec![0, 1, 2, 3, 4]);
}

#[test]
fn stop_marks_the_array_as_not_running() {
    let mut array = scrambled_array(6);
    let before = array.data.arr.clone();
    array.data.mark_running(true);
    array.data.set_pivot(2);
    let outcome = array.instruction(SortInstruction::Stop, &never);
    assert_eq!(outcome, Outcome::Completed);
    assert!(!array.data.is_running());
    assert_eq!(array.data.arr, before);
    assert_eq!(array.data.pivot, Some(2));
}

#[test]
fn shuffle_of_no_passes_is_no_change() {
    let mut array = scrambled_array(20);
    let before = array.data.arr.clone();
    let outcome = array.instruction(SortInstruction::Shuffle(0), &never);
    assert_eq!(outcome, Outcome::Completed);
    assert_eq!(array.data.arr, before);
    assert!(!array.data.is_running());
}

#[test]
fn shuffle_keeps_the_permutation() {
    for passes in [1u16, 2, 5] {
        let mut array = SortArray::new(40, times());
        let steps = Cell::new(0usize);
        let count = |d: &DataArrWrapper, t: u128| {
            assert_eq!(t, 500 * 1_000_000 / 1600);
            assert!(is_permutation(&d.arr));
            steps.set(steps.get() + 1);
            false
        };
        let outcome = array.instruction(SortInstruction::Shuffle(passes), &count);
        assert_eq!(outcome, Outcome::Completed);
        assert_eq!(steps.get(), passes as usize * 40);
        assert!(is_permutation(&array.data.arr));
        assert!(!array.data.is_running());
        assert_eq!(array.data.active, None);
    }
}

#[test]
fn run_works_on_a_bare_wrapper() {
    let mut data = DataArrWrapper::new(vec![2, 0, 3, 1], 4);
    let outcome = SortArray::run(&mut data, &times(), SortInstruction::SelectionSort, &never);
    assert_eq!(outcome, Outcome::Completed);
    assert_eq!(data.arr, vec![0, 1, 2, 3]);
    assert!(!data.is_running());
}

#[test]
fn a_stopped_run_leaves_what_the_hook_saw_last() {
    for instruction in every_sort() {
        for stop_at in [1usize, 3, 6] {
            let mut array = scrambled_array(24);
            let calls = Cell::new(0usize);
            let last = RefCell::new(Vec::new());
            let outcome = array.instruction(instruction, &|d: &DataArrWrapper, _: u128| {
                calls.set(calls.get() + 1);
                *last.borrow_mut() = d.arr.clone();
                calls.get() == stop_at
            });
            assert_eq!(outcome, Outcome::Stopped);
            assert_eq!(array.data.arr, *last.borrow());
        }
    }
}

#[test]
fn a_stopped_shuffle_leaves_what_the_hook_saw_last() {
    let mut array = SortArray::new(30, times());
    let calls = Cell::new(0usize);
    let last = RefCell::new(Vec::new());
    let outcome = array.instruction(SortInstruction::Shuffle(2), &|d: &DataArrWrapper, _: u128| {
        calls.set(calls.get() + 1);
        *last.borrow_mut() = d.arr.clone();
        calls.get() == 17
    });
    assert_eq!(outcome, Outcome::Stopped);
    assert_eq!(array.data.arr, *last.borrow());
    assert!(is_permutation(&array.data.arr));
}
