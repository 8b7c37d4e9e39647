use sorting_visualiser::sorting_array::array::{DataArrWrapper, SortArray};
use sorting_visualiser::sorting_array::sorts::merge_sorting::{
    merge_in_place, merge_sort_halves, merge_sort_in_place,
};
use sorting_visualiser::sorting_array::sorts::quick_sorting::{
    lomuto_partitioning, quick_sort_lomuto, quick_sort_sides, quicktimsort, MAX_RUN_SIZE,
};
use sorting_visualiser::sorting_array::sorts::radix::radix_lsd;
use sorting_visualiser::sorting_array::sorts::shell::{
    comb_sort, gapped_pass, shell_gaps, shell_sort, ShellSortGapsIter,
};
use sorting_visualiser::sorting_array::sorts::{
    bubble, bubble_sort, cocktail_shaker_sort, insertion_sort, pause, selection_sort,
};
use std::cell::{Cell, RefCell};

fn running(values: Vec<usize>) -> DataArrWrapper {
    let max_val = values.len();
    let mut data = DataArrWrapper::new(values, max_val);
    data.mark_running(true);
    data
}

fn never(_: &DataArrWrapper, _: u128) -> bool {
    false
}

fn scrambled(n: usize) -> Vec<usize> {
    let mut values: Vec<usize> = (0..n).collect();
    let mut seed: usize = 12345;
    for i in (1..n).rev() {
        seed = seed.wrapping_mul(1103515245).wrapping_add(12345) % 2147483648;
        values.swap(i, seed % (i + 1));
    }
    values
}

fn identity(n: usize) -> Vec<usize> {
    (0..n).collect()
}

fn is_permutation(values: &[usize]) -> bool {
    let mut seen = vec![false; values.len()];
    for v in values {
        if *v >= values.len() || seen[*v] {
            return false;
        }
        seen[*v] = true;
    }
    true
}

#[test]
fn pause_marks_stopped_when_told() {
    let mut data = running(vec![1, 0]);
    pause(&mut data, 7, &|_: &DataArrWrapper, t: u128| t == 7);
    assert!(!data.is_running());
    assert_eq!(data.arr, vec![1, 0]);
}

#[test]
fn pause_leaves_running_when_not_told() {
    let mut data = running(vec![1, 0]);
    pause(&mut data, 7, &never);
    assert!(data.is_running());
}

#[test]
fn pause_hands_over_array_and_time() {
    let seen = RefCell::new(Vec::new());
    let mut data = running(vec![1, 0, 2]);
    pause(&mut data, 42, &|d: &DataArrWrapper, t: u128| {
        seen.borrow_mut().push((d.arr.clone(), t));
        false
    });
    assert_eq!(*seen.borrow(), vec![(vec![1, 0, 2], 42)]);
}

#[test]
fn bubble_sorts() {
    let mut data = running(vec![3, 1, 4, 0, 2]);
    bubble_sort(&mut data, 0, &never);
    assert_eq!(data.arr, vec![0, 1, 2, 3, 4]);
    assert!(data.is_running());
    assert_eq!(data.max_val, 5);
}

#[test]
fn bubble_sorts_thirty_scrambled() {
    let mut data = running(scrambled(30));
    bubble_sort(&mut data, 0, &never);
    assert_eq!(data.arr, identity(30));
}

#[test]
fn bubble_on_idle_array_does_nothing() {
    let mut data = DataArrWrapper::new(vec![2, 1, 0], 3);
    bubble_sort(&mut data, 0, &never);
    assert_eq!(data.arr, vec![2, 1, 0]);
    assert_eq!(data.active, None);
}

#[test]
fn bubble_of_short_arrays() {
    let mut none = running(vec![]);
    bubble_sort(&mut none, 0, &never);
    assert_eq!(none.arr, Vec::<usize>::new());
    let mut one = running(vec![0]);
    bubble_sort(&mut one, 0, &never);
    assert_eq!(one.arr, vec![0]);
    let mut two = running(vec![1, 0]);
    bubble_sort(&mut two, 0, &never);
    assert_eq!(two.arr, vec![0, 1]);
}

#[test]
fn bubble_stopped_after_one_swap() {
    let mut data = running(vec![1, 0, 3, 2]);
    let calls = Cell::new(0usize);
    bubble_sort(&mut data, 0, &|_: &DataArrWrapper, _: u128| {
        calls.set(calls.get() + 1);
        true
    });
    assert_eq!(calls.get(), 1);
    assert_eq!(data.arr, vec![0, 1, 3, 2]);
    assert!(!data.is_running());
}

#[test]
fn bubble_pauses_once_for_each_swap() {
    let mut data = running(vec![2, 1, 0]);
    let calls = Cell::new(0usize);
    bubble_sort(&mut data, 9, &|_: &DataArrWrapper, t: u128| {
        assert_eq!(t, 9);
        calls.set(calls.get() + 1);
        false
    });
    assert_eq!(data.arr, vec![0, 1, 2]);
    assert_eq!(calls.get(), 3);
}

#[test]
fn bubble_shows_only_permutations() {
    let mut data = running(scrambled(12));
    bubble_sort(&mut data, 0, &|d: &DataArrWrapper, _: u128| {
        assert!(is_permutation(&d.arr));
        false
    });
    assert_eq!(data.arr, identity(12));
}

#[test]
fn cocktail_sorts() {
    let mut data = running(vec![3, 1, 4, 0, 2]);
    cocktail_shaker_sort(&mut data, 0, &never);
    assert_eq!(data.arr, vec![0, 1, 2, 3, 4]);
    assert!(data.is_running());
}

#[test]
fn cocktail_sorts_when_only_the_first_pair_is_left() {
    let mut data = running(vec![2, 3, 1]);
    cocktail_shaker_sort(&mut data, 0, &never);
    assert_eq!(data.arr, vec![1, 2, 3]);
}

#[test]
fn cocktail_sorts_thirty_scrambled() {
    let mut data = running(scrambled(30));
    cocktail_shaker_sort(&mut data, 0, &never);
    assert_eq!(data.arr, identity(30));
}

#[test]
fn cocktail_stopped_keeps_a_permutation() {
    let mut data = running(scrambled(20));
    let calls = Cell::new(0usize);
    cocktail_shaker_sort(&mut data, 0, &|_: &DataArrWrapper, _: u128| {
        calls.set(calls.get() + 1);
        calls.get() == 7
    });
    assert_eq!(calls.get(), 7);
    assert!(is_permutation(&data.arr));
    assert!(!data.is_running());
}

#[test]
fn insertion_sorts_whole_array() {
    let mut data = running(vec![3, 1, 4, 0, 2]);
    insertion_sort(&mut data, 0, 0, 4, &never);
    assert_eq!(data.arr, vec![0, 1, 2, 3, 4]);
    assert!(data.is_running());
}

#[test]
fn insertion_sorts_only_its_range() {
    let mut data = running(vec![5, 4, 3, 2, 1, 0]);
    insertion_sort(&mut data, 0, 1, 4, &never);
    assert_eq!(data.arr, vec![5, 1, 2, 3, 4, 0]);
}

#[test]
fn insertion_with_empty_range_does_nothing() {
    let mut data = running(vec![2, 1, 0]);
    insertion_sort(&mut data, 0, 2, 1, &never);
    assert_eq!(data.arr, vec![2, 1, 0]);
    assert_eq!(data.pivot, None);
}

#[test]
fn insertion_stopped_keeps_a_permutation() {
    let mut data = running(scrambled(20));
    let calls = Cell::new(0usize);
    insertion_sort(&mut data, 0, 0, 19, &|_: &DataArrWrapper, _: u128| {
        calls.set(calls.get() + 1);
        calls.get() == 5
    });
    assert_eq!(calls.get(), 5);
    assert!(is_permutation(&data.arr));
    assert!(!data.is_running());
}

#[test]
fn selection_sorts() {
    let mut data = running(vec![3, 1, 4, 0, 2]);
    selection_sort(&mut data, 0, &never);
    assert_eq!(data.arr, vec![0, 1, 2, 3, 4]);
    assert!(data.is_running());
}

#[test]
fn selection_pauses_at_each_comparison() {
    let mut data = running(vec![3, 1, 0, 2]);
    let calls = Cell::new(0usize);
    selection_sort(&mut data, 0, &|_: &DataArrWrapper, _: u128| {
        calls.set(calls.get() + 1);
        false
    });
    assert_eq!(data.arr, vec![0, 1, 2, 3]);
    assert_eq!(calls.get(), 3 + 2 + 1);
}

#[test]
fn selection_stopped_in_a_scan_leaves_the_array() {
    let mut data = running(vec![3, 1, 0, 2]);
    selection_sort(&mut data, 0, &|_: &DataArrWrapper, _: u128| true);
    assert_eq!(data.arr, vec![3, 1, 0, 2]);
    assert!(!data.is_running());
}

#[test]
fn shell_gaps_for_ten_values() {
    assert_eq!(shell_gaps(10), vec![7, 3, 1]);
}

#[test]
fn shell_gaps_at_the_edges() {
    assert_eq!(shell_gaps(0), Vec::<usize>::new());
    assert_eq!(shell_gaps(1), Vec::<usize>::new());
    assert_eq!(shell_gaps(2), vec![1]);
    assert_eq!(shell_gaps(3), vec![1]);
    assert_eq!(shell_gaps(4), vec![3, 1]);
    assert_eq!(shell_gaps(7), vec![3, 1]);
    assert_eq!(shell_gaps(8), vec![7, 3, 1]);
    assert_eq!(shell_gaps(usize::MAX).len(), usize::BITS as usize - 1);
}

#[test]
fn shell_gaps_iter_counts_up_and_ends() {
    let mut iter = ShellSortGapsIter::default();
    assert_eq!(iter.next(), Some(1));
    assert_eq!(iter.next(), Some(3));
    assert_eq!(iter.next(), Some(7));
    assert_eq!(iter.next(), Some(15));
    let mut given = 4usize;
    let mut last = 15usize;
    while let Some(gap) = iter.next() {
        assert_eq!(gap, 2 * last + 1);
        last = gap;
        given += 1;
    }
    assert_eq!(given, usize::BITS as usize - 1);
    assert_eq!(last, usize::MAX / 2);
    assert_eq!(iter.next(), None);
}

#[test]
fn gapped_pass_orders_values_a_gap_apart() {
    let mut data = running(vec![5, 4, 3, 2, 1, 0]);
    gapped_pass(&mut data, 0, 3, &never);
    assert_eq!(data.arr, vec![2, 1, 0, 5, 4, 3]);
}

#[test]
fn gapped_pass_with_gap_one_sorts() {
    let mut data = running(vec![2, 0, 3, 1]);
    gapped_pass(&mut data, 0, 1, &never);
    assert_eq!(data.arr, vec![0, 1, 2, 3]);
}

#[test]
fn gapped_pass_with_wide_gap_does_nothing() {
    let mut data = running(vec![2, 0, 3, 1]);
    gapped_pass(&mut data, 0, 4, &never);
    assert_eq!(data.arr, vec![2, 0, 3, 1]);
}

#[test]
fn shell_sorts() {
    let mut data = running(scrambled(40));
    shell_sort(&mut data, 0, &never);
    assert_eq!(data.arr, identity(40));
    assert!(data.is_running());
}

#[test]
fn shell_stopped_keeps_a_permutation() {
    let mut data = running(scrambled(25));
    let calls = Cell::new(0usize);
    shell_sort(&mut data, 0, &|_: &DataArrWrapper, _: u128| {
        calls.set(calls.get() + 1);
        calls.get() == 3
    });
    assert_eq!(calls.get(), 3);
    assert!(is_permutation(&data.arr));
    assert!(!data.is_running());
}

#[test]
fn shell_shows_only_permutations() {
    let mut data = running(scrambled(25));
    shell_sort(&mut data, 0, &|d: &DataArrWrapper, _: u128| {
        assert!(is_permutation(&d.arr));
        false
    });
    assert_eq!(data.arr, identity(25));
}

#[test]
fn selection_stopped_at_the_last_comparison_skips_the_exchange() {
    let mut data = running(vec![2, 1, 0]);
    let calls = Cell::new(0usize);
    selection_sort(&mut data, 0, &|_: &DataArrWrapper, _: u128| {
        calls.set(calls.get() + 1);
        calls.get() == 2
    });
    assert_eq!(data.arr, vec![2, 1, 0]);
    assert!(!data.is_running());
}

#[test]
fn lomuto_partition_stopped_at_the_last_step_leaves_the_pivot() {
    let mut data = running(vec![1, 0, 3, 2]);
    let calls = Cell::new(0usize);
    let place = lomuto_partitioning(&mut data, 0, 0, 3, &|_: &DataArrWrapper, _: u128| {
        calls.set(calls.get() + 1);
        calls.get() == 2
    });
    assert_eq!(place, None);
    assert_eq!(data.arr, vec![1, 0, 3, 2]);
    assert!(!data.is_running());
}

#[test]
fn comb_sorts() {
    let mut data = running(scrambled(40));
    comb_sort(&mut data, 0, &never);
    assert_eq!(data.arr, identity(40));
    assert!(data.is_running());
}

#[test]
fn comb_sorts_short_arrays() {
    let mut one = running(vec![0]);
    comb_sort(&mut one, 0, &never);
    assert_eq!(one.arr, vec![0]);
    let mut two = running(vec![1, 0]);
    comb_sort(&mut two, 0, &never);
    assert_eq!(two.arr, vec![0, 1]);
    let mut three = running(vec![2, 1, 0]);
    comb_sort(&mut three, 0, &never);
    assert_eq!(three.arr, vec![0, 1, 2]);
}

#[test]
fn lomuto_partition_splits_round_the_last_value() {
    let mut data = running(vec![5, 3, 8, 1, 9, 2]);
    let place = lomuto_partitioning(&mut data, 0, 0, 5, &never);
    assert_eq!(place, Some(1));
    assert_eq!(data.arr, vec![1, 2, 8, 5, 9, 3]);
    assert_eq!(data.pivot, Some(5));
}

#[test]
fn lomuto_partition_stopped_answers_nothing() {
    let mut data = running(vec![1, 0, 3, 2]);
    let place = lomuto_partitioning(&mut data, 0, 0, 3, &|_: &DataArrWrapper, _: u128| true);
    assert_eq!(place, None);
    assert!(is_permutation(&data.arr));
    assert!(!data.is_running());
}

#[test]
fn quick_sort_sides_lie_apart() {
    assert_eq!(quick_sort_sides(0, 5, 1), (Some((0, 0)), Some((2, 5))));
    assert_eq!(quick_sort_sides(0, 5, 0), (None, Some((1, 5))));
    assert_eq!(quick_sort_sides(0, 5, 5), (Some((0, 4)), None));
    assert_eq!(quick_sort_sides(3, 3, 3), (None, None));
}

#[test]
fn lomuto_quicksort_of_six_values() {
    let mut data = running(vec![5, 3, 8, 1, 9, 2]);
    quick_sort_lomuto(&mut data, 0, 0, 5, &never);
    assert_eq!(data.arr, vec![1, 2, 3, 5, 8, 9]);
    assert!(data.is_running());
}

#[test]
fn lomuto_quicksort_pivots_are_the_last_of_each_range() {
    let mut data = running(vec![5, 3, 8, 1, 9, 2]);
    let mut pivots: Vec<usize> = Vec::new();
    let mut places: Vec<usize> = Vec::new();
    let mut ranges: Vec<(usize, usize)> = vec![(0, 5)];
    while let Some((l, r)) = ranges.pop() {
        if l < r {
            pivots.push(data.arr[r]);
            let p = lomuto_partitioning(&mut data, 0, l, r, &never).unwrap();
            assert_eq!(data.pivot, Some(r));
            places.push(p);
            let (left, right) = quick_sort_sides(l, r, p);
            if let Some(side) = right {
                ranges.push(side);
            }
            if let Some(side) = left {
                ranges.push(side);
            }
        }
    }
    assert_eq!(pivots, vec![2, 3, 8]);
    assert_eq!(places, vec![1, 2, 4]);
    assert_eq!(data.arr, vec![1, 2, 3, 5, 8, 9]);
}

#[test]
fn lomuto_quicksort_shows_its_pivot_at_each_step() {
    let seen = RefCell::new(Vec::new());
    let mut data = running(vec![5, 3, 8, 1, 9, 2]);
    quick_sort_lomuto(&mut data, 0, 0, 5, &|d: &DataArrWrapper, _: u128| {
        seen.borrow_mut().push(d.arr[d.pivot.unwrap()]);
        false
    });
    assert_eq!(*seen.borrow(), vec![2, 8]);
}

#[test]
fn quicksort_sorts_only_its_range() {
    let mut data = running(vec![5, 4, 3, 2, 1, 0]);
    quick_sort_lomuto(&mut data, 0, 2, 5, &never);
    assert_eq!(data.arr, vec![5, 4, 0, 1, 2, 3]);
}

#[test]
fn quicksort_sorts_sixty_scrambled() {
    let mut data = running(scrambled(60));
    quick_sort_lomuto(&mut data, 0, 0, 59, &never);
    assert_eq!(data.arr, identity(60));
}

#[test]
fn quicksort_stopped_keeps_a_permutation() {
    let mut data = running(scrambled(30));
    let calls = Cell::new(0usize);
    quick_sort_lomuto(&mut data, 0, 0, 29, &|_: &DataArrWrapper, _: u128| {
        calls.set(calls.get() + 1);
        calls.get() == 10
    });
    assert_eq!(calls.get(), 10);
    assert!(is_permutation(&data.arr));
    assert!(!data.is_running());
}

#[test]
fn sides_sorted_in_either_order_agree_with_one_thread() {
    let input = scrambled(40);
    let mut one_thread = running(input.clone());
    quick_sort_lomuto(&mut one_thread, 0, 0, 39, &never);

    let mut forked = running(input);
    let p = lomuto_partitioning(&mut forked, 0, 0, 39, &never).unwrap();
    let (left, right) = quick_sort_sides(0, 39, p);
    if let Some((l, r)) = right {
        quick_sort_lomuto(&mut forked, 0, l, r, &never);
    }
    if let Some((l, r)) = left {
        quick_sort_lomuto(&mut forked, 0, l, r, &never);
    }
    assert_eq!(forked.arr, one_thread.arr);
    assert_eq!(forked.arr, identity(40));
}

#[test]
fn halves_sorted_in_either_order_agree_with_one_thread() {
    let input = scrambled(33);
    let mut one_thread = running(input.clone());
    merge_sort_in_place(&mut one_thread, 0, 0, 32, &never);

    let mut forked = running(input);
    let ((l1, r1), (l2, r2)) = merge_sort_halves(0, 32);
    merge_sort_in_place(&mut forked, 0, l2, r2, &never);
    merge_sort_in_place(&mut forked, 0, l1, r1, &never);
    merge_in_place(&mut forked, 0, l1, r1, r2, &never);
    assert_eq!(forked.arr, one_thread.arr);
    assert_eq!(forked.arr, identity(33));
}

#[test]
fn quicktimsort_sorts_short_and_long() {
    let mut short = running(scrambled(MAX_RUN_SIZE));
    quicktimsort(&mut short, 0, 0, MAX_RUN_SIZE - 1, &never);
    assert_eq!(short.arr, identity(MAX_RUN_SIZE));
    let mut long = running(scrambled(100));
    quicktimsort(&mut long, 0, 0, 99, &never);
    assert_eq!(long.arr, identity(100));
    assert!(long.is_running());
}

#[test]
fn quicktimsort_leaves_short_ranges_to_insertion() {
    let mut data = running(scrambled(MAX_RUN_SIZE));
    quicktimsort(&mut data, 0, 0, MAX_RUN_SIZE - 1, &never);
    assert_eq!(data.pivot, Some(MAX_RUN_SIZE - 1));
    assert_eq!(data.active_2, None);
    let mut longer = running(scrambled(MAX_RUN_SIZE + 1));
    quicktimsort(&mut longer, 0, 0, MAX_RUN_SIZE, &never);
    assert!(longer.active_2.is_some());
}

#[test]
fn merge_in_place_merges_two_runs() {
    let mut data = running(vec![1, 3, 5, 0, 2, 4]);
    merge_in_place(&mut data, 0, 0, 2, 5, &never);
    assert_eq!(data.arr, vec![0, 1, 2, 3, 4, 5]);
    assert!(data.is_running());
}

#[test]
fn merge_in_place_leaves_runs_already_in_order() {
    let mut data = running(vec![0, 1, 2, 3, 4, 5]);
    let calls = Cell::new(0usize);
    merge_in_place(&mut data, 0, 0, 2, 5, &|_: &DataArrWrapper, _: u128| {
        calls.set(calls.get() + 1);
        false
    });
    assert_eq!(data.arr, vec![0, 1, 2, 3, 4, 5]);
    assert_eq!(calls.get(), 0);
    assert_eq!(data.pivot, None);
}

#[test]
fn merge_in_place_pauses_once_for_each_value_moved_forward() {
    let mut data = running(vec![3, 4, 5, 0, 1, 2]);
    let calls = Cell::new(0usize);
    merge_in_place(&mut data, 0, 0, 2, 5, &|d: &DataArrWrapper, _: u128| {
        assert!(is_permutation(&d.arr));
        calls.set(calls.get() + 1);
        false
    });
    assert_eq!(data.arr, vec![0, 1, 2, 3, 4, 5]);
    assert_eq!(calls.get(), 3);
}

#[test]
fn merge_in_place_stopped_after_one_move() {
    let mut data = running(vec![3, 4, 5, 0, 1, 2]);
    merge_in_place(&mut data, 0, 0, 2, 5, &|_: &DataArrWrapper, _: u128| true);
    assert_eq!(data.arr, vec![0, 3, 4, 5, 1, 2]);
    assert!(!data.is_running());
}

#[test]
fn merge_sort_halves_split_at_the_middle() {
    assert_eq!(merge_sort_halves(0, 5), ((0, 2), (3, 5)));
    assert_eq!(merge_sort_halves(0, 1), ((0, 0), (1, 1)));
    assert_eq!(merge_sort_halves(2, 6), ((2, 4), (5, 6)));
    assert_eq!(
        merge_sort_halves(usize::MAX - 2, usize::MAX),
        ((usize::MAX - 2, usize::MAX - 1), (usize::MAX, usize::MAX))
    );
}

#[test]
fn merge_sort_sorts() {
    let mut data = running(scrambled(50));
    merge_sort_in_place(&mut data, 0, 0, 49, &never);
    assert_eq!(data.arr, identity(50));
    assert!(data.is_running());
}

#[test]
fn merge_sort_sorts_only_its_range() {
    let mut data = running(vec![5, 4, 3, 2, 1, 0]);
    merge_sort_in_place(&mut data, 0, 1, 3, &never);
    assert_eq!(data.arr, vec![5, 2, 3, 4, 1, 0]);
}

#[test]
fn merge_sort_stopped_keeps_a_permutation() {
    let mut data = running(scrambled(30));
    let calls = Cell::new(0usize);
    merge_sort_in_place(&mut data, 0, 0, 29, &|_: &DataArrWrapper, _: u128| {
        calls.set(calls.get() + 1);
        calls.get() == 4
    });
    assert_eq!(calls.get(), 4);
    assert!(is_permutation(&data.arr));
    assert!(!data.is_running());
}

#[test]
fn radix_base_ten_sorts_four_values() {
    let mut data = running(vec![3, 1, 2, 0]);
    radix_lsd(&mut data, 0, 10, &never);
    assert_eq!(data.arr, vec![0, 1, 2, 3]);
    assert!(data.is_running());
}

#[test]
fn radix_sorts_values_of_several_digits() {
    let mut data = running(scrambled(150));
    radix_lsd(&mut data, 0, 10, &never);
    assert_eq!(data.arr, identity(150));
}

#[test]
fn radix_writes_each_value_once_for_each_digit() {
    let calls = Cell::new(0usize);
    let mut data = running(scrambled(150));
    radix_lsd(&mut data, 3, 10, &|_: &DataArrWrapper, t: u128| {
        assert_eq!(t, 3);
        calls.set(calls.get() + 1);
        false
    });
    assert_eq!(calls.get(), 3 * 150);
    let twos = Cell::new(0usize);
    let mut data = running(scrambled(9));
    radix_lsd(&mut data, 3, 2, &|_: &DataArrWrapper, _: u128| {
        twos.set(twos.get() + 1);
        false
    });
    assert_eq!(twos.get(), 4 * 9);
    assert_eq!(data.arr, identity(9));
}

#[test]
fn radix_sorts_in_base_two_and_thirty_six() {
    let mut two = running(scrambled(70));
    radix_lsd(&mut two, 0, 2, &never);
    assert_eq!(two.arr, identity(70));
    let mut thirty_six = running(scrambled(70));
    radix_lsd(&mut thirty_six, 0, 36, &never);
    assert_eq!(thirty_six.arr, identity(70));
}

#[test]
fn radix_sorts_values_that_are_no_permutation() {
    let mut data = running(vec![170, 45, 75, 90, 802, 24, 2, 66, 45]);
    radix_lsd(&mut data, 0, 10, &never);
    assert_eq!(data.arr, vec![2, 24, 45, 45, 66, 75, 90, 170, 802]);
}

#[test]
fn radix_stopped_in_a_pass_leaves_it_half_written() {
    let mut data = running(vec![3, 1, 2, 0]);
    radix_lsd(&mut data, 0, 10, &|_: &DataArrWrapper, _: u128| true);
    assert_eq!(data.arr, vec![0, 1, 2, 0]);
    assert!(!data.is_running());
    assert_eq!(data.active, Some(0));
}

#[test]
fn radix_on_idle_array_does_nothing() {
    let mut data = DataArrWrapper::new(vec![3, 1, 2, 0], 4);
    radix_lsd(&mut data, 0, 10, &never);
    assert_eq!(data.arr, vec![3, 1, 2, 0]);
    assert_eq!(data.active, None);
}

#[test]
fn shuffle_of_no_passes_changes_nothing() {
    let mut data = running(vec![0, 1, 2, 3]);
    SortArray::shuffle(&mut data, 0, 0, &never);
    assert_eq!(data.arr, vec![0, 1, 2, 3]);
    assert_eq!(data.active, None);
}

#[test]
fn shuffle_keeps_a_permutation() {
    let mut data = running(identity(50));
    let calls = Cell::new(0usize);
    SortArray::shuffle(&mut data, 0, 3, &|d: &DataArrWrapper, _: u128| {
        assert!(is_permutation(&d.arr));
        calls.set(calls.get() + 1);
        false
    });
    assert!(is_permutation(&data.arr));
    assert_eq!(calls.get(), 150);
    assert_eq!(data.active, Some(49));
    assert!(data.is_running());
}

#[test]
fn shuffle_stopped_after_two_steps() {
    let mut data = running(identity(50));
    let calls = Cell::new(0usize);
    SortArray::shuffle(&mut data, 0, 3, &|_: &DataArrWrapper, _: u128| {
        calls.set(calls.get() + 1);
        calls.get() == 2
    });
    assert_eq!(calls.get(), 2);
    assert!(is_permutation(&data.arr));
    assert_eq!(data.active, Some(1));
    assert!(!data.is_running());
}

#[test]
fn radix_sorts_the_greatest_values() {
    for base in [2usize, 10, 16, 36] {
        let mut data = running(vec![usize::MAX, 0, usize::MAX - 1, 1, usize::MAX / 2]);
        radix_lsd(&mut data, 0, base, &never);
        assert_eq!(data.arr, vec![0, 1, usize::MAX / 2, usize::MAX - 1, usize::MAX]);
    }
}

#[test]
fn radix_of_zeros_takes_one_pass() {
    let calls = Cell::new(0usize);
    let mut data = running(vec![0, 0, 0]);
    radix_lsd(&mut data, 0, 10, &|_: &DataArrWrapper, _: u128| {
        calls.set(calls.get() + 1);
        false
    });
    assert_eq!(calls.get(), 3);
    assert_eq!(data.arr, vec![0, 0, 0]);
}

#[test]
fn radix_of_nothing() {
    let mut data = running(vec![]);
    radix_lsd(&mut data, 0, 10, &never);
    assert_eq!(data.arr, Vec::<usize>::new());
    assert!(data.is_running());
}

#[test]
fn sorts_of_a_range_without_values_do_nothing() {
    let mut data = running(vec![2, 1, 0]);
    quick_sort_lomuto(&mut data, 0, 1, 1, &never);
    quick_sort_lomuto(&mut data, 0, 2, 0, &never);
    quicktimsort(&mut data, 0, 2, 2, &never);
    merge_sort_in_place(&mut data, 0, 0, 0, &never);
    merge_sort_in_place(&mut data, 0, 7, 3, &never);
    assert_eq!(data.arr, vec![2, 1, 0]);
    assert_eq!(data.pivot, None);
    assert_eq!(data.active, None);
}

#[test]
fn sorts_keep_equal_values() {
    let input = vec![3, 1, 3, 0, 1, 1, 2, 0];
    let sorted = vec![0, 0, 1, 1, 1, 2, 3, 3];
    let mut data = running(input.clone());
    bubble_sort(&mut data, 0, &never);
    assert_eq!(data.arr, sorted);
    let mut data = running(input.clone());
    cocktail_shaker_sort(&mut data, 0, &never);
    assert_eq!(data.arr, sorted);
    let mut data = running(input.clone());
    insertion_sort(&mut data, 0, 0, 7, &never);
    assert_eq!(data.arr, sorted);
    let mut data = running(input.clone());
    selection_sort(&mut data, 0, &never);
    assert_eq!(data.arr, sorted);
    let mut data = running(input.clone());
    shell_sort(&mut data, 0, &never);
    assert_eq!(data.arr, sorted);
    let mut data = running(input.clone());
    comb_sort(&mut data, 0, &never);
    assert_eq!(data.arr, sorted);
    let mut data = running(input.clone());
    quick_sort_lomuto(&mut data, 0, 0, 7, &never);
    assert_eq!(data.arr, sorted);
    let mut data = running(input.clone());
    merge_sort_in_place(&mut data, 0, 0, 7, &never);
    assert_eq!(data.arr, sorted);
    let mut data = running(input);
    radix_lsd(&mut data, 0, 3, &never);
    assert_eq!(data.arr, sorted);
}

#[test]
fn bubble_step_exchanges_a_pair_out_of_order() {
    let mut data = running(vec![1, 0, 2]);
    assert!(bubble(&mut data, 0, 0, &never));
    assert_eq!(data.arr, vec![0, 1, 2]);
    assert_eq!(data.active, Some(1));
    assert!(!bubble(&mut data, 1, 0, &never));
    assert_eq!(data.arr, vec![0, 1, 2]);
    assert_eq!(data.active, Some(2));
}
