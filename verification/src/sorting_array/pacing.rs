use crate::config::{SleepTimes, MAX_ARRAY_LEN};
use crate::sorting_array::commands::SortInstruction;
use vstd::prelude::*;

verus! {

/// Nanoseconds in a millisecond.
pub const NANOS_PER_MILLI: u128 = 1_000_000;

/// `n` lies between the square of `r` and the next square.
pub open spec fn is_floor_sqrt(r: nat, n: nat) -> bool {
    r * r <= n < (r + 1) * (r + 1)
}

/// The greatest whole number whose square is not more than `n`.
pub open spec fn floor_sqrt(n: nat) -> nat {
    choose|r: nat| is_floor_sqrt(r, n)
}

/// Only one whole number has `n` between its square and the next square.
pub proof fn lemma_floor_sqrt_unique(n: nat, r: nat)
    requires
        is_floor_sqrt(r, n),
    ensures
        floor_sqrt(n) == r,
{
    let s = floor_sqrt(n);
    if s < r {
        assert((s + 1) * (s + 1) <= r * r) by (nonlinear_arith)
            requires
                s + 1 <= r,
        ;
    }
    if r < s {
        assert((r + 1) * (r + 1) <= s * s) by (nonlinear_arith)
            requires
                r + 1 <= s,
        ;
    }
}

/// The whole part of the square root of `n`.
pub fn isqrt(n: u128) -> (r: u128)
    ensures
        r == floor_sqrt(n as nat),
        r * r <= n < (r + 1) * (r + 1),
{
    let mut lo: u128 = 0;
    let mut hi: u128 = 18_446_744_073_709_551_616;
    while hi - lo > 1
        invariant
            lo < hi <= 18_446_744_073_709_551_616,
            lo * lo <= n < hi * hi,
        decreases hi - lo,
    {
        let mid: u128 = lo + (hi - lo) / 2;
        assert(mid * mid <= 18_446_744_073_709_551_615 * 18_446_744_073_709_551_615)
            by (nonlinear_arith)
            requires
                0 <= mid <= 18_446_744_073_709_551_615,
        ;
        if mid * mid <= n {
            lo = mid;
        } else {
            hi = mid;
        }
    }
    proof {
        lemma_floor_sqrt_unique(n as nat, lo as nat);
    }
    lo
}

/// The time for one step, in nanoseconds, of an algorithm that takes about `len * len` steps
/// and is given `base` milliseconds in all.
pub open spec fn quadratic_step(base: u64, len: nat) -> u128 {
    #[verifier::truncate]
    (((base * NANOS_PER_MILLI) as nat / (len * len)) as u128)
}

/// The time for one step, in nanoseconds, of an algorithm that takes about `len` to the power
/// of one and a half steps and is given `base` milliseconds in all. The power is taken in
/// whole numbers, as the square root of the cube, rounded down.
pub open spec fn three_halves_step(base: u64, len: nat) -> u128 {
    #[verifier::truncate]
    (((base * NANOS_PER_MILLI) as nat / floor_sqrt(len * len * len)) as u128)
}

/// The time for one step, in nanoseconds, of an algorithm whose steps are counted as `len`
/// and which is given `base` milliseconds in all.
pub open spec fn linear_step(base: u64, len: nat) -> u128 {
    #[verifier::truncate]
    (((base * NANOS_PER_MILLI) as nat / len) as u128)
}

/// The time for one step of what `instruction` starts on `len` values; nothing for the
/// instructions that are done at once.
pub open spec fn step_sleep(times: SleepTimes, instruction: SortInstruction, len: nat) -> u128 {
    match instruction {
        SortInstruction::Shuffle(_) => quadratic_step(times.shuffle, len),
        SortInstruction::BubbleSort => quadratic_step(times.bubble, len),
        SortInstruction::CocktailShakerSort => quadratic_step(times.cocktail, len),
        SortInstruction::InsertionSort => quadratic_step(times.insertion, len),
        SortInstruction::SelectionSort => quadratic_step(times.selection, len),
        SortInstruction::ShellSort => three_halves_step(times.shell, len),
        SortInstruction::CombSort => three_halves_step(times.comb, len),
        SortInstruction::QuickSort(_) => linear_step(times.quick, len),
        SortInstruction::MergeSort(_) => linear_step(times.merge, len),
        SortInstruction::RadixSort(_) => linear_step(times.radix, len),
        SortInstruction::Reset | SortInstruction::Reverse | SortInstruction::Stop => 0,
    }
}

/// `quadratic_step`, computed.
pub fn step_sleep_quadratic(base: u64, len: usize) -> (t: u128)
    requires
        len >= 1,
    ensures
        t == quadratic_step(base, len as nat),
{
    let n: u128 = len as u128;
    assert(n * n <= 18_446_744_073_709_551_615 * 18_446_744_073_709_551_615 && n * n >= 1)
        by (nonlinear_arith)
        requires
            1 <= n <= 18_446_744_073_709_551_615,
    ;
    (base as u128 * NANOS_PER_MILLI) / (n * n)
}

/// `three_halves_step`, computed.
pub fn step_sleep_three_halves(base: u64, len: usize) -> (t: u128)
    requires
        1 <= len <= MAX_ARRAY_LEN,
    ensures
        t == three_halves_step(base, len as nat),
{
    let n: u128 = len as u128;
    assert(n * n <= 4_294_967_295 * 4_294_967_295 && n * n >= 1) by (nonlinear_arith)
        requires
            1 <= n <= 4_294_967_295,
    ;
    let square: u128 = n * n;
    assert(square * n <= 18_446_744_065_119_617_025 * 4_294_967_295 && square * n >= 1)
        by (nonlinear_arith)
        requires
            1 <= n <= 4_294_967_295,
            1 <= square <= 18_446_744_065_119_617_025,
    ;
    let cube: u128 = square * n;
    let root: u128 = isqrt(cube);
    assert(root >= 1) by (nonlinear_arith)
        requires
            cube >= 1,
            cube < (root + 1) * (root + 1),
            root >= 0,
    ;
    (base as u128 * NANOS_PER_MILLI) / root
}

/// `linear_step`, computed.
pub fn step_sleep_linear(base: u64, len: usize) -> (t: u128)
    requires
        len >= 1,
    ensures
        t == linear_step(base, len as nat),
{
    (base as u128 * NANOS_PER_MILLI) / (len as u128)
}

/// The time for one step of what `instruction` starts on `len` values.
pub fn step_sleep_for(times: &SleepTimes, instruction: SortInstruction, len: usize) -> (t: u128)
    requires
        len >= 1,
        instruction is ShellSort || instruction is CombSort ==> len <= MAX_ARRAY_LEN,
    ensures
        t == step_sleep(*times, instruction, len as nat),
{
    match instruction {
        SortInstruction::Shuffle(_) => step_sleep_quadratic(times.shuffle, len),
        SortInstruction::BubbleSort => step_sleep_quadratic(times.bubble, len),
        SortInstruction::CocktailShakerSort => step_sleep_quadratic(times.cocktail, len),
        SortInstruction::InsertionSort => step_sleep_quadratic(times.insertion, len),
        SortInstruction::SelectionSort => step_sleep_quadratic(times.selection, len),
        SortInstruction::ShellSort => step_sleep_three_halves(times.shell, len),
        SortInstruction::CombSort => step_sleep_three_halves(times.comb, len),
        SortInstruction::QuickSort(_) => step_sleep_linear(times.quick, len),
        SortInstruction::MergeSort(_) => step_sleep_linear(times.merge, len),
        SortInstruction::RadixSort(_) => step_sleep_linear(times.radix, len),
        SortInstruction::Reset | SortInstruction::Reverse | SortInstruction::Stop => 0,
    }
}

} // verus!
