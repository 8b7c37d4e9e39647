use crate::sorting_array::array::DataArrWrapper;
use crate::sorting_array::order::{ascending, lemma_rearranged_member, rearranged};
use crate::sorting_array::sorts::{accepts_len, may_stop_at, pause};
use crate::tools::power;
use radix::RadixNum;
use vstd::arithmetic::div_mod::{
    lemma_breakdown, lemma_div_decreases, lemma_fundamental_div_mod, lemma_small_mod,
};
use vstd::arithmetic::power::{lemma_pow0, lemma_pow_increases, lemma_pow_positive, pow};
use vstd::prelude::*;
use vstd::seq_lib::lemma_multiset_commutative;

verus! {

/// How many digits `n` has when written in `base`; zero is written with one digit.
pub open spec fn digit_count(n: nat, base: nat) -> nat
    decreases n,
    via digit_count_decreases
{
    if base < 2 || n < base {
        1
    } else {
        1 + digit_count(n / base, base)
    }
}

#[via_fn]
proof fn digit_count_decreases(n: nat, base: nat) {
    if !(base < 2 || n < base) {
        lemma_div_decreases(n as int, base as int);
    }
}

/// The digit of `v` that stands for multiples of `place`, where `place` is a power of `base`.
pub open spec fn digit_at(v: usize, place: int, base: int) -> int {
    (v as int / place) % base
}

/// The test for "the digit at `place` is `d`".
pub open spec fn has_digit(place: int, base: int, d: int) -> spec_fn(usize) -> bool {
    |v: usize| digit_at(v, place, base) == d
}

/// The values of `s` whose digit at `place` is `d`, in the order they have in `s`: what one
/// bucket holds once `s` is dealt out.
pub open spec fn keyed(s: Seq<usize>, place: int, base: int, d: int) -> Seq<usize> {
    s.filter(has_digit(place, base, d))
}

/// The buckets for the digits `0 .. upto`, one after another.
pub open spec fn gathered(s: Seq<usize>, place: int, base: int, upto: int) -> Seq<usize>
    decreases upto,
{
    if upto <= 0 {
        Seq::empty()
    } else {
        gathered(s, place, base, upto - 1) + keyed(s, place, base, upto - 1)
    }
}

/// `s` after one pass: ordered by the digit at `place`, and values with the same digit there
/// in the order they had.
pub open spec fn redistributed(s: Seq<usize>, place: int, base: int) -> Seq<usize> {
    gathered(s, place, base, base)
}

/// A pass that was stopped after it wrote `written` values: those are the first of the
/// pass's result, and behind them stands what the pass had not yet overwritten.
pub open spec fn partly_redistributed(
    s: Seq<usize>,
    place: int,
    base: int,
    written: int,
) -> Seq<usize> {
    redistributed(s, place, base).take(written) + s.skip(written)
}

/// `after` is what a sort of `before` in `base` can leave when it is stopped: some pass, on
/// some rearrangement of `before`, written as far as it came.
pub open spec fn stopped_in_pass(before: Seq<usize>, after: Seq<usize>, base: int) -> bool {
    exists|prev: Seq<usize>, digit: nat, written: int|
        rearranged(prev, before) && 0 <= written <= prev.len() && after
            == #[trigger] partly_redistributed(prev, pow(base, digit), base, written)
}

/// In order when only the remainders modulo `m` are looked at.
pub open spec fn ascending_mod(s: Seq<usize>, m: int) -> bool {
    forall|i: int, j: int| 0 <= i <= j < s.len() ==> s[i] as int % m <= s[j] as int % m
}

/// A number lies below the power of the base that its digit count names, and, unless it is
/// zero, not below the power before.
pub proof fn lemma_digit_count_bounds(n: nat, base: nat)
    requires
        base >= 2,
    ensures
        digit_count(n, base) >= 1,
        n < pow(base as int, digit_count(n, base)),
        n >= 1 ==> pow(base as int, (digit_count(n, base) - 1) as nat) <= n,
    decreases n,
{
    reveal(pow);
    if n < base {
        assert(pow(base as int, 1) == base * pow(base as int, 0));
    } else {
        let q = n / base;
        lemma_div_decreases(n as int, base as int);
        lemma_digit_count_bounds(q, base);
        lemma_fundamental_div_mod(n as int, base as int);
        let d = digit_count(q, base);
        let b = base as int;
        let qi = q as int;
        let r = n as int % b;
        let high = pow(b, d);
        let low = pow(b, (d - 1) as nat);
        assert(n < b * high) by (nonlinear_arith)
            requires
                n == b * qi + r,
                0 <= r < b,
                qi + 1 <= high,
        ;
        assert(qi >= 1) by (nonlinear_arith)
            requires
                n == b * qi + r,
                0 <= r < b,
                n >= b,
                b >= 2,
        ;
        assert(high <= n) by (nonlinear_arith)
            requires
                high == b * low,
                low <= qi,
                n == b * qi + r,
                0 <= r,
                b >= 2,
        ;
    }
}

/// Dealing out one more value lengthens the bucket of its digit and no other.
pub proof fn lemma_keyed_push(s: Seq<usize>, e: usize, place: int, base: int, d: int)
    ensures
        keyed(s.push(e), place, base, d) == if digit_at(e, place, base) == d {
            keyed(s, place, base, d).push(e)
        } else {
            keyed(s, place, base, d)
        },
{
    reveal(Seq::filter);
    assert(s.push(e).drop_last() =~= s);
}

/// Nothing dealt out fills no bucket.
pub proof fn lemma_gathered_empty(place: int, base: int, upto: int)
    ensures
        gathered(Seq::<usize>::empty(), place, base, upto) =~= Seq::<usize>::empty(),
    decreases upto,
{
    reveal(Seq::filter);
    if upto > 0 {
        lemma_gathered_empty(place, base, upto - 1);
    }
}

/// Dealing out one more value adds it to the buckets `0 .. upto` where its digit is among
/// them.
pub proof fn lemma_gathered_push(s: Seq<usize>, e: usize, place: int, base: int, upto: int)
    ensures
        gathered(s.push(e), place, base, upto).to_multiset() =~= if 0 <= digit_at(
            e,
            place,
            base,
        ) < upto {
            gathered(s, place, base, upto).to_multiset().insert(e)
        } else {
            gathered(s, place, base, upto).to_multiset()
        },
    decreases upto,
{
    broadcast use vstd::seq_lib::group_to_multiset_ensures;
    if upto > 0 {
        lemma_gathered_push(s, e, place, base, upto - 1);
        lemma_keyed_push(s, e, place, base, upto - 1);
        lemma_multiset_commutative(
            gathered(s.push(e), place, base, upto - 1),
            keyed(s.push(e), place, base, upto - 1),
        );
        lemma_multiset_commutative(
            gathered(s, place, base, upto - 1),
            keyed(s, place, base, upto - 1),
        );
    }
}

/// A pass keeps the values.
pub proof fn lemma_redistributed_rearranged(s: Seq<usize>, place: int, base: int)
    requires
        place > 0,
        base > 0,
    ensures
        rearranged(redistributed(s, place, base), s),
        redistributed(s, place, base).len() == s.len(),
    decreases s.len(),
{
    broadcast use vstd::seq_lib::group_to_multiset_ensures;
    if s.len() == 0 {
        lemma_gathered_empty(place, base, base);
        assert(s =~= Seq::<usize>::empty());
    } else {
        let t = s.drop_last();
        let e = s.last();
        assert(s =~= t.push(e));
        lemma_redistributed_rearranged(t, place, base);
        lemma_gathered_push(t, e, place, base, base);
    }
    vstd::seq_lib::to_multiset_len(s);
}

/// A pass that was stopped has kept the values exactly where what it wrote holds the same
/// values as what it overwrote; so it has where it wrote nothing or wrote all.
pub proof fn lemma_partly_redistributed_rearranged(
    s: Seq<usize>,
    place: int,
    base: int,
    written: int,
)
    requires
        place > 0,
        base > 0,
        0 <= written <= s.len(),
    ensures
        rearranged(partly_redistributed(s, place, base, written), s) <==> rearranged(
            redistributed(s, place, base).take(written),
            s.take(written),
        ),
        written == 0 || written == s.len() ==> rearranged(
            partly_redistributed(s, place, base, written),
            s,
        ),
{
    let target = redistributed(s, place, base);
    lemma_redistributed_rearranged(s, place, base);
    lemma_multiset_commutative(target.take(written), s.skip(written));
    lemma_multiset_commutative(s.take(written), s.skip(written));
    assert(s =~= s.take(written) + s.skip(written));
    let wrote = target.take(written).to_multiset();
    let over = s.take(written).to_multiset();
    let rest = s.skip(written).to_multiset();
    if wrote.add(rest) =~= over.add(rest) {
        assert forall|v: usize| wrote.count(v) == over.count(v) by {
            assert(wrote.add(rest).count(v) == over.add(rest).count(v));
        }
        assert(wrote =~= over);
    }
    if written == s.len() {
        assert(target.take(written) =~= target);
    }
}

/// A bucket holds values of `s` with the bucket's digit, and is in order modulo `m` where `s`
/// is.
pub proof fn lemma_keyed_ascending(s: Seq<usize>, place: int, base: int, d: int, m: int)
    requires
        ascending_mod(s, m),
    ensures
        ascending_mod(keyed(s, place, base, d), m),
        forall|i: int|
            0 <= i < keyed(s, place, base, d).len() ==> digit_at(
                #[trigger] keyed(s, place, base, d)[i],
                place,
                base,
            ) == d,
        forall|i: int|
            0 <= i < keyed(s, place, base, d).len() ==> s.contains(
                #[trigger] keyed(s, place, base, d)[i],
            ),
    decreases s.len(),
{
    reveal(Seq::filter);
    if s.len() > 0 {
        let t = s.drop_last();
        lemma_keyed_ascending(t, place, base, d, m);
    }
}

/// Once `s` is in order modulo `place`, the buckets `0 .. upto` one after another are in order
/// modulo `place * base`, and hold only digits below `upto`.
pub proof fn lemma_gathered_ascending(s: Seq<usize>, place: int, base: int, upto: int)
    requires
        place > 0,
        base > 0,
        ascending_mod(s, place),
    ensures
        ascending_mod(gathered(s, place, base, upto), place * base),
        forall|i: int|
            0 <= i < gathered(s, place, base, upto).len() ==> 0 <= digit_at(
                #[trigger] gathered(s, place, base, upto)[i],
                place,
                base,
            ) < upto,
    decreases upto,
{
    if upto > 0 {
        let d = upto - 1;
        lemma_gathered_ascending(s, place, base, d);
        lemma_keyed_ascending(s, place, base, d, place);
        let front = gathered(s, place, base, d);
        let all = gathered(s, place, base, upto);
        assert forall|i: int, j: int| 0 <= i <= j < all.len() implies all[i] as int % (place
            * base) <= all[j] as int % (place * base) by {
            let x = all[i];
            let y = all[j];
            lemma_breakdown(x as int, place, base);
            lemma_breakdown(y as int, place, base);
            let dx = digit_at(x, place, base);
            let dy = digit_at(y, place, base);
            if i < front.len() <= j {
                assert(place * dx + place <= place * dy) by (nonlinear_arith)
                    requires
                        dx + 1 <= dy,
                        place > 0,
                ;
            }
        }
    }
}

/// A pass on values in order modulo `place` leaves them in order modulo `place * base`.
pub proof fn lemma_redistributed_ascending(s: Seq<usize>, place: int, base: int)
    requires
        place > 0,
        base > 0,
        ascending_mod(s, place),
    ensures
        ascending_mod(redistributed(s, place, base), place * base),
{
    lemma_gathered_ascending(s, place, base, base);
}

/// Values that are in order modulo something greater than all of them are in order.
pub proof fn lemma_ascending_mod_ascending(s: Seq<usize>, m: int)
    requires
        ascending_mod(s, m),
        forall|i: int| 0 <= i < s.len() ==> (#[trigger] s[i]) < m,
    ensures
        ascending(s),
{
    assert forall|i: int, j: int| 0 <= i <= j < s.len() implies s[i] <= s[j] by {
        lemma_small_mod(s[i] as nat, m as nat);
        lemma_small_mod(s[j] as nat, m as nat);
    }
}

/// The value found at `gathered(s, .., key).len() + m` after a pass is the `m`-th of bucket
/// `key`.
pub proof fn lemma_gathered_index(s: Seq<usize>, place: int, base: int, key: int, m: int, all: int)
    requires
        0 <= key < all,
        0 <= m < keyed(s, place, base, key).len(),
    ensures
        gathered(s, place, base, key).len() + m < gathered(s, place, base, all).len(),
        gathered(s, place, base, all)[gathered(s, place, base, key).len() + m] == keyed(
            s,
            place,
            base,
            key,
        )[m],
    decreases all - key,
{
    if all > key + 1 {
        lemma_gathered_index(s, place, base, key, m, all - 1);
    }
}

/// The number of digits of `item` in `base`, as `radix::RadixNum` writes it: the length of
/// `RadixNum::from(item).with_radix(base)` as a string, which holds one character for each
/// digit and the single digit `0` for zero. The crate knows the bases 2 to 36.
#[verifier::external_body]
fn digits_in_base(item: usize, base: usize) -> (count: usize)
    requires
        2 <= base <= 36,
    ensures
        count == digit_count(item as nat, base as nat),
{
    RadixNum::from(item).with_radix(base).unwrap().as_str().len()
}

/// The greatest number of digits that a value of the array has in `base`; none for no values.
fn get_max_digits(data: &DataArrWrapper, base: usize) -> (largest: usize)
    requires
        2 <= base <= 36,
    ensures
        forall|i: int|
            0 <= i < data@.values.len() ==> digit_count(
                #[trigger] data@.values[i] as nat,
                base as nat,
            ) <= largest,
        data@.values.len() == 0 ==> largest == 0,
        data@.values.len() > 0 ==> exists|i: int|
            0 <= i < data@.values.len() && digit_count(data@.values[i] as nat, base as nat)
                == largest,
{
    let len: usize = data.len();
    let mut largest: usize = 0;
    let mut k: usize = 0;
    while k < len
        invariant
            k <= len,
            len == data@.values.len(),
            2 <= base <= 36,
            forall|i: int|
                0 <= i < k ==> digit_count(#[trigger] data@.values[i] as nat, base as nat)
                    <= largest,
            k == 0 ==> largest == 0,
            k > 0 ==> exists|i: int|
                0 <= i < k && digit_count(data@.values[i] as nat, base as nat) == largest,
        decreases len - k,
    {
        let item_digits: usize = digits_in_base(data.get(k), base);
        if item_digits > largest {
            largest = item_digits;
        }
        k += 1;
    }
    largest
}

/// The digit of `num` at `place`.
fn get_digit_at(num: usize, place: usize, base: usize) -> (digit: usize)
    requires
        place >= 1,
        base >= 1,
    ensures
        digit == digit_at(num, place as int, base as int),
        digit < base,
{
    (num / place) % base
}

/// Deals the values out into one bucket for each digit, keeping their order inside a bucket.
fn deal(data: &DataArrWrapper, place: usize, base: usize) -> (buckets: Vec<Vec<usize>>)
    requires
        place >= 1,
        base >= 1,
    ensures
        buckets@.len() == base,
        forall|d: int|
            0 <= d < base ==> (#[trigger] buckets@[d])@ == keyed(
                data@.values,
                place as int,
                base as int,
                d,
            ),
{
    let len: usize = data.len();
    let mut buckets: Vec<Vec<usize>> = Vec::new();
    let mut key: usize = 0;
    while key < base
        invariant
            key <= base,
            buckets@.len() == key,
            forall|d: int| 0 <= d < key ==> (#[trigger] buckets@[d])@ == Seq::<usize>::empty(),
        decreases base - key,
    {
        buckets.push(Vec::with_capacity(len));
        key += 1;
    }
    let mut k: usize = 0;
    proof {
        reveal(Seq::filter);
    }
    while k < len
        invariant
            k <= len,
            len == data@.values.len(),
            place >= 1,
            base >= 1,
            buckets@.len() == base,
            forall|d: int|
                0 <= d < base ==> (#[trigger] buckets@[d])@ == keyed(
                    data@.values.take(k as int),
                    place as int,
                    base as int,
                    d,
                ),
        decreases len - k,
    {
        let num: usize = data.get(k);
        let digit: usize = get_digit_at(num, place, base);
        buckets[digit].push(num);
        proof {
            let dealt = data@.values.take(k as int);
            assert(data@.values.take(k + 1) =~= dealt.push(num));
            assert forall|d: int| 0 <= d < base implies (#[trigger] buckets@[d])@ == keyed(
                data@.values.take(k + 1),
                place as int,
                base as int,
                d,
            ) by {
                lemma_keyed_push(dealt, num, place as int, base as int, d);
            }
        }
        k += 1;
    }
    proof {
        assert(data@.values.take(len as int) =~= data@.values);
    }
    buckets
}

/// Writes the buckets back over the array, bucket after bucket and each from its first value
/// on; one value written is one step of the animation. Before each value it looks whether the
/// sort was told to stop, and if so leaves the rest unwritten. Answers how many it wrote.
fn gather<F: Fn(&DataArrWrapper, u128) -> bool>(
    data: &mut DataArrWrapper,
    buckets: &Vec<Vec<usize>>,
    sleep_time: u128,
    place: usize,
    base: usize,
    pace: &F,
) -> (written: usize)
    requires
        place >= 1,
        base >= 1,
        buckets@.len() == base,
        forall|d: int|
            0 <= d < base ==> (#[trigger] buckets@[d])@ == keyed(
                old(data)@.values,
                place as int,
                base as int,
                d,
            ),
        accepts_len(pace, sleep_time, old(data)@.values.len()),
    ensures
        written <= old(data)@.values.len(),
        final(data)@.values == partly_redistributed(
            old(data)@.values,
            place as int,
            base as int,
            written as int,
        ),
        final(data)@.running() ==> written == old(data)@.values.len(),
        final(data)@.values.len() == old(data)@.values.len(),
        final(data)@.max_val == old(data)@.max_val,
        final(data)@.active_2 == old(data)@.active_2,
        final(data)@.pivot == old(data)@.pivot,
        final(data)@.active matches Some(a) ==> a < final(data)@.values.len()
            || final(data)@.active == old(data)@.active,
        !old(data)@.running() ==> final(data)@ == old(data)@,
        final(data)@.sorted && !old(data)@.sorted ==> may_stop_at(
            pace,
            sleep_time,
            final(data)@.values,
        ),
{
    let len: usize = data.len();
    let ghost prev = data@.values;
    let ghost target = redistributed(prev, place as int, base as int);
    proof {
        lemma_redistributed_rearranged(prev, place as int, base as int);
    }
    let mut i: usize = 0;
    let mut key: usize = 0;
    while key < base
        invariant
            key <= base,
            i <= len,
            len == prev.len(),
            target == redistributed(prev, place as int, base as int),
            target.len() == len,
            prev == old(data)@.values,
            buckets@.len() == base,
            forall|d: int|
                0 <= d < base ==> (#[trigger] buckets@[d])@ == keyed(
                    prev,
                    place as int,
                    base as int,
                    d,
                ),
            accepts_len(pace, sleep_time, len as nat),
            i == gathered(prev, place as int, base as int, key as int).len(),
            data@.values =~= target.take(i as int) + prev.skip(i as int),
            data@.max_val == old(data)@.max_val,
            data@.active_2 == old(data)@.active_2,
            data@.pivot == old(data)@.pivot,
            data@.active matches Some(a) ==> a < len || data@.active == old(data)@.active,
            old(data)@.sorted ==> data@ == old(data)@,
            data@.sorted && !old(data)@.sorted ==> may_stop_at(pace, sleep_time, data@.values),
        decreases base - key,
    {
        let bucket: &Vec<usize> = &buckets[key];
        let count: usize = bucket.len();
        let mut m: usize = 0;
        while m < count
            invariant
                m <= count,
                key < base,
                i <= len,
                len == prev.len(),
                target == redistributed(prev, place as int, base as int),
                target.len() == len,
                prev == old(data)@.values,
                count == bucket@.len(),
                bucket@ == keyed(prev, place as int, base as int, key as int),
                accepts_len(pace, sleep_time, len as nat),
                i == gathered(prev, place as int, base as int, key as int).len() + m,
                data@.values =~= target.take(i as int) + prev.skip(i as int),
                data@.max_val == old(data)@.max_val,
                data@.active_2 == old(data)@.active_2,
                data@.pivot == old(data)@.pivot,
                data@.active matches Some(a) ==> a < len || data@.active == old(data)@.active,
                old(data)@.sorted ==> data@ == old(data)@,
                data@.sorted && !old(data)@.sorted ==> may_stop_at(pace, sleep_time, data@.values),
            decreases count - m,
        {
            if data.sorted {
                return i;
            }
            proof {
                lemma_gathered_index(
                    prev,
                    place as int,
                    base as int,
                    key as int,
                    m as int,
                    base as int,
                );
            }
            data.set_active(i);
            data.set(i, bucket[m]);
            i += 1;
            m += 1;
            pause(data, sleep_time, pace);
        }
        key += 1;
    }
    i
}

/// Radix sort from the least significant digit: for each digit place of the values written in
/// `base`, from the lowest to the highest that any value has, the values are dealt out into
/// one bucket for each digit and written back bucket after bucket.
///
/// The sort looks whether it was told to stop before each value it writes back, and then
/// leaves the pass half done: the array then holds the part of the pass's result that was
/// written, and behind it what the pass had not overwritten, so that a value may stand twice
/// and another be missing.
/// An array that is not marked as running is left as it is.
pub fn radix_lsd<F: Fn(&DataArrWrapper, u128) -> bool>(
    data: &mut DataArrWrapper,
    sleep_time: u128,
    base: usize,
    pace: &F,
)
    requires
        2 <= base <= 36,
        accepts_len(pace, sleep_time, old(data)@.values.len()),
    ensures
        final(data)@.values.len() == old(data)@.values.len(),
        final(data)@.max_val == old(data)@.max_val,
        final(data)@.active_2 == old(data)@.active_2,
        final(data)@.pivot == old(data)@.pivot,
        old(data)@.markers_in_range() ==> final(data)@.markers_in_range(),
        !old(data)@.running() ==> final(data)@ == old(data)@,
        final(data)@.running() ==> rearranged(final(data)@.values, old(data)@.values)
            && ascending(final(data)@.values),
        old(data)@.running() && !final(data)@.running() ==> may_stop_at(
            pace,
            sleep_time,
            final(data)@.values,
        ) && stopped_in_pass(old(data)@.values, final(data)@.values, base as int),
{
    if !data.is_running() {
        return;
    }
    let ghost len: nat = data@.values.len();
    let largest_digits: usize = get_max_digits(data, base);
    proof {
        lemma_pow0(base as int);
        if len > 0 {
            let w = choose|w: int|
                0 <= w < len && digit_count(data@.values[w] as nat, base as nat)
                    == largest_digits;
            let x = data@.values[w];
            lemma_digit_count_bounds(x as nat, base as nat);
            assert forall|k: nat| k < largest_digits implies pow(base as int, k)
                <= usize::MAX by {
                if x >= 1 {
                    lemma_pow_increases(base as nat, k, (largest_digits - 1) as nat);
                }
            }
        }
    }
    let mut digit_num: usize = 0;
    while digit_num < largest_digits
        invariant
            digit_num <= largest_digits,
            2 <= base <= 36,
            len == data@.values.len(),
            len == old(data)@.values.len(),
            old(data)@.running(),
            data@.running(),
            accepts_len(pace, sleep_time, len as nat),
            forall|k: nat| k < largest_digits ==> pow(base as int, k) <= usize::MAX,
            rearranged(data@.values, old(data)@.values),
            ascending_mod(data@.values, pow(base as int, digit_num as nat)),
            data@.max_val == old(data)@.max_val,
            data@.active_2 == old(data)@.active_2,
            data@.pivot == old(data)@.pivot,
            data@.active matches Some(a) ==> a < len || data@.active == old(data)@.active,
        decreases largest_digits - digit_num,
    {
        proof {
            lemma_pow_positive(base as int, digit_num as nat);
        }
        let place: usize = power(base, digit_num);
        let buckets: Vec<Vec<usize>> = deal(data, place, base);
        let ghost prev = data@.values;
        let _written: usize = gather(data, &buckets, sleep_time, place, base, pace);
        if data.sorted {
            return;
        }
        proof {
            lemma_redistributed_rearranged(prev, place as int, base as int);
            lemma_redistributed_ascending(prev, place as int, base as int);
            assert(data@.values =~= redistributed(prev, place as int, base as int));
            reveal(pow);
            assert(place * base == base * place) by (nonlinear_arith);
        }
        digit_num += 1;
    }
    proof {
        let top = pow(base as int, largest_digits as nat);
        assert forall|i: int| 0 <= i < data@.values.len() implies (#[trigger] data@.values[i])
            < top by {
            lemma_rearranged_member(data@.values, old(data)@.values, i);
            let m = choose|m: int|
                0 <= m < old(data)@.values.len() && old(data)@.values[m] == data@.values[i];
            let v = old(data)@.values[m];
            lemma_digit_count_bounds(v as nat, base as nat);
            lemma_pow_increases(
                base as nat,
                digit_count(v as nat, base as nat),
                largest_digits as nat,
            );
        }
        lemma_ascending_mod_ascending(data@.values, top);
    }
}

} // verus!
