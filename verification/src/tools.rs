use vstd::arithmetic::power::{lemma_pow0, lemma_pow_increases, lemma_pow_positive, pow};
use vstd::prelude::*;

verus! {

/// `base` to the power `exp`, where that fits.
pub fn checked_power(base: usize, exp: usize) -> (r: Option<usize>)
    requires
        base >= 1,
    ensures
        r == if pow(base as int, exp as nat) <= usize::MAX {
            Some(pow(base as int, exp as nat) as usize)
        } else {
            None
        },
{
    let mut p: usize = 1;
    let mut k: usize = 0;
    proof {
        lemma_pow0(base as int);
    }
    while k < exp
        invariant
            k <= exp,
            base >= 1,
            p == pow(base as int, k as nat),
        decreases exp - k,
    {
        proof {
            reveal(pow);
            lemma_pow_increases(base as nat, (k + 1) as nat, exp as nat);
            assert(p * base == base * p) by (nonlinear_arith);
        }
        match p.checked_mul(base) {
            Some(next) => {
                p = next;
            },
            None => {
                return None;
            },
        }
        k += 1;
    }
    Some(p)
}

/// `base` to the power `exp`.
pub fn power(base: usize, exp: usize) -> (p: usize)
    requires
        base >= 1,
        pow(base as int, exp as nat) <= usize::MAX,
    ensures
        p == pow(base as int, exp as nat),
{
    proof {
        lemma_pow_positive(base as int, exp as nat);
    }
    match checked_power(base, exp) {
        Some(p) => p,
        None => 0,
    }
}

/// A power of two is greater than its exponent.
pub proof fn lemma_pow2_exceeds(e: nat)
    ensures
        pow(2, e) > e,
    decreases e,
{
    reveal(pow);
    if e > 0 {
        lemma_pow2_exceeds((e - 1) as nat);
    }
}

} // verus!
