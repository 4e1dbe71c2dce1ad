//! Planning of the transform length and of the resampling step.

use vstd::prelude::*;

use crate::error::FilterError;
use crate::BLOCK_SIZE;

verus! {

/// Whether `n` is a power of two.
pub open spec fn spec_is_pow2(n: nat) -> bool
    decreases n,
{
    if n == 0 {
        false
    } else if n == 1 {
        true
    } else {
        n % 2 == 0 && spec_is_pow2(n / 2)
    }
}

/// Of two distinct powers of two, the larger is at least twice the smaller.
pub proof fn lemma_pow2_ordering(a: nat, b: nat)
    requires
        spec_is_pow2(a),
        spec_is_pow2(b),
        a < b,
    ensures
        2 * a <= b,
    decreases b,
{
    if b > 1 {
        if a < b / 2 {
            lemma_pow2_ordering(a, b / 2);
        } else if a > b / 2 {
            lemma_pow2_ordering(b / 2, a);
        }
    }
}

/// A power of two `r` in the half-open band `[goal, 2 * goal)` is the least
/// power of two that reaches `goal`: no smaller power of two does.
pub proof fn lemma_least_pow2(r: nat, goal: nat)
    requires
        spec_is_pow2(r),
        goal <= r,
        r < 2 * goal,
    ensures
        forall|m: nat| spec_is_pow2(m) && goal <= m ==> r <= m,
{
    assert forall|m: nat| spec_is_pow2(m) && goal <= m implies r <= m by {
        if m < r {
            lemma_pow2_ordering(m, r);
        }
    }
}

/// Smallest power of two that holds one full convolution frame: at least
/// `hrir_samples + BLOCK_SIZE + 1`, so that the full linear convolution of
/// the impulse and one block fits with a guard sample to spare.
pub fn plan_fft_len(hrir_samples: usize) -> (r: usize)
    requires
        hrir_samples <= usize::MAX / 4,
    ensures
        spec_is_pow2(r as nat),
        hrir_samples + BLOCK_SIZE + 1 <= r,
        r < 2 * (hrir_samples + BLOCK_SIZE + 1),
{
    let goal: usize = hrir_samples + BLOCK_SIZE + 1;
    let mut m: usize = 64;
    proof {
        assert(spec_is_pow2(64nat)) by {
            reveal_with_fuel(spec_is_pow2, 8);
        }
    }
    while m < goal
        invariant
            1 <= m,
            spec_is_pow2(m as nat),
            goal == hrir_samples + BLOCK_SIZE + 1,
            hrir_samples <= usize::MAX / 4,
            m < 2 * goal,
        decreases 2 * goal - m,
    {
        proof {
            assert((2 * m) as nat % 2 == 0 && (2 * m) as nat / 2 == m as nat);
            assert(spec_is_pow2((2 * m) as nat));
        }
        m = m * 2;
    }
    m
}

/// Which sample rate a filter built from a recording at `source_rate` runs
/// at: the requested target rate where one is given and a resampler is on
/// hand, the source rate where no target is requested, and a construction
/// error where a target rate is requested of a build without a resampler.
pub fn plan_resampling(source_rate: usize, target_rate: Option<usize>, resampler_available: bool)
    -> (r: Result<usize, FilterError>)
    ensures
        target_rate is None ==> r == Ok::<usize, FilterError>(source_rate),
        target_rate matches Some(t) ==> r == (if resampler_available {
            Ok::<usize, FilterError>(t)
        } else {
            Err::<usize, FilterError>(FilterError::ResamplingUnavailable)
        }),
{
    match target_rate {
        None => Ok(source_rate),
        Some(t) => {
            if resampler_available {
                Ok(t)
            } else {
                Err(FilterError::ResamplingUnavailable)
            }
        },
    }
}

} // verus!
