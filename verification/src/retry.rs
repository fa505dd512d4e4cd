//! Jittered exponential backoff: each failure widens the window the next
//! delay is sampled from, and a long successful uptime resets it.
use vstd::prelude::*;

verus! {

use vstd::arithmetic::power2::{pow2, lemma_pow2_strictly_increases, lemma2_to64, lemma2_to64_rest};
use vstd::bits::{lemma_u64_shl_is_mul, lemma_u64_pow2_no_overflow};

/// Relies on `rand::Rng::gen_range` over `rand::thread_rng`: the result is
/// sampled from the inclusive range `lo..=hi`. Nothing more is claimed of a
/// random value than its bounds.
#[verifier::external_body]
fn random_in_range(lo: u64, hi: u64) -> (r: u64)
    requires
        lo <= hi,
    ensures
        lo <= r <= hi,
{
    rand::Rng::gen_range(&mut rand::thread_rng(), lo..=hi)
}

/// The default backoff window: one second up to five minutes.
pub const RETRY_MIN_SECS: u64 = 1;

pub const RETRY_MAX_SECS: u64 = 300;

/// Retry policy: the `k`-th delay (counting from `i == 0`) is sampled
/// uniformly from `[min_secs, (1 << i) * multiplier]`, clamped to
/// `[min_secs, max_secs]`.
#[derive(Debug)]
pub struct WaitExponentialRandom {
    pub min_secs: u64,
    pub max_secs: u64,
    pub i: u64,
    pub multiplier: u64,
}

#[derive(Debug)]
pub struct WaitExponentialRandomBuilder {
    pub inner: WaitExponentialRandom,
}

impl WaitExponentialRandomBuilder {
    pub fn build(self) -> (r: WaitExponentialRandom)
        ensures
            r == self.inner,
    {
        self.inner
    }

    pub fn min(self, secs: u64) -> (r: Self)
        ensures
            r.inner == (WaitExponentialRandom { min_secs: secs, ..self.inner }),
    {
        WaitExponentialRandomBuilder { inner: WaitExponentialRandom { min_secs: secs, ..self.inner } }
    }

    pub fn max(self, secs: u64) -> (r: Self)
        ensures
            r.inner == (WaitExponentialRandom { max_secs: secs, ..self.inner }),
    {
        WaitExponentialRandomBuilder { inner: WaitExponentialRandom { max_secs: secs, ..self.inner } }
    }

    pub fn multiplier(self, mul: u64) -> (r: Self)
        ensures
            r.inner == (WaitExponentialRandom { multiplier: mul, ..self.inner }),
    {
        WaitExponentialRandomBuilder { inner: WaitExponentialRandom { multiplier: mul, ..self.inner } }
    }
}

impl WaitExponentialRandom {
    /// The exponential window for attempt index `i`: `(1 << i) * multiplier`,
    /// as an unbounded integer.
    pub open spec fn raw_window(self) -> int {
        pow2(self.i as nat) * self.multiplier
    }

    /// The inclusive upper bound of a sampled delay: the exponential window
    /// clamped to `max_secs`, but never below `min_secs`.
    pub open spec fn window_upper(self) -> int {
        let capped = if self.raw_window() > self.max_secs { self.max_secs as int } else { self.raw_window() };
        if capped < self.min_secs { self.min_secs as int } else { capped }
    }

    pub open spec fn spec_min(self) -> int {
        self.min_secs as int
    }

    /// A builder starting from the policy's defaults: delays between one
    /// second and five minutes, multiplier one, at the first attempt.
    pub fn builder() -> (r: WaitExponentialRandomBuilder)
        ensures
            r.inner.min_secs == RETRY_MIN_SECS,
            r.inner.max_secs == RETRY_MAX_SECS,
            r.inner.i == 0,
            r.inner.multiplier == 1,
    {
        WaitExponentialRandomBuilder {
            inner: WaitExponentialRandom {
                min_secs: RETRY_MIN_SECS,
                max_secs: RETRY_MAX_SECS,
                i: 0,
                multiplier: 1,
            },
        }
    }

    /// How many delays have been consumed since the last reset.
    pub fn count(&self) -> (r: u64)
        ensures
            r == self.i,
    {
        self.i
    }

    /// The exponential window saturated to `u64::MAX`.
    fn saturated_window(&self) -> (r: u64)
        ensures
            r == if self.raw_window() > u64::MAX { u64::MAX as int } else { self.raw_window() },
    {
        if self.multiplier == 0 {
            assert(self.raw_window() == 0) by {
                vstd::arithmetic::mul::lemma_mul_basics(pow2(self.i as nat) as int);
            }
            0
        } else if self.i >= 64 {
            proof {
                lemma2_to64();
                lemma2_to64_rest();
                if self.i > 64 {
                    lemma_pow2_strictly_increases(64, self.i as nat);
                }
                assert(pow2(64) * 1 <= pow2(self.i as nat) * self.multiplier) by (nonlinear_arith)
                    requires
                        pow2(64) <= pow2(self.i as nat),
                        self.multiplier >= 1,
                ;
            }
            u64::MAX
        } else {
            proof {
                lemma_u64_pow2_no_overflow(self.i as nat);
                lemma_u64_shl_is_mul(1u64, self.i);
            }
            let p: u64 = 1u64 << self.i;
            match p.checked_mul(self.multiplier) {
                Some(v) => v,
                None => u64::MAX,
            }
        }
    }

    /// Sample the next delay, in whole seconds: at least `min_secs`, at most
    /// the exponential window for the current attempt index clamped to
    /// `max_secs` (the bound never drops below `min_secs`).
    pub fn next_delay(&self) -> (r: u64)
        ensures
            self.spec_min() <= r <= self.window_upper(),
    {
        let raw = self.saturated_window();
        let capped: u64 = if raw > self.max_secs { self.max_secs } else { raw };
        let hi: u64 = if capped < self.min_secs { self.min_secs } else { capped };
        random_in_range(self.min_secs, hi)
    }

    /// Move to the next attempt index, widening the window of the next delay.
    pub fn advance(&mut self)
        ensures
            final(self).i == if old(self).i < u64::MAX { old(self).i + 1 } else { u64::MAX as int },
            final(self).min_secs == old(self).min_secs,
            final(self).max_secs == old(self).max_secs,
            final(self).multiplier == old(self).multiplier,
    {
        if self.i < u64::MAX {
            self.i = self.i + 1;
        }
    }

    /// Forget accumulated failures: the next delay is sampled at index 0.
    pub fn reset(&mut self)
        ensures
            final(self).i == 0,
            final(self).min_secs == old(self).min_secs,
            final(self).max_secs == old(self).max_secs,
            final(self).multiplier == old(self).multiplier,
    {
        self.i = 0;
    }
}

} // verus!
