//! Reconnect policy for dropped streams. Exponential backoff, capped attempts, and a reset
//! once playback has been stable long enough that the next drop should count as a new
//! incident rather than a continuation of the last one.

use vstd::arithmetic::power2::pow2;
use vstd::prelude::*;

use crate::time::{secs, Duration};

verus! {

pub const MAX_ATTEMPTS: u32 = 5;

/// Playing continuously for this long resets the attempt counter.
pub const STABLE_AFTER_SECS: u64 = 30;

#[derive(Debug, Clone, Copy, PartialEq, Eq, Structural)]
pub struct Backoff {
    /// Attempts made since the last reset.
    pub attempt: u32,
}

/// The delay before an attempt, counted from 1: a second, doubled for each attempt before it.
pub open spec fn delay_before(attempt: u32) -> Duration {
    secs(pow2((attempt - 1) as nat))
}

impl Default for Backoff {
    fn default() -> (b: Backoff)
        ensures
            b.attempt == 0,
    {
        Backoff { attempt: 0 }
    }
}

impl Backoff {
    /// The delay before the next attempt, or `None` when attempts are exhausted. The attempt
    /// number is 1-based, for display.
    pub fn next(&mut self) -> (r: Option<(u32, Duration)>)
        ensures
            old(self).attempt < MAX_ATTEMPTS ==> {
                &&& final(self).attempt == old(self).attempt + 1
                &&& r == Some((final(self).attempt, delay_before(final(self).attempt)))
            },
            old(self).attempt >= MAX_ATTEMPTS ==> r is None && *final(self) == *old(self),
    {
        if self.attempt >= MAX_ATTEMPTS {
            return None;
        }
        let s: u64 = match self.attempt {
            0 => 1,
            1 => 2,
            2 => 4,
            3 => 8,
            _ => 16,
        };
        self.attempt = self.attempt + 1;
        proof {
            vstd::arithmetic::power2::lemma2_to64();
        }
        Some((self.attempt, Duration::from_secs(s)))
    }

    pub fn reset(&mut self)
        ensures
            final(self).attempt == 0,
    {
        self.attempt = 0;
    }

    pub fn attempt(&self) -> (n: u32)
        ensures
            n == self.attempt,
    {
        self.attempt
    }
}

/// What a run of calls of `next` gives, from `attempt` attempts on.
pub open spec fn delays_from(attempt: u32) -> Seq<Duration>
    decreases MAX_ATTEMPTS - attempt,
{
    if attempt < MAX_ATTEMPTS {
        seq![delay_before((attempt + 1) as u32)] + delays_from((attempt + 1) as u32)
    } else {
        Seq::empty()
    }
}

/// From a reset on there are five attempts, after 1, 2, 4, 8 and 16 seconds, and no sixth.
pub proof fn five_attempts_double_the_wait()
    ensures
        delays_from(0) == seq![secs(1), secs(2), secs(4), secs(8), secs(16)],
{
    vstd::arithmetic::power2::lemma2_to64();
    reveal_with_fuel(delays_from, 6);
    assert(delays_from(0) =~= seq![secs(1), secs(2), secs(4), secs(8), secs(16)]);
}

} // verus!
