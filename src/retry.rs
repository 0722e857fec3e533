use vstd::prelude::*;

verus! {

/// The total time, in milliseconds, that a retried operation may take.
pub const MAX_DURATION_MS: u64 = 30000;

/// The longest single wait between attempts, in milliseconds.
pub const CLAMP_BACKOFF_MS: u64 = 1000;

/// The first wait between attempts, in milliseconds.
pub const INITIAL_BACKOFF_MS: u64 = 125;

/// What to do after a failed attempt.
#[derive(Debug, Clone, Copy, PartialEq, Eq, Structural)]
pub enum RetryAction {
    /// Wait this many milliseconds, then try again.
    Retry { sleep_ms: u64 },
    /// The budget is spent: report the last error.
    GiveUp,
}

/// Bounded exponential backoff: waits double from the initial one up to the
/// clamp, and all attempts and waits together stay within the total budget.
#[derive(Debug, Clone, Copy, PartialEq, Eq, Structural)]
pub struct Retry {
    /// The next wait, in milliseconds.
    pub backoff_ms: u64,
    /// The time spent so far, in milliseconds.
    pub elapsed_ms: u64,
}

impl Retry {
    pub open spec fn wf(&self) -> bool {
        &&& 1 <= self.backoff_ms <= CLAMP_BACKOFF_MS
        &&& self.elapsed_ms <= MAX_DURATION_MS
    }

    /// A fresh budget.
    pub fn new() -> (r: Retry)
        ensures
            r.wf(),
            r.backoff_ms == INITIAL_BACKOFF_MS,
            r.elapsed_ms == 0,
    {
        Retry { backoff_ms: INITIAL_BACKOFF_MS, elapsed_ms: 0 }
    }

    /// Decides what follows an attempt that failed after `attempt_ms`
    /// milliseconds: give up once the budget is spent, otherwise wait the
    /// current backoff (cut short at the end of the budget) and double it, up
    /// to the clamp.
    pub fn on_failure(&mut self, attempt_ms: u64) -> (r: RetryAction)
        requires
            old(self).wf(),
        ensures
            final(self).wf(),
            ({
                let spent = old(self).elapsed_ms + attempt_ms;
                if spent >= MAX_DURATION_MS {
                    r == RetryAction::GiveUp && final(self).elapsed_ms == MAX_DURATION_MS
                } else {
                    let sleep = if old(self).backoff_ms <= MAX_DURATION_MS - spent {
                        old(self).backoff_ms as int
                    } else {
                        MAX_DURATION_MS - spent
                    };
                    &&& r == RetryAction::Retry { sleep_ms: sleep as u64 }
                    &&& final(self).elapsed_ms == spent + sleep
                    &&& final(self).backoff_ms == if 2 * old(self).backoff_ms <= CLAMP_BACKOFF_MS {
                        2 * old(self).backoff_ms
                    } else {
                        CLAMP_BACKOFF_MS as int
                    }
                }
            }),
    {
        if attempt_ms >= MAX_DURATION_MS - self.elapsed_ms {
            self.elapsed_ms = MAX_DURATION_MS;
            return RetryAction::GiveUp;
        }
        let spent = self.elapsed_ms + attempt_ms;
        let sleep = if self.backoff_ms <= MAX_DURATION_MS - spent {
            self.backoff_ms
        } else {
            MAX_DURATION_MS - spent
        };
        self.elapsed_ms = spent + sleep;
        self.backoff_ms = if self.backoff_ms <= CLAMP_BACKOFF_MS / 2 {
            2 * self.backoff_ms
        } else {
            CLAMP_BACKOFF_MS
        };
        RetryAction::Retry { sleep_ms: sleep }
    }
}

/// The retry budget is bounded: every retry waits between 1 ms and the clamp
/// and moves the time spent strictly forward, never past the budget, so after
/// at most as many failures as the budget has milliseconds the policy gives
/// up.
pub proof fn lemma_retry_bounded(r: Retry, attempt_ms: u64, sleep_ms: u64, after: Retry)
    requires
        r.wf(),
        after.wf(),
        r.elapsed_ms + attempt_ms < MAX_DURATION_MS,
        sleep_ms == if r.backoff_ms <= MAX_DURATION_MS - (r.elapsed_ms + attempt_ms) {
            r.backoff_ms as int
        } else {
            MAX_DURATION_MS - (r.elapsed_ms + attempt_ms)
        },
        after.elapsed_ms == r.elapsed_ms + attempt_ms + sleep_ms,
    ensures
        1 <= sleep_ms <= CLAMP_BACKOFF_MS,
        r.elapsed_ms < after.elapsed_ms <= MAX_DURATION_MS,
{
}

} // verus!
