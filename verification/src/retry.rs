//! The retry governor: classification-based retry with linear backoff.
//!
//! The governor never performs the outside work itself. Its decision logic is
//! a pure function from the policy, the count of retries already made and the
//! failure just seen to the next step — retry after a delay, or give up. The
//! surrounding application drives its fallible asynchronous action with
//! [`RetryPolicy::next_decision`]; [`run_script`] runs the same logic over a
//! pre-recorded sequence of outcomes, which is what the governor's laws and
//! tests exercise.
//!
//! An action driven this way must be safe to invoke more than once:
//! at-least-once semantics, not exactly-once. That is a caller contract the
//! governor cannot check.

use vstd::prelude::*;
use crate::error::{spec_classify, ErrorClass, StoreError};

verus! {

/// How failures are retried: at most `max_retries` re-attempts after the
/// initial attempt, the `k`-th re-attempt waiting `k * base_delay_ms`.
#[derive(Clone, Copy, Debug, PartialEq, Eq, Structural)]
pub struct RetryPolicy {
    /// The upper bound on retry attempts after the initial attempt.
    pub max_retries: u32,
    /// The unit of linear backoff, in milliseconds.
    pub base_delay_ms: u64,
}

/// What the governor does after a failure.
#[derive(Clone, Copy, Debug, PartialEq, Eq, Structural)]
pub enum RetryDecision {
    /// Invoke the action again after this delay.
    RetryAfterMs { delay_ms: u64 },
    /// Surface the failure to the caller.
    GiveUp,
}

/// The backoff before the `attempt`-th re-attempt (1-indexed): linear in the
/// attempt number, saturating at the largest representable delay.
pub open spec fn spec_backoff_ms(p: RetryPolicy, attempt: int) -> u64 {
    if p.base_delay_ms * attempt <= u64::MAX {
        (p.base_delay_ms * attempt) as u64
    } else {
        u64::MAX
    }
}

/// The decision after one more failure, `retries_made` retries in: retry
/// exactly when the failure is retryable and the budget is not exhausted.
pub open spec fn spec_next_decision(p: RetryPolicy, retries_made: u32, e: StoreError)
    -> RetryDecision {
    if retries_made < p.max_retries && spec_classify(e) == ErrorClass::Retryable {
        RetryDecision::RetryAfterMs { delay_ms: spec_backoff_ms(p, retries_made + 1) }
    } else {
        RetryDecision::GiveUp
    }
}

impl RetryPolicy {
    /// The backoff before the `attempt`-th re-attempt.
    pub fn backoff_ms(&self, attempt: u32) -> (d: u64)
        ensures
            d == spec_backoff_ms(*self, attempt as int),
    {
        match self.base_delay_ms.checked_mul(attempt as u64) {
            Some(d) => d,
            None => u64::MAX,
        }
    }

    /// Decide what to do after one more failure, `retries_made` retries in.
    pub fn next_decision(&self, retries_made: u32, error: &StoreError) -> (d: RetryDecision)
        ensures
            d == spec_next_decision(*self, retries_made, *error),
    {
        if retries_made < self.max_retries && error.is_retryable() {
            RetryDecision::RetryAfterMs { delay_ms: self.backoff_ms(retries_made + 1) }
        } else {
            RetryDecision::GiveUp
        }
    }
}

/// One pre-recorded outcome of invoking an action.
#[derive(Clone, Copy, Debug, PartialEq, Eq, Structural)]
pub enum StepOutcome {
    /// The action succeeded with this value.
    Success { value: u64 },
    /// The action failed with this error.
    Failure { error: StoreError },
}

/// How a governed execution ended. `attempts` counts invocations of the
/// action, so it distinguishes "exhausted retries" from "fatal, no retry
/// attempted" while preserving the terminal cause.
#[derive(Clone, Copy, Debug, PartialEq, Eq, Structural)]
pub enum RetryOutcome {
    /// The action succeeded after `attempts` invocations.
    Success { value: u64, attempts: u64 },
    /// Every allowed attempt failed retryably; `last` is the final error.
    Exhausted { last: StoreError, attempts: u64 },
    /// A fatal failure stopped the execution at invocation `attempts`.
    Fatal { error: StoreError, attempts: u64 },
}

/// The governed execution over a script of outcomes, `retries_made` retries
/// in: stop on the first success or fatal failure, retry retryable failures
/// while the budget lasts, and report `None` only if the script itself runs
/// out.
pub open spec fn spec_run_from(p: RetryPolicy, script: Seq<StepOutcome>, retries_made: u32)
    -> Option<RetryOutcome>
    decreases script.len(),
{
    if script.len() == 0 {
        None
    } else {
        match script[0] {
            StepOutcome::Success { value } => Some(
                RetryOutcome::Success { value, attempts: (retries_made + 1) as u64 },
            ),
            StepOutcome::Failure { error } => {
                if spec_classify(error) != ErrorClass::Retryable {
                    Some(RetryOutcome::Fatal { error, attempts: (retries_made + 1) as u64 })
                } else if retries_made < p.max_retries {
                    spec_run_from(p, script.drop_first(), (retries_made + 1) as u32)
                } else {
                    Some(RetryOutcome::Exhausted { last: error, attempts: (retries_made + 1) as u64 })
                }
            },
        }
    }
}

/// The governed execution over a script of outcomes, from the start.
pub open spec fn spec_run(p: RetryPolicy, script: Seq<StepOutcome>) -> Option<RetryOutcome> {
    spec_run_from(p, script, 0)
}

/// Run the governor over a pre-recorded script of outcomes.
///
/// The script must hold an outcome for every attempt the policy can make —
/// `max_retries + 1` of them always suffice — and the result is exactly
/// [`spec_run`] of the script.
pub fn run_script(p: &RetryPolicy, script: &Vec<StepOutcome>) -> (r: RetryOutcome)
    requires
        script@.len() > p.max_retries as int,
    ensures
        Some(r) == spec_run(*p, script@),
{
    let mut retries_made: u32 = 0;
    proof {
        assert(script@.skip(0) =~= script@);
    }
    loop
        invariant
            script@.len() > p.max_retries as int,
            0 <= retries_made <= p.max_retries,
            retries_made < script@.len(),
            spec_run(*p, script@) == spec_run_from(
                *p,
                script@.skip(retries_made as int),
                retries_made,
            ),
        decreases p.max_retries - retries_made,
    {
        let idx: usize = retries_made as usize;
        proof {
            assert(script@.skip(retries_made as int)[0] == script@[retries_made as int]);
        }
        match script[idx] {
            StepOutcome::Success { value } => {
                return RetryOutcome::Success { value, attempts: retries_made as u64 + 1 };
            },
            StepOutcome::Failure { error } => {
                match p.next_decision(retries_made, &error) {
                    RetryDecision::RetryAfterMs { delay_ms } => {
                        proof {
                            assert(script@.skip(retries_made as int).drop_first() =~= script@.skip(
                                retries_made as int + 1,
                            ));
                        }
                        retries_made = retries_made + 1;
                    },
                    RetryDecision::GiveUp => {
                        if error.is_retryable() {
                            return RetryOutcome::Exhausted {
                                last: error,
                                attempts: retries_made as u64 + 1,
                            };
                        } else {
                            return RetryOutcome::Fatal {
                                error,
                                attempts: retries_made as u64 + 1,
                            };
                        }
                    },
                }
            },
        }
    }
}

/// The governor returns the success value: if an action fails retryably
/// exactly `r` times and then succeeds, and the policy allows at least `r`
/// retries, the execution ends in success and the action was invoked exactly
/// `r + 1` times.
pub proof fn lemma_retry_success_after_r(p: RetryPolicy, script: Seq<StepOutcome>, r: int, v: u64)
    requires
        0 <= r <= p.max_retries as int,
        r < script.len(),
        forall|j: int| 0 <= j < r ==> ((#[trigger] script[j]) matches StepOutcome::Failure {
            error,
        } && spec_classify(error) == ErrorClass::Retryable),
        script[r] == (StepOutcome::Success { value: v }),
    ensures
        spec_run(p, script) == Some(RetryOutcome::Success { value: v, attempts: (r + 1) as u64 }),
{
    lemma_retry_success_from(p, script, r, v, 0);
}

/// Helper for [`lemma_retry_success_after_r`], generalized over the retries
/// already made.
proof fn lemma_retry_success_from(
    p: RetryPolicy,
    script: Seq<StepOutcome>,
    r: int,
    v: u64,
    m: u32,
)
    requires
        0 <= r,
        m as int + r <= p.max_retries as int,
        r < script.len(),
        forall|j: int| 0 <= j < r ==> ((#[trigger] script[j]) matches StepOutcome::Failure {
            error,
        } && spec_classify(error) == ErrorClass::Retryable),
        script[r] == (StepOutcome::Success { value: v }),
    ensures
        spec_run_from(p, script, m) == Some(
            RetryOutcome::Success { value: v, attempts: (m + r + 1) as u64 },
        ),
    decreases r,
{
    if r == 0 {
    } else {
        let tail = script.drop_first();
        assert(forall|j: int| 0 <= j < r - 1 ==> #[trigger] tail[j] == script[j + 1]);
        assert(tail[r - 1] == script[r]);
        lemma_retry_success_from(p, tail, r - 1, v, (m + 1) as u32);
    }
}

/// The governor never retries a fatal failure: if the first outcome is a
/// failure classified fatal, the execution ends with exactly that error after
/// exactly one invocation of the action, whatever the policy.
pub proof fn lemma_retry_fatal_first(p: RetryPolicy, script: Seq<StepOutcome>, e: StoreError)
    requires
        script.len() > 0,
        script[0] == (StepOutcome::Failure { error: e }),
        spec_classify(e) == ErrorClass::Fatal,
    ensures
        spec_run(p, script) == Some(RetryOutcome::Fatal { error: e, attempts: 1 }),
{
}

} // verus!