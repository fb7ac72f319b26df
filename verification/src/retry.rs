//! The retry engine: classification of attempt outcomes, the bounded retry
//! state machine, and a runner that replays a whole request over a recorded
//! sequence of attempt outcomes, firing the retry hooks of a pipeline.

use vstd::prelude::*;

use crate::error::ApiError;
use crate::plugin::{spec_dispatch, dispatch_post, HookEv, PluginEntry, PluginManager};

verus! {

/// The retry configuration of one logical request: how many retries may
/// follow the first attempt, and the fixed delay between attempts.
#[derive(Debug, Clone, Copy)]
pub struct RetryPolicy {
    pub max_retries: u32,
    pub retry_delay_ms: u64,
}

/// What the engine asks of its driver after one attempt: stop with the
/// final result, or fire the retry hooks, wait, and try again.
#[derive(Debug)]
pub enum RetryStep {
    Done(Result<String, ApiError>),
    Backoff { next_attempt: u32, delay_ms: u64 },
}

/// The bounded retry state machine. `attempt` is the zero-based index of
/// the attempt whose outcome is reported next; the total number of attempts
/// never exceeds `max_retries + 1`.
#[derive(Debug)]
pub struct RetryEngine {
    pub policy: RetryPolicy,
    pub attempt: u32,
}

impl RetryEngine {
    pub fn new(policy: RetryPolicy) -> (r: RetryEngine)
        ensures
            r.policy == policy,
            r.attempt == 0,
    {
        RetryEngine { policy, attempt: 0 }
    }

    /// Decides what follows one attempt: success and non-retryable failures
    /// end the request with that outcome; a retryable failure before the
    /// retry budget is spent asks the driver to back off and try again, with
    /// the upcoming attempt number and the configured delay.
    pub fn record_outcome(&mut self, outcome: Result<String, ApiError>) -> (r: RetryStep)
        requires
            old(self).attempt <= old(self).policy.max_retries,
            old(self).policy.max_retries < u32::MAX,
        ensures
            final(self).policy == old(self).policy,
            match outcome {
                Result::Ok(body) => {
                    &&& r == RetryStep::Done(Result::<String, ApiError>::Ok(body))
                    &&& final(self).attempt == old(self).attempt
                },
                Result::Err(e) => {
                    if e.spec_retryable() && old(self).attempt < old(self).policy.max_retries {
                        &&& r == (RetryStep::Backoff {
                            next_attempt: (old(self).attempt + 1) as u32,
                            delay_ms: old(self).policy.retry_delay_ms,
                        })
                        &&& final(self).attempt == old(self).attempt + 1
                    } else {
                        &&& r == RetryStep::Done(Result::<String, ApiError>::Err(e))
                        &&& final(self).attempt == old(self).attempt
                    }
                },
            },
    {
        match outcome {
            Ok(body) => RetryStep::Done(Ok(body)),
            Err(e) => {
                if e.is_retryable() && self.attempt < self.policy.max_retries {
                    self.attempt = self.attempt + 1;
                    RetryStep::Backoff {
                        next_attempt: self.attempt,
                        delay_ms: self.policy.retry_delay_ms,
                    }
                } else {
                    RetryStep::Done(Err(e))
                }
            },
        }
    }
}

/// How a replayed request ends, at the specification level: either the
/// engine finishes with the recorded outcome of its last attempt, or a
/// retry-hook dispatch fails first and aborts the run.
pub enum RetryEnd {
    Finished { attempts: int, result: Result<String, ApiError> },
    HookAborted { attempts: int, failing_attempt: u32 },
}

/// The meaning of a retried request from attempt index `k` on, over the
/// recorded outcomes: success or a terminal failure ends the run with that
/// outcome; a retryable failure within the budget fires the retry hooks for
/// the upcoming attempt and, when they pass, continues there.
pub open spec fn spec_retry_run(
    plugins: Seq<PluginEntry>,
    outcomes: Seq<Result<String, ApiError>>,
    max_retries: u32,
    k: int,
) -> RetryEnd
    decreases max_retries - k,
{
    if k < 0 || k > max_retries || k >= outcomes.len() {
        RetryEnd::Finished { attempts: 0, result: arbitrary() }
    } else {
        match outcomes[k] {
            Result::Ok(body) => RetryEnd::Finished {
                attempts: k + 1,
                result: Result::Ok(body),
            },
            Result::Err(e) => {
                if e.spec_retryable() && k < max_retries {
                    let next = (k + 1) as u32;
                    if spec_dispatch(plugins, HookEv::OnRetry { attempt: next }) is Some {
                        RetryEnd::HookAborted { attempts: k + 1, failing_attempt: next }
                    } else {
                        spec_retry_run(plugins, outcomes, max_retries, k + 1)
                    }
                } else {
                    RetryEnd::Finished { attempts: k + 1, result: Result::Err(e) }
                }
            },
        }
    }
}

/// The record of one replayed request: its final result, how many attempts
/// ran, and the attempt numbers for which the retry hooks were dispatched,
/// in order.
#[derive(Debug)]
pub struct RetryReport {
    pub result: Result<String, ApiError>,
    pub attempts: u32,
    pub retry_hook_attempts: Vec<u32>,
}

/// Replays one logical request over the recorded outcomes of its attempts,
/// consulting the pipeline's retry hooks before every attempt after the
/// first, exactly as `spec_retry_run` describes: at most `max_retries + 1`
/// attempts run, the result is the last attempt's outcome or the first
/// failing hook dispatch, and the hooks see attempt numbers 1, 2, ... in
/// order.
#[verifier::loop_isolation(false)]
pub fn run_with_retries(
    policy: &RetryPolicy,
    manager: &PluginManager,
    outcomes: Vec<Result<String, ApiError>>,
) -> (r: RetryReport)
    requires
        policy.max_retries < u32::MAX,
        outcomes@.len() >= policy.max_retries + 1,
    ensures
        r.attempts <= policy.max_retries + 1,
        ({
            let end = spec_retry_run(manager.plugins@, outcomes@, policy.max_retries, 0);
            match end {
                RetryEnd::Finished { attempts, result } => {
                    &&& r.attempts == attempts
                    &&& r.result == result
                    &&& r.retry_hook_attempts@.len() == attempts - 1
                    &&& forall|i: int|
                        0 <= i < attempts - 1 ==> r.retry_hook_attempts@[i] == i + 1
                },
                RetryEnd::HookAborted { attempts, failing_attempt } => {
                    &&& r.attempts == attempts
                    &&& failing_attempt == attempts
                    &&& r.retry_hook_attempts@.len() == attempts
                    &&& (forall|i: int|
                        0 <= i < attempts ==> r.retry_hook_attempts@[i] == i + 1)
                    &&& r.result matches Err(e) && dispatch_post(
                        manager.plugins@,
                        HookEv::OnRetry { attempt: failing_attempt },
                        Err(e),
                    )
                },
            }
        }),
{
    let ghost orig = outcomes@;
    let mut outcomes = outcomes;
    let mut attempt: u32 = 0;
    let mut hooks: Vec<u32> = Vec::new();
    loop
        invariant
            policy.max_retries < u32::MAX,
            orig.len() >= policy.max_retries + 1,
            attempt <= policy.max_retries,
            outcomes@ == orig.skip(attempt as int),
            hooks@.len() == attempt,
            forall|i: int| 0 <= i < attempt ==> hooks@[i] == i + 1,
            spec_retry_run(manager.plugins@, orig, policy.max_retries, 0) == spec_retry_run(
                manager.plugins@,
                orig,
                policy.max_retries,
                attempt as int,
            ),
        decreases policy.max_retries - attempt,
    {
        let outcome = outcomes.remove(0);
        assert(outcome == orig[attempt as int]);
        assert(outcomes@ =~= orig.skip(attempt as int + 1));
        match outcome {
            Ok(body) => {
                return RetryReport {
                    result: Ok(body),
                    attempts: attempt + 1,
                    retry_hook_attempts: hooks,
                };
            },
            Err(e) => {
                if e.is_retryable() && attempt < policy.max_retries {
                    let next = attempt + 1;
                    hooks.push(next);
                    match manager.execute_retry(next) {
                        Ok(()) => {
                            attempt = next;
                        },
                        Err(he) => {
                            return RetryReport {
                                result: Err(he),
                                attempts: next,
                                retry_hook_attempts: hooks,
                            };
                        },
                    }
                } else {
                    return RetryReport {
                        result: Err(e),
                        attempts: attempt + 1,
                        retry_hook_attempts: hooks,
                    };
                }
            },
        }
    }
}

/// Retry bound: when every recorded attempt fails with a retryable error
/// and every retry-hook dispatch passes, the run makes exactly
/// `max_retries + 1` attempts and ends with the error of the last one.
pub proof fn lemma_retry_bound(
    plugins: Seq<PluginEntry>,
    outcomes: Seq<Result<String, ApiError>>,
    max_retries: u32,
    k: int,
)
    requires
        outcomes.len() == max_retries + 1,
        forall|i: int|
            0 <= i < outcomes.len() ==> (#[trigger] outcomes[i] matches Err(e)
                && e.spec_retryable()),
        forall|attempt: u32|
            1 <= attempt <= max_retries ==> spec_dispatch(
                plugins,
                HookEv::OnRetry { attempt },
            ) is None,
        0 <= k <= max_retries,
    ensures
        spec_retry_run(plugins, outcomes, max_retries, k) == (RetryEnd::Finished {
            attempts: max_retries + 1 as int,
            result: outcomes.last(),
        }),
    decreases max_retries - k,
{
    assert(outcomes[k] matches Err(e) && e.spec_retryable());
    if k < max_retries {
        lemma_retry_bound(plugins, outcomes, max_retries, k + 1);
    }
}

/// Non-retry on terminal errors: a first attempt that fails with a
/// client-error status ends the run after exactly one attempt with that
/// error, whatever the retry budget.
pub proof fn lemma_client_error_stops_retries(
    plugins: Seq<PluginEntry>,
    outcomes: Seq<Result<String, ApiError>>,
    max_retries: u32,
)
    requires
        outcomes.len() >= 1,
        outcomes[0] matches Err(e) && e.spec_client_error(),
    ensures
        spec_retry_run(plugins, outcomes, max_retries, 0) == (RetryEnd::Finished {
            attempts: 1int,
            result: outcomes[0],
        }),
{
}

} // verus!
