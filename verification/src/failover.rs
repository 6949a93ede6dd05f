//! Fail-over: the origins are tried once each, in the order given, until one
//! serves the request.

use vstd::prelude::*;
use crate::error::PullError;
use crate::origins::OriginError;

verus! {

/// What to do next about one request.
#[derive(Clone, Copy, Debug, PartialEq, Eq, Structural)]
pub enum Attempt {
    /// Ask the origin at this index.
    Try(usize),
    /// The origin at this index served the request.
    Settled(usize),
    /// No origin served it; the error is the last one seen.
    GiveUp(PullError),
}

/// The first step: the first origin, if there is one.
pub open spec fn first_attempt_spec(origins: nat) -> Attempt {
    if origins == 0 {
        Attempt::GiveUp(PullError::Configuration(OriginError::NoOrigins))
    } else {
        Attempt::Try(0)
    }
}

/// The step after origin `at` answered with `outcome`: a success settles the
/// request; a failure of the origin's own moves on to the next origin, if
/// there is one; any other failure, and the last origin's, ends it.
pub open spec fn next_attempt_spec(origins: nat, at: nat, outcome: Result<(), PullError>) -> Attempt {
    match outcome {
        Ok(_) => Attempt::Settled(at as usize),
        Err(e) => if e.retryable() && at + 1 < origins {
            Attempt::Try((at + 1) as usize)
        } else {
            Attempt::GiveUp(e)
        },
    }
}

/// How a request ends when it is at origin `at` and origin `i` would answer
/// with `outcomes[i]`.
pub open spec fn resolve(outcomes: Seq<Result<(), PullError>>, at: nat) -> Attempt
    decreases outcomes.len() - at,
{
    if at >= outcomes.len() || outcomes.len() > usize::MAX {
        first_attempt_spec(0)
    } else {
        match next_attempt_spec(outcomes.len(), at, outcomes[at as int]) {
            Attempt::Try(next) => resolve(outcomes, (at + 1) as nat),
            end => end,
        }
    }
}

/// How many origins are asked under the same conditions.
pub open spec fn requests(outcomes: Seq<Result<(), PullError>>, at: nat) -> nat
    decreases outcomes.len() - at,
{
    if at >= outcomes.len() || outcomes.len() > usize::MAX {
        0
    } else {
        match next_attempt_spec(outcomes.len(), at, outcomes[at as int]) {
            Attempt::Try(next) => 1 + requests(outcomes, (at + 1) as nat),
            end => 1,
        }
    }
}

/// Where every origin before origin `k` fails on its own account and origin
/// `k` succeeds, the request is settled by origin `k`, and no origin after it
/// is asked: counted from origin `at`, `k - at + 1` requests are made.
pub proof fn lemma_first_success_settles(outcomes: Seq<Result<(), PullError>>, at: nat, k: nat)
    requires
        at <= k < outcomes.len() <= usize::MAX,
        outcomes[k as int] is Ok,
        forall|i: int| at <= i < k ==> outcomes[i] is Err && outcomes[i]->Err_0.retryable(),
    ensures
        resolve(outcomes, at) == Attempt::Settled(k as usize),
        requests(outcomes, at) == k - at + 1,
    decreases k - at,
{
    if at < k {
        assert(outcomes[at as int] is Err && outcomes[at as int]->Err_0.retryable());
        lemma_first_success_settles(outcomes, at + 1, k);
    }
}

/// Where every origin fails on its own account, every origin is asked once
/// and the request ends with the last origin's error.
pub proof fn lemma_all_fail_gives_up(outcomes: Seq<Result<(), PullError>>, at: nat)
    requires
        at < outcomes.len() <= usize::MAX,
        forall|i: int| at <= i < outcomes.len() ==> outcomes[i] is Err && outcomes[i]->Err_0.retryable(),
    ensures
        resolve(outcomes, at) == Attempt::GiveUp(outcomes.last()->Err_0),
        requests(outcomes, at) == outcomes.len() - at,
    decreases outcomes.len() - at,
{
    assert(outcomes[at as int] is Err && outcomes[at as int]->Err_0.retryable());
    if at + 1 < outcomes.len() {
        lemma_all_fail_gives_up(outcomes, at + 1);
    }
}

/// A failure that is not the origin's own ends the request at once: the
/// origins after it are not asked.
pub proof fn lemma_hard_failure_stops(outcomes: Seq<Result<(), PullError>>, at: nat)
    requires
        at < outcomes.len() <= usize::MAX,
        outcomes[at as int] is Err,
        !outcomes[at as int]->Err_0.retryable(),
    ensures
        resolve(outcomes, at) == Attempt::GiveUp(outcomes[at as int]->Err_0),
        requests(outcomes, at) == 1,
{
}

/// Begins a request over `origins` origins.
pub fn first_attempt(origins: usize) -> (r: Attempt)
    ensures
        r == first_attempt_spec(origins as nat),
{
    if origins == 0 {
        Attempt::GiveUp(PullError::Configuration(OriginError::NoOrigins))
    } else {
        Attempt::Try(0)
    }
}

/// Decides what follows the answer of origin `at`.
pub fn next_attempt(origins: usize, at: usize, outcome: Result<(), PullError>) -> (r: Attempt)
    ensures
        r == next_attempt_spec(origins as nat, at as nat, outcome),
{
    match outcome {
        Ok(_) => Attempt::Settled(at),
        Err(e) => {
            if e.is_retryable() && at < origins && at + 1 < origins {
                Attempt::Try(at + 1)
            } else {
                Attempt::GiveUp(e)
            }
        },
    }
}

} // verus!
