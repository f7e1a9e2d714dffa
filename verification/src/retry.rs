//! A bounded retry wrapper: a fallible operation is invoked up to a given
//! number of times plus one, the first success is kept, and the error
//! channel is collapsed to a fixed sentinel.

use vstd::prelude::*;

verus! {

/// The sentinel every exhausted retry collapses its failures to.
#[derive(Clone, Copy, Debug, PartialEq, Eq, Structural)]
pub struct RetryError;

/// A fallible operation a retry loop may invoke repeatedly. Absence stands
/// for failure, so operations shaped like `Result` and like `Option` both
/// fit, by mapping the error to `None`.
pub trait RetryOp<T>: Sized {
    /// What the next invocation returns.
    spec fn next_outcome(&self) -> Option<T>;

    /// The operation's state after one invocation.
    spec fn advanced(&self) -> Self;

    /// Invoke the operation once.
    fn attempt(&mut self) -> (r: Option<T>)
        ensures
            r == old(self).next_outcome(),
            *final(self) == old(self).advanced(),
    ;
}

/// What a retry with the given number of invocations returns: the first
/// success within `tries` invocations of `op`, else the sentinel.
pub open spec fn retry_outcome<T, F: RetryOp<T>>(op: F, tries: nat) -> Result<T, RetryError>
    decreases tries,
{
    if tries == 0 {
        Err(RetryError)
    } else {
        match op.next_outcome() {
            Some(v) => Ok(v),
            None => retry_outcome(op.advanced(), (tries - 1) as nat),
        }
    }
}

/// The operation's state once a retry with the given number of invocations
/// has run: advanced once per failed invocation, and once more for the
/// succeeding one.
pub open spec fn retry_consumed<T, F: RetryOp<T>>(op: F, tries: nat) -> F
    decreases tries,
{
    if tries == 0 {
        op
    } else {
        match op.next_outcome() {
            Some(_) => op.advanced(),
            None => retry_consumed(op.advanced(), (tries - 1) as nat),
        }
    }
}

/// Invoke `op` until it succeeds, at most `retries + 1` times. The first
/// success is returned; if every invocation fails the result is the
/// `RetryError` sentinel. The operation is left exactly as many invocations
/// ahead as were made. Side effects of failed invocations are not
/// compensated, so retrying is only safe for idempotent operations.
#[verifier::loop_isolation(false)]
pub fn retry<T, F: RetryOp<T>>(op: &mut F, retries: u64) -> (r: Result<T, RetryError>)
    ensures
        r == retry_outcome(*old(op), retries as nat + 1),
        *final(op) == retry_consumed(*old(op), retries as nat + 1),
{
    let mut tries: u64 = 0;
    loop
        invariant
            tries <= retries,
            retry_outcome(*old(op), retries as nat + 1) == retry_outcome(
                *op,
                (retries - tries) as nat + 1,
            ),
            retry_consumed(*old(op), retries as nat + 1) == retry_consumed(
                *op,
                (retries - tries) as nat + 1,
            ),
        decreases retries - tries,
    {
        let ghost op0 = *op;
        match op.attempt() {
            Some(v) => {
                return Ok(v);
            },
            None => {
                if tries < retries {
                    tries = tries + 1;
                } else {
                    proof {
                        assert(retry_outcome(op0, 1) == retry_outcome(op0.advanced(), 0));
                        assert(retry_outcome(op0.advanced(), 0) == Err::<T, RetryError>(
                            RetryError,
                        ));
                        assert(retry_consumed(op0, 1) == retry_consumed(op0.advanced(), 0));
                    }
                    return Err(RetryError);
                }
            },
        }
    }
}

/// An operation with a planned outcome for each invocation; invocations
/// past the end of the plan fail. This is how a schedule such as "fails
/// twice, then succeeds" is written down.
pub struct ScriptedOp<T> {
    outcomes: Vec<Option<T>>,
    at: usize,
}

impl<T> ScriptedOp<T> {
    /// The planned outcomes, in invocation order.
    pub closed spec fn spec_outcomes(&self) -> Seq<Option<T>> {
        self.outcomes@
    }

    /// How many invocations have happened.
    pub closed spec fn spec_at(&self) -> int {
        self.at as int
    }

    /// An operation that will yield the given outcomes, one per invocation.
    pub fn new(outcomes: Vec<Option<T>>) -> (r: ScriptedOp<T>)
        ensures
            r.spec_outcomes() == outcomes@,
            r.spec_at() == 0,
    {
        ScriptedOp { outcomes, at: 0 }
    }
}

impl<T: Copy> RetryOp<T> for ScriptedOp<T> {
    open spec fn next_outcome(&self) -> Option<T> {
        if self.spec_at() < self.spec_outcomes().len() {
            self.spec_outcomes()[self.spec_at()]
        } else {
            None
        }
    }

    closed spec fn advanced(&self) -> ScriptedOp<T> {
        if self.at < self.outcomes@.len() {
            ScriptedOp { outcomes: self.outcomes, at: (self.at + 1) as usize }
        } else {
            ScriptedOp { outcomes: self.outcomes, at: self.at }
        }
    }

    fn attempt(&mut self) -> (r: Option<T>)
        ensures
            r == old(self).next_outcome(),
            *final(self) == old(self).advanced(),
    {
        if self.at < self.outcomes.len() {
            let r = self.outcomes[self.at];
            self.at = self.at + 1;
            r
        } else {
            None
        }
    }
}

/// How a scripted operation advances: an invocation moves the cursor one
/// position forward until the plan is exhausted, and never changes the
/// plan. Together with `next_outcome` this lets a caller compute
/// `retry_outcome` and `retry_consumed` over any concrete plan.
pub proof fn lemma_scripted_advance<T: Copy>(op: ScriptedOp<T>)
    ensures
        op.advanced().spec_outcomes() == op.spec_outcomes(),
        op.spec_at() < op.spec_outcomes().len() ==> op.advanced().spec_at() == op.spec_at() + 1,
        op.spec_at() >= op.spec_outcomes().len() ==> op.advanced().spec_at() == op.spec_at(),
{
    broadcast use vstd::std_specs::vec::group_vec_axioms;

    assert(op.outcomes@.len() == vstd::std_specs::vec::spec_vec_len(&op.outcomes));
}

} // verus!
