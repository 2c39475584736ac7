use vstd::prelude::*;

use crate::error::{Error, FsError};

verus! {

/// State of a multi-buffer transfer after some buffers were handed to the node.
#[derive(Debug, Clone, Copy)]
pub enum Transfer {
    /// Every buffer so far succeeded; this many bytes moved in total.
    Going(usize),
    /// The transfer stopped with this result.
    Done(Result<usize, Error>),
}

/// Ends a transfer after a failed step: a call that already moved bytes
/// succeeds with that count, one that moved none fails with `e`.
pub open spec fn stop(total: usize, e: Error) -> Transfer {
    if total != 0 {
        Transfer::Done(Ok(total))
    } else {
        Transfer::Done(Err(e))
    }
}

/// One step of a transfer whose cursor began at `start`: the node's outcome for
/// the next buffer. A count that would carry the cursor past `usize::MAX`
/// fails the step with `Overflow`.
pub open spec fn step(start: usize, state: Transfer, outcome: Result<usize, FsError>) -> Transfer {
    match state {
        Transfer::Done(r) => Transfer::Done(r),
        Transfer::Going(total) => match outcome {
            Ok(n) => if start + total + n <= usize::MAX {
                Transfer::Going((total + n) as usize)
            } else {
                stop(total, Error::Overflow)
            },
            Err(e) => stop(total, Error::Node(e)),
        },
    }
}

/// The state after the node's outcomes for the buffers, in order.
pub open spec fn progress(start: usize, outcomes: Seq<Result<usize, FsError>>) -> Transfer
    decreases outcomes.len(),
{
    if outcomes.len() == 0 {
        Transfer::Going(0)
    } else {
        step(start, progress(start, outcomes.drop_last()), outcomes.last())
    }
}

/// What a multi-buffer call returns after these outcomes.
pub open spec fn transfer_result(start: usize, outcomes: Seq<Result<usize, FsError>>) -> Result<
    usize,
    Error,
> {
    match progress(start, outcomes) {
        Transfer::Going(total) => Ok(total),
        Transfer::Done(r) => r,
    }
}

/// Appending an outcome applies one step.
pub proof fn lemma_progress_push(
    start: usize,
    outcomes: Seq<Result<usize, FsError>>,
    outcome: Result<usize, FsError>,
)
    ensures
        progress(start, outcomes.push(outcome)) == step(start, progress(start, outcomes), outcome),
{
    assert(outcomes.push(outcome).drop_last() =~= outcomes);
}

/// Applies the node's outcome for the next buffer to a transfer in progress.
pub fn transfer_step(start: usize, total: usize, outcome: Result<usize, FsError>) -> (r: Transfer)
    requires
        start + total <= usize::MAX,
    ensures
        r == step(start, Transfer::Going(total), outcome),
{
    let failed = match outcome {
        Ok(n) => {
            if n <= usize::MAX - start - total {
                return Transfer::Going(total + n);
            }
            Error::Overflow
        },
        Err(e) => Error::Node(e),
    };
    if total != 0 {
        Transfer::Done(Ok(total))
    } else {
        Transfer::Done(Err(failed))
    }
}

/// The result of a multi-buffer call whose cursor began at `start`, given the
/// node's outcome for each buffer in order. Outcomes after the first failure
/// are never consulted.
pub fn transfer_total(start: usize, outcomes: &Vec<Result<usize, FsError>>) -> (r: Result<
    usize,
    Error,
>)
    ensures
        r == transfer_result(start, outcomes@),
{
    let mut total: usize = 0;
    let mut i: usize = 0;
    while i < outcomes.len()
        invariant
            i <= outcomes.len(),
            progress(start, outcomes@.take(i as int)) == Transfer::Going(total),
            start + total <= usize::MAX,
        decreases outcomes.len() - i,
    {
        proof {
            lemma_progress_push(start, outcomes@.take(i as int), outcomes@[i as int]);
            assert(outcomes@.take(i as int).push(outcomes@[i as int]) =~= outcomes@.take(
                i + 1,
            ));
        }
        match transfer_step(start, total, outcomes[i]) {
            Transfer::Going(t) => {
                total = t;
            },
            Transfer::Done(r) => {
                proof {
                    lemma_progress_done(start, outcomes@, i as int + 1);
                }
                return r;
            },
        }
        i += 1;
    }
    proof {
        assert(outcomes@.take(i as int) =~= outcomes@);
    }
    Ok(total)
}

/// Once a transfer has stopped, later outcomes change nothing.
pub proof fn lemma_progress_done(start: usize, outcomes: Seq<Result<usize, FsError>>, i: int)
    requires
        0 <= i <= outcomes.len(),
        progress(start, outcomes.take(i)) is Done,
    ensures
        progress(start, outcomes) == progress(start, outcomes.take(i)),
    decreases outcomes.len() - i,
{
    if i < outcomes.len() {
        lemma_progress_push(start, outcomes.take(i), outcomes[i]);
        assert(outcomes.take(i).push(outcomes[i]) =~= outcomes.take(i + 1));
        lemma_progress_done(start, outcomes, i + 1);
    } else {
        assert(outcomes.take(i) =~= outcomes);
    }
}

/// A buffer that fails after earlier buffers moved some bytes ends the call
/// successfully with the bytes moved so far; later outcomes are ignored.
pub proof fn lemma_failure_after_progress(
    start: usize,
    outcomes: Seq<Result<usize, FsError>>,
    i: int,
    total: usize,
)
    requires
        0 <= i < outcomes.len(),
        progress(start, outcomes.take(i)) == Transfer::Going(total),
        total > 0,
        outcomes[i] is Err,
    ensures
        transfer_result(start, outcomes) == Ok::<usize, Error>(total),
{
    lemma_progress_push(start, outcomes.take(i), outcomes[i]);
    assert(outcomes.take(i).push(outcomes[i]) =~= outcomes.take(i + 1));
    lemma_progress_done(start, outcomes, i + 1);
}

/// A first buffer that fails makes the call fail with the node's error.
pub proof fn lemma_failure_first(start: usize, outcomes: Seq<Result<usize, FsError>>, e: FsError)
    requires
        outcomes.len() > 0,
        outcomes[0] == Err::<usize, FsError>(e),
    ensures
        transfer_result(start, outcomes) == Err::<usize, Error>(Error::Node(e)),
{
    lemma_progress_push(start, outcomes.take(0), outcomes[0]);
    assert(outcomes.take(0).push(outcomes[0]) =~= outcomes.take(1));
    assert(outcomes.take(0) =~= Seq::<Result<usize, FsError>>::empty());
    lemma_progress_done(start, outcomes, 1);
}

/// A transfer of one buffer.
pub proof fn lemma_single(start: usize, outcome: Result<usize, FsError>)
    ensures
        transfer_result(start, seq![outcome]) == match step(start, Transfer::Going(0), outcome) {
            Transfer::Going(t) => Ok::<usize, Error>(t),
            Transfer::Done(r) => r,
        },
{
    lemma_progress_push(start, Seq::empty(), outcome);
    assert(Seq::<Result<usize, FsError>>::empty().push(outcome) =~= seq![outcome]);
}

/// Appending an outcome leaves every prefix of the earlier outcomes as it was.
pub proof fn lemma_take_push(
    outcomes: Seq<Result<usize, FsError>>,
    outcome: Result<usize, FsError>,
    j: int,
)
    requires
        0 <= j <= outcomes.len(),
    ensures
        outcomes.push(outcome).take(j) == outcomes.take(j),
{
    assert(outcomes.push(outcome).take(j) =~= outcomes.take(j));
}

} // verus!
