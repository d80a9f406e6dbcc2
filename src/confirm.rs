//! The confirmation lifecycle: after a transaction is sent, its status is
//! polled a bounded number of times. The caller performs each poll and each
//! pause; the decisions are made here.

use vstd::prelude::*;

verus! {

/// The status that the ledger reports for a transaction.
#[derive(Clone, Copy, Debug, PartialEq, Eq, Structural)]
pub enum TxStatus {
    Pending,
    Proposed,
    Committed,
    Rejected,
    Unknown,
}

/// How often, and how far apart, the status is polled.
#[derive(Clone, Copy, Debug, PartialEq, Eq, Structural)]
pub struct RetryPolicy {
    pub max_attempts: u64,
    pub delay: u64,
}

/// How waiting for a transaction ended.
#[derive(Clone, Copy, Debug, PartialEq, Eq, Structural)]
pub enum ConfirmOutcome {
    Committed,
    /// The attempts ran out first; the transaction may still land later.
    Timeout,
}

/// What the caller does after a poll.
#[derive(Clone, Copy, Debug, PartialEq, Eq, Structural)]
pub enum PollAction {
    /// Pause for this many time units, then poll again.
    Wait(u64),
    /// Stop with this outcome.
    Done(ConfirmOutcome),
}

/// The decision after poll number `attempt` (counted from 1) reported `status`.
pub open spec fn poll_decision(policy: RetryPolicy, attempt: nat, status: TxStatus) -> PollAction {
    if status == TxStatus::Committed {
        PollAction::Done(ConfirmOutcome::Committed)
    } else if attempt >= policy.max_attempts {
        PollAction::Done(ConfirmOutcome::Timeout)
    } else {
        PollAction::Wait(policy.delay)
    }
}

/// The outcome of polling until a decision, when the polls report `statuses`
/// in turn: `None` while the statuses run out first.
pub open spec fn poll_outcome(policy: RetryPolicy, statuses: Seq<TxStatus>, from: nat) -> Option<
    (ConfirmOutcome, nat),
>
    decreases statuses.len() - from,
{
    if from >= statuses.len() {
        None
    } else {
        match poll_decision(policy, from + 1, statuses[from as int]) {
            PollAction::Done(o) => Some((o, from + 1)),
            PollAction::Wait(_) => poll_outcome(policy, statuses, from + 1),
        }
    }
}

impl RetryPolicy {
    /// What to do after poll number `attempt` (counted from 1) reported
    /// `status`: stop once the transaction is committed or the attempts are
    /// spent, else wait and poll again.
    pub fn next(&self, attempt: u64, status: TxStatus) -> (r: PollAction)
        ensures
            r == poll_decision(*self, attempt as nat, status),
    {
        if status == TxStatus::Committed {
            PollAction::Done(ConfirmOutcome::Committed)
        } else if attempt >= self.max_attempts {
            PollAction::Done(ConfirmOutcome::Timeout)
        } else {
            PollAction::Wait(self.delay)
        }
    }
}

/// The number of polls after which waiting stops without a commitment.
pub open spec fn poll_budget(policy: RetryPolicy) -> nat {
    if policy.max_attempts == 0 {
        1
    } else {
        policy.max_attempts as nat
    }
}

/// Polling a transaction that never reaches the committed status ends in a
/// timeout after exactly the configured number of attempts (at least one): it
/// never waits forever.
pub proof fn lemma_poll_never_hangs(policy: RetryPolicy, statuses: Seq<TxStatus>)
    requires
        statuses.len() >= poll_budget(policy),
        forall|i: int| 0 <= i < statuses.len() ==> statuses[i] != TxStatus::Committed,
    ensures
        poll_outcome(policy, statuses, 0) == Some((ConfirmOutcome::Timeout, poll_budget(policy))),
{
    lemma_poll_from(policy, statuses, 0);
}

proof fn lemma_poll_from(policy: RetryPolicy, statuses: Seq<TxStatus>, from: nat)
    requires
        statuses.len() >= poll_budget(policy),
        from < poll_budget(policy),
        forall|i: int| 0 <= i < statuses.len() ==> statuses[i] != TxStatus::Committed,
    ensures
        poll_outcome(policy, statuses, from) == Some((ConfirmOutcome::Timeout, poll_budget(policy))),
    decreases poll_budget(policy) - from,
{
    if from + 1 < poll_budget(policy) {
        lemma_poll_from(policy, statuses, from + 1);
    }
}

/// Polling stops with a commitment at the first poll that reports it, if
/// that comes within the budget.
pub proof fn lemma_poll_commits(policy: RetryPolicy, statuses: Seq<TxStatus>, k: nat)
    requires
        k < statuses.len(),
        k < poll_budget(policy),
        statuses[k as int] == TxStatus::Committed,
        forall|i: int| 0 <= i < k ==> statuses[i] != TxStatus::Committed,
    ensures
        poll_outcome(policy, statuses, 0) == Some((ConfirmOutcome::Committed, k + 1)),
{
    lemma_commit_from(policy, statuses, k, 0);
}

proof fn lemma_commit_from(policy: RetryPolicy, statuses: Seq<TxStatus>, k: nat, from: nat)
    requires
        k < statuses.len(),
        k < poll_budget(policy),
        from <= k,
        statuses[k as int] == TxStatus::Committed,
        forall|i: int| 0 <= i < k ==> statuses[i] != TxStatus::Committed,
    ensures
        poll_outcome(policy, statuses, from) == Some((ConfirmOutcome::Committed, k + 1)),
    decreases k - from,
{
    if from < k {
        lemma_commit_from(policy, statuses, k, from + 1);
    }
}

} // verus!
