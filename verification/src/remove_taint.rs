//! Removal of the scheduling-block taint under optimistic concurrency.
//!
//! The node's taint list is owned by the cluster control plane and contended
//! by other controllers, so removal follows a bounded fetch-modify-replace
//! protocol: the surrounding process fetches the node, asks [`TaintRemover`]
//! what to do, submits the planned replacement, and reports the outcome back.
//! Only a version conflict is retried, at most [`MAX_TAINT_ATTEMPTS`] times.

use vstd::prelude::*;

use crate::text::str_eq;

verus! {

/// Upper bound on replace submissions before giving up.
pub const MAX_TAINT_ATTEMPTS: usize = 5;

/// One entry of a node's taint list. Only the key is interpreted here; value
/// and effect are carried through untouched.
#[derive(Debug, PartialEq)]
pub struct Taint {
    pub key: String,
    pub value: Option<String>,
    pub effect: String,
}

/// `i` is the position of the first taint whose key reads `key`.
pub open spec fn first_taint_match(taints: Seq<Taint>, key: Seq<char>, i: int) -> bool {
    &&& 0 <= i < taints.len()
    &&& taints[i].key@ == key
    &&& forall|j: int| 0 <= j < i ==> (#[trigger] taints[j]).key@ != key
}

/// Some taint carries `key`.
pub open spec fn has_taint(taints: Seq<Taint>, key: Seq<char>) -> bool {
    exists|i: int| 0 <= i < taints.len() && (#[trigger] taints[i]).key@ == key
}

/// Position of the first taint with the given key, if any.
pub fn taint_position(taint_key: &str, taints: &Vec<Taint>) -> (r: Option<usize>)
    ensures
        match r {
            Some(i) => first_taint_match(taints@, taint_key@, i as int),
            None => !has_taint(taints@, taint_key@),
        },
{
    let mut k: usize = 0;
    while k < taints.len()
        invariant
            k <= taints@.len(),
            forall|j: int| 0 <= j < k ==> (#[trigger] taints@[j]).key@ != taint_key@,
        decreases taints@.len() - k,
    {
        if str_eq(taints[k].key.as_str(), taint_key) {
            return Some(k);
        }
        k += 1;
    }
    None
}

/// A field-for-field copy of a taint.
fn clone_taint(t: &Taint) -> (r: Taint)
    ensures
        r == *t,
{
    Taint {
        key: t.key.clone(),
        value: match &t.value {
            Some(v) => Some(v.clone()),
            None => None,
        },
        effect: t.effect.clone(),
    }
}

/// The taint list with its first `taint_key` entry removed and every other
/// entry kept in order; nothing when no entry matches.
pub fn plan_removal(taints: &Vec<Taint>, taint_key: &str) -> (r: Option<Vec<Taint>>)
    ensures
        r is Some <==> has_taint(taints@, taint_key@),
        r matches Some(v) ==> exists|i: int|
            #[trigger] first_taint_match(taints@, taint_key@, i) && v@ == taints@.remove(i),
{
    let position = match taint_position(taint_key, taints) {
        Some(i) => i,
        None => {
            return None;
        },
    };
    let mut kept: Vec<Taint> = Vec::new();
    let mut k: usize = 0;
    while k < taints.len()
        invariant
            k <= taints@.len(),
            position < taints@.len(),
            k <= position ==> kept@ == taints@.take(k as int),
            k > position ==> kept@ == taints@.take(position as int) + taints@.subrange(
                position + 1,
                k as int,
            ),
        decreases taints@.len() - k,
    {
        if k != position {
            kept.push(clone_taint(&taints[k]));
        }
        proof {
            if k < position {
                assert(kept@ =~= taints@.take(k + 1));
            } else if k == position {
                assert(kept@ =~= taints@.take(position as int) + taints@.subrange(
                    position + 1,
                    k + 1,
                ));
            } else {
                assert(kept@ =~= taints@.take(position as int) + taints@.subrange(
                    position + 1,
                    k + 1,
                ));
            }
        }
        k += 1;
    }
    proof {
        assert(kept@ =~= taints@.remove(position as int));
        assert(taints@[position as int].key@ == taint_key@);
    }
    Some(kept)
}

/// What the control loop observed when it submitted the replacement.
#[derive(Clone, Copy, Debug, PartialEq, Eq, Structural)]
pub enum ReplaceOutcome {
    /// The node was replaced: the taint is gone.
    Replaced,
    /// Another writer updated the node since the fetch (version conflict).
    Conflict,
    /// Any other error.
    Failed,
}

/// What to do after fetching the node.
#[derive(Debug, PartialEq)]
pub enum FetchDecision {
    /// The taint is already absent: done, with no mutation submitted.
    AlreadyClear,
    /// Submit a replace of the node carrying this taint list.
    Submit { taints: Vec<Taint> },
}

/// Where the protocol stands after a replace outcome.
#[derive(Clone, Copy, Debug, PartialEq, Eq, Structural)]
pub enum StepResult {
    /// The taint was removed.
    Done,
    /// Version conflict with attempts left: fetch again.
    Retry,
    /// Version conflict and no attempts left: persistent contention.
    Exhausted,
    /// A non-conflict error: fatal, no retry.
    Fatal,
}

/// The bounded optimistic-concurrency protocol that removes one taint by key.
pub struct TaintRemover {
    pub taint_key: String,
    /// Replace submissions made so far.
    pub attempts: usize,
}

impl TaintRemover {
    pub fn new(taint_key: String) -> (r: Self)
        ensures
            r.taint_key == taint_key,
            r.attempts == 0,
    {
        TaintRemover { taint_key, attempts: 0 }
    }

    /// Whether another replace may still be submitted.
    pub fn may_attempt(&self) -> (r: bool)
        ensures
            r == (self.attempts < MAX_TAINT_ATTEMPTS),
    {
        self.attempts < MAX_TAINT_ATTEMPTS
    }

    /// Decides on a freshly fetched taint list: finish when the key is
    /// absent, otherwise submit the list with the first matching entry
    /// removed, spending one attempt.
    pub fn observe(&mut self, taints: &Vec<Taint>) -> (d: FetchDecision)
        requires
            old(self).attempts < MAX_TAINT_ATTEMPTS,
        ensures
            final(self).taint_key == old(self).taint_key,
            match d {
                FetchDecision::AlreadyClear => !has_taint(taints@, old(self).taint_key@)
                    && final(self).attempts == old(self).attempts,
                FetchDecision::Submit { taints: v } => has_taint(taints@, old(self).taint_key@)
                    && final(self).attempts == old(self).attempts + 1 && exists|i: int|
                    #[trigger] first_taint_match(taints@, old(self).taint_key@, i) && v@
                        == taints@.remove(i),
            },
    {
        match plan_removal(taints, self.taint_key.as_str()) {
            Some(v) => {
                self.attempts = self.attempts + 1;
                FetchDecision::Submit { taints: v }
            },
            None => FetchDecision::AlreadyClear,
        }
    }

    /// Classifies the outcome of the submitted replace: success finishes,
    /// a conflict is retried while attempts remain and is persistent
    /// contention once they are spent, and any other error is fatal.
    pub fn on_replace(&self, outcome: ReplaceOutcome) -> (s: StepResult)
        ensures
            match outcome {
                ReplaceOutcome::Replaced => s == StepResult::Done,
                ReplaceOutcome::Conflict => s == (if self.attempts < MAX_TAINT_ATTEMPTS {
                    StepResult::Retry
                } else {
                    StepResult::Exhausted
                }),
                ReplaceOutcome::Failed => s == StepResult::Fatal,
            },
    {
        match outcome {
            ReplaceOutcome::Replaced => StepResult::Done,
            ReplaceOutcome::Conflict => {
                if self.attempts < MAX_TAINT_ATTEMPTS {
                    StepResult::Retry
                } else {
                    StepResult::Exhausted
                }
            },
            ReplaceOutcome::Failed => StepResult::Fatal,
        }
    }
}

/// Removing the first matching taint never reorders or drops the others:
/// every entry before it keeps its place, every entry after it moves forward
/// by exactly one.
pub proof fn lemma_removal_keeps_others(taints: Seq<Taint>, key: Seq<char>, i: int)
    requires
        first_taint_match(taints, key, i),
    ensures
        taints.remove(i).len() == taints.len() - 1,
        forall|j: int| 0 <= j < i ==> #[trigger] taints.remove(i)[j] == taints[j],
        forall|j: int| i <= j < taints.len() - 1 ==> #[trigger] taints.remove(i)[j] == taints[j
            + 1],
{
    taints.remove_ensures(i);
}

} // verus!
