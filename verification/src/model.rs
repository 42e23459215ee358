//! Per-endpoint bounded history of probe outcomes.
//!
//! A [`CheckHistory`] keeps the most recent outcomes of one endpoint,
//! oldest first, capped at [`crate::MAX_HISTORY`] entries.  Inserting an
//! outcome derives two latency deltas before the outcome is stored: the
//! difference against the previous stored outcome and the difference against
//! the endpoint's acceptable-latency budget.

use vstd::prelude::*;

use std::collections::VecDeque;

use crate::MAX_HISTORY;

verus! {

/// Classification of one probe of one endpoint.
#[derive(Clone, Copy, Debug, PartialEq, Eq, Structural)]
pub enum CheckStatus {
    /// The endpoint answered with a successful status code.
    Up,
    /// The endpoint answered, but not with a successful status code.
    Down,
    /// No response was obtained at all (timeout, transport failure, ...).
    Error,
}

/// The result of one probe.  All instants and durations are in milliseconds;
/// the timestamp counts from the Unix epoch.
#[derive(Clone, Copy, Debug, PartialEq, Eq)]
pub struct CheckResult {
    /// Instant at which the probe completed.
    pub timestamp_ms: i64,
    /// Classification of the probe.
    pub status: CheckStatus,
    /// Elapsed time until a response arrived; absent when none did.
    pub response_time_ms: Option<u64>,
    /// Latency change against the outcome stored just before this one;
    /// present only when both outcomes carry a latency.
    pub diff_from_prev: Option<i128>,
    /// Latency minus the acceptable budget at insertion time; positive means
    /// over budget.  Present only when this outcome carries a latency.
    pub diff_from_acceptable: Option<i128>,
}

/// Mathematical content of a [`CheckHistory`].
pub struct HistoryView {
    pub url: Seq<char>,
    pub acceptable_latency_ms: u64,
    pub results: Seq<CheckResult>,
}

/// Both deltas of a stored outcome are differences of two `u64` latencies,
/// so their magnitude never exceeds `u64::MAX`.
pub open spec fn result_wf(r: CheckResult) -> bool {
    &&& match r.diff_from_prev {
        Some(d) => -(u64::MAX as int) <= d <= u64::MAX as int,
        None => true,
    }
    &&& match r.diff_from_acceptable {
        Some(d) => -(u64::MAX as int) <= d <= u64::MAX as int,
        None => true,
    }
}

impl HistoryView {
    /// Invariant of a history: the outcome sequence is bounded by the cap and
    /// every stored outcome has deltas in the representable range.
    pub open spec fn wf(self) -> bool {
        &&& self.results.len() <= MAX_HISTORY
        &&& forall|i: int| 0 <= i < self.results.len() ==> result_wf(#[trigger] self.results[i])
    }
}

/// The outcome as it will be stored when `r` is inserted into a history whose
/// state is `h`: both deltas are recomputed from the pre-insertion state, and
/// every other field is taken from `r` unchanged.
pub open spec fn stored_outcome(h: HistoryView, r: CheckResult) -> CheckResult {
    CheckResult {
        diff_from_acceptable: match r.response_time_ms {
            Some(rt) => Some((rt - h.acceptable_latency_ms) as i128),
            None => None,
        },
        diff_from_prev: if h.results.len() > 0 {
            match (h.results.last().response_time_ms, r.response_time_ms) {
                (Some(prev), Some(cur)) => Some((cur - prev) as i128),
                _ => None,
            }
        } else {
            None
        },
        ..r
    }
}

/// The outcome sequence after inserting `r` into a history in state `h`:
/// once the cap is reached, the oldest entry is evicted first.
pub open spec fn push_results(h: HistoryView, r: CheckResult) -> Seq<CheckResult> {
    if h.results.len() >= MAX_HISTORY {
        h.results.drop_first().push(stored_outcome(h, r))
    } else {
        h.results.push(stored_outcome(h, r))
    }
}

/// The whole history after inserting `r` into state `h`.
pub open spec fn push_spec(h: HistoryView, r: CheckResult) -> HistoryView {
    HistoryView { results: push_results(h, r), ..h }
}

/// The whole history after overwriting the acceptable-latency budget.
pub open spec fn set_threshold_spec(h: HistoryView, value: u64) -> HistoryView {
    HistoryView { acceptable_latency_ms: value, ..h }
}

/// The bounded, ordered record of outcomes for one endpoint.
#[derive(Debug)]
pub struct CheckHistory {
    /// The endpoint this history belongs to; unique within an aggregate.
    pub url: String,
    /// Latency budget used for `diff_from_acceptable` on future insertions.
    pub acceptable_latency_ms: u64,
    /// Stored outcomes, oldest first, never more than [`MAX_HISTORY`].
    pub results: VecDeque<CheckResult>,
}

impl View for CheckHistory {
    type V = HistoryView;

    open spec fn view(&self) -> HistoryView {
        HistoryView {
            url: self.url@,
            acceptable_latency_ms: self.acceptable_latency_ms,
            results: self.results@,
        }
    }
}

impl CheckHistory {
    /// A fresh history with no outcomes.
    pub fn new(url: String, acceptable_latency_ms: u64) -> (h: CheckHistory)
        ensures
            h@ == (HistoryView { url: url@, acceptable_latency_ms, results: Seq::<CheckResult>::empty() }),
            h@.wf(),
    {
        CheckHistory { url, acceptable_latency_ms, results: VecDeque::with_capacity(MAX_HISTORY) }
    }

    /// Sole mutation entry point for outcomes: derives both deltas from the
    /// pre-insertion state, evicts the oldest entry when the cap is reached,
    /// then appends.  Whatever deltas the caller put into `result` are
    /// ignored and recomputed here.
    pub fn push(&mut self, result: CheckResult)
        requires
            old(self)@.wf(),
        ensures
            final(self)@ == push_spec(old(self)@, result),
            final(self)@.wf(),
    {
        let mut stored = result;
        stored.diff_from_acceptable = match result.response_time_ms {
            Some(rt) => Some(rt as i128 - self.acceptable_latency_ms as i128),
            None => None,
        };
        stored.diff_from_prev = if self.results.len() > 0 {
            let prev = &self.results[self.results.len() - 1];
            match (prev.response_time_ms, result.response_time_ms) {
                (Some(prev_rt), Some(cur_rt)) => Some(cur_rt as i128 - prev_rt as i128),
                _ => None,
            }
        } else {
            None
        };
        assert(stored == stored_outcome(self@, result));
        if self.results.len() >= MAX_HISTORY {
            let _ = self.results.pop_front();
        }
        self.results.push_back(stored);
    }

    /// Overwrites the acceptable-latency budget for future insertions only;
    /// stored outcomes are left untouched.
    pub fn set_threshold(&mut self, value: u64)
        ensures
            final(self)@ == set_threshold_spec(old(self)@, value),
    {
        self.acceptable_latency_ms = value;
    }

    /// The most recently stored outcome, if any.
    pub fn latest(&self) -> (r: Option<&CheckResult>)
        ensures
            match r {
                Some(x) => self@.results.len() > 0 && *x == self@.results.last(),
                None => self@.results.len() == 0,
            },
    {
        if self.results.len() > 0 {
            Some(&self.results[self.results.len() - 1])
        } else {
            None
        }
    }
}

/// The history is a bounded FIFO record: an insertion never grows it past the
/// cap; below the cap it appends, and at the cap it drops exactly the oldest
/// entry, keeps the remaining entries in order, and appends the new outcome
/// at the back.
pub proof fn lemma_history_bounded_fifo(h: HistoryView, r: CheckResult)
    requires
        h.wf(),
    ensures
        push_results(h, r).len() <= MAX_HISTORY,
        push_results(h, r).last() == stored_outcome(h, r),
        h.results.len() < MAX_HISTORY ==> push_results(h, r) == h.results.push(stored_outcome(h, r)),
        h.results.len() == MAX_HISTORY ==> push_results(h, r).len() == MAX_HISTORY
            && forall|i: int| 0 <= i < MAX_HISTORY - 1 ==> push_results(h, r)[i] == h.results[i + 1],
{
}

/// The delta against the previous outcome is computed exactly when both the
/// inserted outcome and the pre-insertion tail carry a latency, and is then
/// exactly their difference; otherwise it is absent.
pub proof fn lemma_delta_vs_previous(h: HistoryView, r: CheckResult)
    ensures
        stored_outcome(h, r).diff_from_prev == (
            if h.results.len() > 0 {
                match (h.results.last().response_time_ms, r.response_time_ms) {
                    (Some(prev), Some(cur)) => Some((cur - prev) as i128),
                    _ => None,
                }
            } else {
                None::<i128>
            }
        ),
{
}

/// The delta against the budget uses the budget in force at insertion time,
/// and editing the budget later never rewrites an already stored outcome:
/// every stored `diff_from_acceptable` stays exactly as it was, while
/// insertions after the edit use the new budget.
pub proof fn lemma_threshold_edits_are_not_retroactive(h: HistoryView, value: u64, r: CheckResult)
    ensures
        set_threshold_spec(h, value).results == h.results,
        stored_outcome(set_threshold_spec(h, value), r).diff_from_acceptable == (
            match r.response_time_ms {
                Some(rt) => Some((rt - value) as i128),
                None => None::<i128>,
            }
        ),
{
}

} // verus!
