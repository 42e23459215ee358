//! The process-wide aggregate: one [`CheckHistory`] per endpoint ever seen,
//! keyed by URL.  `record` is the sole mutation entry point for outcomes;
//! `apply_config` reconciles the aggregate with a (re)loaded configuration.

use vstd::prelude::*;

use crate::config::Target;
use crate::config::default_latency;
use crate::config::spec_default_latency;
use crate::model::CheckHistory;
use crate::model::CheckResult;
use crate::model::HistoryView;
use crate::model::push_spec;
use crate::model::set_threshold_spec;

verus! {

/// Whether some history in `hs` carries the endpoint identifier `url`.
pub open spec fn seq_contains_url(hs: Seq<HistoryView>, url: Seq<char>) -> bool {
    exists|k: int| 0 <= k < hs.len() && #[trigger] hs[k].url == url
}

/// Invariant of the aggregate: endpoint identifiers are unique, and every
/// history is itself well formed.
pub open spec fn agg_wf(hs: Seq<HistoryView>) -> bool {
    &&& forall|i: int, j: int| 0 <= i < j < hs.len() ==> #[trigger] hs[i].url != #[trigger] hs[j].url
    &&& forall|i: int| 0 <= i < hs.len() ==> (#[trigger] hs[i]).wf()
}

/// The acceptable-latency budget that the last configured target with this
/// URL names, if any: later targets win over earlier ones.
pub open spec fn last_threshold(targets: Seq<Target>, url: Seq<char>) -> Option<u64>
    decreases targets.len(),
{
    if targets.len() == 0 {
        None
    } else if targets.last().url@ == url {
        Some(targets.last().acceptable_latency_ms)
    } else {
        last_threshold(targets.drop_last(), url)
    }
}

/// How an aggregate in state `post` relates to its prior state `pre` after
/// `outcome` was recorded for `url`: the history for `url` — created empty
/// with the default budget if `pre` lacked it — gained exactly this outcome,
/// with deltas derived from its pre-insertion state, and every other history
/// is untouched.
pub open spec fn recorded(
    pre: Seq<HistoryView>,
    post: Seq<HistoryView>,
    url: Seq<char>,
    outcome: CheckResult,
) -> bool {
    if seq_contains_url(pre, url) {
        &&& post.len() == pre.len()
        &&& forall|i: int| 0 <= i < pre.len() && #[trigger] pre[i].url != url ==> post[i] == pre[i]
        &&& forall|i: int| 0 <= i < pre.len() && #[trigger] pre[i].url == url ==> post[i]
            == push_spec(pre[i], outcome)
    } else {
        post == pre.push(
            push_spec(
                HistoryView {
                    url,
                    acceptable_latency_ms: spec_default_latency(),
                    results: Seq::<CheckResult>::empty(),
                },
                outcome,
            ),
        )
    }
}

/// All histories the process knows, one per endpoint.
#[derive(Debug)]
pub struct Aggregate {
    /// The histories; URLs are pairwise distinct.
    pub histories: Vec<CheckHistory>,
}

impl View for Aggregate {
    type V = Seq<HistoryView>;

    open spec fn view(&self) -> Seq<HistoryView> {
        Seq::new(self.histories.len() as nat, |i: int| self.histories[i]@)
    }
}

impl Aggregate {
    /// The empty aggregate: the state of a first run.
    pub fn new() -> (a: Aggregate)
        ensures
            a@ == Seq::<HistoryView>::empty(),
            agg_wf(a@),
    {
        let a = Aggregate { histories: Vec::new() };
        proof {
            assert(a@ =~= Seq::<HistoryView>::empty());
        }
        a
    }

    /// Position of the history for `url`, if the aggregate holds one.
    pub fn find(&self, url: &String) -> (r: Option<usize>)
        ensures
            match r {
                Some(i) => i < self@.len() && self@[i as int].url == url@,
                None => !seq_contains_url(self@, url@),
            },
    {
        let mut i: usize = 0;
        while i < self.histories.len()
            invariant
                i <= self.histories.len(),
                forall|j: int| 0 <= j < i ==> #[trigger] self@[j].url != url@,
            decreases self.histories.len() - i,
        {
            if self.histories[i].url == *url {
                return Some(i);
            }
            i = i + 1;
        }
        None
    }

    /// Read surface for the persistence layer and the viewer: every history,
    /// in insertion order.
    pub fn all(&self) -> (r: &Vec<CheckHistory>)
        ensures
            r@.len() == self@.len(),
            forall|i: int| 0 <= i < self@.len() ==> #[trigger] r@[i]@ == self@[i],
    {
        &self.histories
    }

    /// Sole outcome mutation entry point: looks the endpoint's history up,
    /// creating it with the default budget if it is missing, and inserts the
    /// outcome, deriving its deltas from the pre-insertion state.
    pub fn record(&mut self, url: &String, outcome: CheckResult)
        requires
            agg_wf(old(self)@),
        ensures
            agg_wf(final(self)@),
            recorded(old(self)@, final(self)@, url@, outcome),
    {
        match self.find(url) {
            Some(i) => {
                let h = &mut self.histories[i];
                h.push(outcome);
                proof {
                    assert(final(self)@ =~= old(self)@.update(
                        i as int,
                        push_spec(old(self)@[i as int], outcome),
                    ));
                }
            },
            None => {
                let mut h = CheckHistory::new(url.clone(), default_latency());
                h.push(outcome);
                self.histories.push(h);
                proof {
                    assert(final(self)@ =~= old(self)@.push(
                        push_spec(
                            HistoryView {
                                url: url@,
                                acceptable_latency_ms: spec_default_latency(),
                                results: Seq::<CheckResult>::empty(),
                            },
                            outcome,
                        ),
                    ));
                }
            },
        }
    }

    /// Reconciles the aggregate with the configured target list: a history is
    /// created, with no outcomes yet, for every configured URL the aggregate
    /// lacks, existing histories keep their outcomes untouched, and every
    /// configured URL's budget is overwritten with the last value the
    /// configuration names for it.  No history is ever removed.
    pub fn apply_config(&mut self, targets: &Vec<Target>)
        requires
            agg_wf(old(self)@),
        ensures
            agg_wf(final(self)@),
            final(self)@.len() >= old(self)@.len(),
            forall|i: int| 0 <= i < old(self)@.len() ==> #[trigger] final(self)@[i].url
                == old(self)@[i].url && final(self)@[i].results == old(self)@[i].results,
            forall|i: int| old(self)@.len() <= i < final(self)@.len()
                ==> (#[trigger] final(self)@[i]).results == Seq::<CheckResult>::empty()
                    && exists|j: int| 0 <= j < targets@.len() && #[trigger] targets@[j].url@
                        == final(self)@[i].url,
            forall|j: int| 0 <= j < targets@.len()
                ==> seq_contains_url(final(self)@, #[trigger] targets@[j].url@),
            forall|i: int| 0 <= i < final(self)@.len()
                ==> match last_threshold(targets@, #[trigger] final(self)@[i].url) {
                    Some(v) => final(self)@[i].acceptable_latency_ms == v,
                    None => i < old(self)@.len() && final(self)@[i].acceptable_latency_ms
                        == old(self)@[i].acceptable_latency_ms,
                },
    {
        let ghost orig = self@;
        let mut k: usize = 0;
        while k < targets.len()
            invariant
                agg_wf(self@),
                k <= targets@.len(),
                self@.len() >= orig.len(),
                forall|i: int| 0 <= i < orig.len() ==> #[trigger] self@[i].url == orig[i].url
                    && self@[i].results == orig[i].results,
                forall|i: int| orig.len() <= i < self@.len()
                    ==> (#[trigger] self@[i]).results == Seq::<CheckResult>::empty()
                        && exists|j: int| 0 <= j < targets@.len() && #[trigger] targets@[j].url@
                            == self@[i].url,
                forall|j: int| 0 <= j < k ==> seq_contains_url(self@, #[trigger] targets@[j].url@),
                forall|i: int| 0 <= i < self@.len()
                    ==> match last_threshold(targets@.take(k as int), #[trigger] self@[i].url) {
                        Some(v) => self@[i].acceptable_latency_ms == v,
                        None => i < orig.len() && self@[i].acceptable_latency_ms
                            == orig[i].acceptable_latency_ms,
                    },
            decreases targets@.len() - k,
        {
            let t = &targets[k];
            let ghost pre = self@;
            match self.find(&t.url) {
                Some(i) => {
                    let h = &mut self.histories[i];
                    h.set_threshold(t.acceptable_latency_ms);
                    proof {
                        assert(self@ =~= pre.update(
                            i as int,
                            set_threshold_spec(pre[i as int], t.acceptable_latency_ms),
                        ));
                        assert(forall|q: int| 0 <= q < self@.len()
                            ==> (#[trigger] self@[q]).url == pre[q].url && self@[q].results
                                == pre[q].results);
                        assert forall|u: Seq<char>| seq_contains_url(pre, u) implies
                            #[trigger] seq_contains_url(self@, u) by {
                            let k0 = choose|k0: int| 0 <= k0 < pre.len() && #[trigger] pre[k0].url == u;
                            assert(self@[k0].url == u);
                        }
                        assert(seq_contains_url(self@, targets@[k as int].url@)) by {
                            assert(self@[i as int].url == t.url@);
                        }
                    }
                },
                None => {
                    let h = CheckHistory::new(t.url.clone(), t.acceptable_latency_ms);
                    self.histories.push(h);
                    proof {
                        let fresh = HistoryView {
                            url: t.url@,
                            acceptable_latency_ms: t.acceptable_latency_ms,
                            results: Seq::<CheckResult>::empty(),
                        };
                        assert(self@ =~= pre.push(fresh));
                        assert forall|u: Seq<char>| seq_contains_url(pre, u) implies
                            #[trigger] seq_contains_url(self@, u) by {
                            let k0 = choose|k0: int| 0 <= k0 < pre.len() && #[trigger] pre[k0].url == u;
                            assert(self@[k0].url == u);
                        }
                        assert(seq_contains_url(self@, targets@[k as int].url@)) by {
                            assert(self@[pre.len() as int].url == t.url@);
                        }
                        assert(forall|q: int| 0 <= q < pre.len()
                            ==> #[trigger] pre[q].url != t.url@);
                    }
                },
            }
            proof {
                lemma_last_threshold_step(targets@, k as int);
                assert forall|i: int| 0 <= i < orig.len() implies #[trigger] self@[i].url
                    == orig[i].url && self@[i].results == orig[i].results by {
                    assert(self@[i].url == pre[i].url);
                    assert(self@[i].results == pre[i].results);
                }
            }
            k = k + 1;
        }
        proof {
            assert(targets@.take(targets@.len() as int) =~= targets@);
        }
    }
}

/// Processing one more target only changes the winning threshold for that
/// target's own URL.
pub proof fn lemma_last_threshold_step(targets: Seq<Target>, k: int)
    requires
        0 <= k < targets.len(),
    ensures
        forall|url: Seq<char>| #[trigger] last_threshold(targets.take(k + 1), url) == (
            if targets[k].url@ == url {
                Some(targets[k].acceptable_latency_ms)
            } else {
                last_threshold(targets.take(k), url)
            }
        ),
{
    assert forall|url: Seq<char>| #[trigger] last_threshold(targets.take(k + 1), url) == (
        if targets[k].url@ == url {
            Some(targets[k].acceptable_latency_ms)
        } else {
            last_threshold(targets.take(k), url)
        }
    ) by {
        assert(targets.take(k + 1).last() == targets[k]);
        assert(targets.take(k + 1).drop_last() =~= targets.take(k));
    }
}

} // verus!
