//! The tick scheduler, as a state machine over plain values.  The caller
//! owns the timer, the task fan-out and the network; this module owns every
//! decision: which endpoint to dispatch next under the concurrency cap, when
//! the tick's barrier is reached, and when the aggregate may be persisted.
//!
//! One tick runs Idle -> Probing -> Persisting -> Idle; Stopped is terminal
//! and reachable only from Idle, so a tick in progress always completes.

use vstd::prelude::*;

use crate::aggregate::Aggregate;
use crate::aggregate::agg_wf;
use crate::aggregate::recorded;
use crate::config::Config;
use crate::config::Target;
use crate::model::CheckResult;

verus! {

/// Where the scheduler stands.
#[derive(Clone, Copy, Debug, PartialEq, Eq, Structural)]
pub enum Phase {
    /// Waiting for the next tick boundary or a shutdown signal.
    Idle,
    /// Dispatching this tick's probes and collecting their results.
    Probing,
    /// All results are recorded; the snapshot write is due.
    Persisting,
    /// Shut down; no further tick starts.
    Stopped,
}

/// The scheduler's whole state: the aggregate it feeds, the configuration it
/// follows, and the progress of the current tick.
#[derive(Debug)]
pub struct Scheduler {
    /// The histories every recorded outcome lands in.
    pub aggregate: Aggregate,
    /// Seconds between two ticks.
    pub interval_seconds: u64,
    /// Seconds one probe may take.
    pub timeout_seconds: u64,
    /// Cap on simultaneously in-flight probes.
    pub max_concurrency: usize,
    /// The endpoints probed each tick.
    pub targets: Vec<Target>,
    /// Where the scheduler stands.
    pub phase: Phase,
    /// How many of this tick's probes were handed out so far.
    pub dispatched: usize,
    /// How many handed-out probes have not come back yet.
    pub in_flight: usize,
    /// How many of this tick's results are recorded already.
    pub collected: usize,
}

impl Scheduler {
    /// Invariant: the concurrency cap is positive and never exceeded, the
    /// tick counters are consistent, counters rest at zero outside Probing,
    /// and the aggregate is well formed.
    pub open spec fn wf(self) -> bool {
        &&& 1 <= self.max_concurrency
        &&& self.in_flight <= self.max_concurrency
        &&& self.dispatched <= self.targets@.len()
        &&& self.collected + self.in_flight == self.dispatched
        &&& self.phase != Phase::Probing ==> self.dispatched == 0 && self.in_flight == 0
            && self.collected == 0
        &&& agg_wf(self.aggregate@)
    }

    /// A scheduler at startup: recovery is already done and the recovered
    /// aggregate has been reconciled with the configuration; the first tick
    /// has not started.
    pub fn new(config: Config, aggregate: Aggregate) -> (s: Scheduler)
        requires
            config.max_concurrency >= 1,
            agg_wf(aggregate@),
        ensures
            s.wf(),
            s.phase == Phase::Idle,
            s.aggregate@ == aggregate@,
            s.targets@ == config.targets@,
            s.interval_seconds == config.interval_seconds,
            s.timeout_seconds == config.timeout_seconds,
            s.max_concurrency == config.max_concurrency,
    {
        Scheduler {
            aggregate,
            interval_seconds: config.interval_seconds,
            timeout_seconds: config.timeout_seconds,
            max_concurrency: config.max_concurrency,
            targets: config.targets,
            phase: Phase::Idle,
            dispatched: 0,
            in_flight: 0,
            collected: 0,
        }
    }

    /// Where the scheduler stands, for the caller's control flow.
    pub fn phase(&self) -> (r: Phase)
        ensures
            r == self.phase,
    {
        self.phase
    }

    /// A tick boundary arrived: begin fanning out.  Only the phase changes;
    /// a fresh tick has nothing dispatched, in flight, or collected.
    pub fn start_tick(&mut self)
        requires
            old(self).wf(),
            old(self).phase == Phase::Idle,
        ensures
            final(self).wf(),
            *final(self) == (Scheduler { phase: Phase::Probing, ..*old(self) }),
    {
        self.phase = Phase::Probing;
    }

    /// Hands out the next probe of this tick, if the concurrency cap admits
    /// one and targets remain; the cap is never exceeded, whatever the
    /// target list's size.
    pub fn dispatch_next(&mut self) -> (r: Option<String>)
        requires
            old(self).wf(),
            old(self).phase == Phase::Probing,
        ensures
            final(self).wf(),
            final(self).in_flight <= final(self).max_concurrency,
            final(self).aggregate@ == old(self).aggregate@,
            final(self).targets@ == old(self).targets@,
            final(self).phase == Phase::Probing,
            match r {
                Some(url) => {
                    &&& old(self).in_flight < old(self).max_concurrency
                    &&& old(self).dispatched < old(self).targets@.len()
                    &&& url@ == old(self).targets@[old(self).dispatched as int].url@
                    &&& final(self).dispatched == old(self).dispatched + 1
                    &&& final(self).in_flight == old(self).in_flight + 1
                    &&& final(self).collected == old(self).collected
                },
                None => {
                    &&& (old(self).in_flight == old(self).max_concurrency
                        || old(self).dispatched == old(self).targets@.len())
                    &&& *final(self) == *old(self)
                },
            },
    {
        if self.in_flight < self.max_concurrency && self.dispatched < self.targets.len() {
            let url = self.targets[self.dispatched].url.clone();
            self.dispatched = self.dispatched + 1;
            self.in_flight = self.in_flight + 1;
            Some(url)
        } else {
            None
        }
    }

    /// One dispatched probe came back: its permit is released and its
    /// outcome is recorded at once, deltas derived from the pre-insertion
    /// state of that endpoint's history.
    pub fn record_result(&mut self, url: &String, outcome: CheckResult)
        requires
            old(self).wf(),
            old(self).phase == Phase::Probing,
            old(self).in_flight >= 1,
        ensures
            final(self).wf(),
            final(self).in_flight == old(self).in_flight - 1,
            final(self).collected == old(self).collected + 1,
            final(self).dispatched == old(self).dispatched,
            final(self).phase == Phase::Probing,
            final(self).targets@ == old(self).targets@,
            recorded(old(self).aggregate@, final(self).aggregate@, url@, outcome),
    {
        self.in_flight = self.in_flight - 1;
        self.collected = self.collected + 1;
        self.aggregate.record(url, outcome);
    }

    /// Whether this tick's barrier is reached: every configured endpoint's
    /// probe was dispatched and every result is back and recorded.
    pub fn tick_done(&self) -> (r: bool)
        requires
            self.wf(),
        ensures
            r == (self.dispatched == self.targets@.len() && self.in_flight == 0),
    {
        self.dispatched == self.targets.len() && self.in_flight == 0
    }

    /// The barrier is reached: move to Persisting.  The caller must now
    /// write the snapshot of the aggregate.
    pub fn complete_tick(&mut self)
        requires
            old(self).wf(),
            old(self).phase == Phase::Probing,
            old(self).dispatched == old(self).targets@.len(),
            old(self).in_flight == 0,
        ensures
            final(self).wf(),
            *final(self) == (Scheduler {
                phase: Phase::Persisting,
                dispatched: 0,
                in_flight: 0,
                collected: 0,
                ..*old(self)
            }),
    {
        self.phase = Phase::Persisting;
        self.dispatched = 0;
        self.in_flight = 0;
        self.collected = 0;
    }

    /// The snapshot write was attempted (a failed write is logged by the
    /// caller and swallowed; the next tick's write is independent): the tick
    /// is over.
    pub fn persisted(&mut self)
        requires
            old(self).wf(),
            old(self).phase == Phase::Persisting,
        ensures
            final(self).wf(),
            *final(self) == (Scheduler { phase: Phase::Idle, ..*old(self) }),
    {
        self.phase = Phase::Idle;
    }

    /// A shutdown signal arrived between ticks: stop.  In-flight probes of a
    /// tick in progress finish naturally first, since this step is only
    /// reachable from Idle.
    pub fn shutdown(&mut self)
        requires
            old(self).wf(),
            old(self).phase == Phase::Idle,
        ensures
            final(self).wf(),
            *final(self) == (Scheduler { phase: Phase::Stopped, ..*old(self) }),
    {
        self.phase = Phase::Stopped;
    }
}

} // verus!
