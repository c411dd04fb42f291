//! The decisions of the coordinator: counting signals, reporting throughput,
//! and stopping the run at its deadline.
use vstd::prelude::*;
use crate::ProcStatus;
use crate::worker::Signal;

verus! {

/// A progress report is due each time the success count reaches a multiple of this.
pub const REPORT_EVERY: u64 = 10000;

/// A progress report: successes so far and their rate per second.
#[derive(Clone, Copy, Debug, PartialEq, Eq, Structural)]
pub struct Progress {
    pub count: u64,
    pub qps: u64,
}

/// The coordinator's state.
pub struct Coordinator {
    pub run: ProcStatus,
    /// How many workers were started.
    pub connections: u32,
    /// How long the run lasts, in milliseconds.
    pub duration_ms: u64,
    /// Successes counted so far (it stays at `u64::MAX` once there).
    pub successes: u64,
    /// `Terminated` signals counted so far (never more than `connections`).
    pub terminated: u32,
}

/// Successes per second after `elapsed_ms` milliseconds, rounded down and capped
/// at `u64::MAX`; 0 while no time has passed.
pub open spec fn rate(count: nat, elapsed_ms: nat) -> nat {
    if elapsed_ms == 0 {
        0
    } else if count * 1000 / elapsed_ms > u64::MAX {
        u64::MAX as nat
    } else {
        count * 1000 / elapsed_ms
    }
}

/// The run state after a deadline check at `elapsed_ms`.
pub open spec fn run_after_tick(run: ProcStatus, duration_ms: u64, elapsed_ms: u64) -> ProcStatus {
    if elapsed_ms > duration_ms {
        ProcStatus::TERMINATE
    } else {
        run
    }
}

/// The run state after deadline checks at each of `ticks`, in order.
pub open spec fn run_after_ticks(run: ProcStatus, duration_ms: u64, ticks: Seq<u64>) -> ProcStatus
    decreases ticks.len(),
{
    if ticks.len() == 0 {
        run
    } else {
        run_after_ticks(run_after_tick(run, duration_ms, ticks[0]), duration_ms, ticks.drop_first())
    }
}

/// Once the run state is `TERMINATE`, no later deadline check brings back `RUNNING`.
pub proof fn lemma_terminate_is_final(duration_ms: u64, ticks: Seq<u64>)
    ensures
        run_after_ticks(ProcStatus::TERMINATE, duration_ms, ticks) == ProcStatus::TERMINATE,
    decreases ticks.len(),
{
    if ticks.len() > 0 {
        lemma_terminate_is_final(duration_ms, ticks.drop_first());
    }
}

/// Successes per second (see `rate`).
pub fn throughput(count: u64, elapsed_ms: u64) -> (r: u64)
    ensures
        r as nat == rate(count as nat, elapsed_ms as nat),
{
    if elapsed_ms == 0 {
        return 0;
    }
    let scaled: u128 = count as u128 * 1000;
    let q: u128 = scaled / elapsed_ms as u128;
    if q > u64::MAX as u128 {
        u64::MAX
    } else {
        q as u64
    }
}

impl Coordinator {
    /// A coordinator for `connections` workers and a run of `duration_secs` seconds.
    pub fn new(connections: u32, duration_secs: u32) -> (c: Coordinator)
        ensures
            c.run == ProcStatus::RUNNING,
            c.connections == connections,
            c.duration_ms == duration_secs as nat * 1000,
            c.successes == 0,
            c.terminated == 0,
    {
        Coordinator {
            run: ProcStatus::RUNNING,
            connections,
            duration_ms: duration_secs as u64 * 1000,
            successes: 0,
            terminated: 0,
        }
    }

    /// Counts one signal from a worker, `elapsed_ms` after the start. Returns a
    /// report when a success brings the count to a multiple of `REPORT_EVERY`.
    pub fn on_signal(&mut self, signal: Signal, elapsed_ms: u64) -> (r: Option<Progress>)
        ensures
            final(self).run == old(self).run,
            final(self).connections == old(self).connections,
            final(self).duration_ms == old(self).duration_ms,
            final(self).successes == if signal == Signal::Success && old(self).successes < u64::MAX {
                old(self).successes + 1
            } else {
                old(self).successes as int
            },
            final(self).terminated == if signal == Signal::Terminated && old(self).terminated
                < old(self).connections {
                old(self).terminated + 1
            } else {
                old(self).terminated as int
            },
            r == if signal == Signal::Success && old(self).successes < u64::MAX
                && final(self).successes % REPORT_EVERY == 0 {
                Some(
                    Progress {
                        count: final(self).successes,
                        qps: rate(final(self).successes as nat, elapsed_ms as nat) as u64,
                    },
                )
            } else {
                None::<Progress>
            },
    {
        match signal {
            Signal::Success => {
                if self.successes < u64::MAX {
                    self.successes = self.successes + 1;
                    if self.successes % REPORT_EVERY == 0 {
                        return Some(self.progress(elapsed_ms));
                    }
                }
                None
            },
            Signal::Terminated => {
                if self.terminated < self.connections {
                    self.terminated = self.terminated + 1;
                }
                None
            },
        }
    }

    /// The deadline check at `elapsed_ms` after the start: past the duration the
    /// run state becomes `TERMINATE`. Returns whether this call made that change.
    pub fn on_tick(&mut self, elapsed_ms: u64) -> (fired: bool)
        ensures
            final(self).run == run_after_tick(old(self).run, old(self).duration_ms, elapsed_ms),
            fired == (old(self).run == ProcStatus::RUNNING && elapsed_ms > old(self).duration_ms),
            old(self).run == ProcStatus::TERMINATE ==> final(self).run == ProcStatus::TERMINATE,
            final(self).connections == old(self).connections,
            final(self).duration_ms == old(self).duration_ms,
            final(self).successes == old(self).successes,
            final(self).terminated == old(self).terminated,
    {
        if elapsed_ms > self.duration_ms {
            let fired = self.run == ProcStatus::RUNNING;
            self.run = ProcStatus::TERMINATE;
            fired
        } else {
            false
        }
    }

    /// The current count and rate, `elapsed_ms` after the start.
    pub fn progress(&self, elapsed_ms: u64) -> (p: Progress)
        ensures
            p.count == self.successes,
            p.qps as nat == rate(self.successes as nat, elapsed_ms as nat),
    {
        Progress { count: self.successes, qps: throughput(self.successes, elapsed_ms) }
    }

    /// Whether the run is over: `TERMINATE` is set and every worker has reported
    /// `Terminated`.
    pub fn is_finished(&self) -> (r: bool)
        ensures
            r == (self.run == ProcStatus::TERMINATE && self.terminated == self.connections),
    {
        self.run == ProcStatus::TERMINATE && self.terminated == self.connections
    }
}

} // verus!
