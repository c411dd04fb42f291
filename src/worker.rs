//! The decisions of one connection worker.
//!
//! A worker owns one connection. At the top of each round it looks at the run
//! state: on `TERMINATE` it reports `Terminated` once and stops for good;
//! otherwise it connects, or sends one request and reads one response. Whatever
//! ends a connection (a failed connect, an I/O or parse error, a response that
//! is not a success, a peer that announces it will close) leads to a fresh
//! connection in the next round.
use vstd::prelude::*;
use crate::ProcStatus;
use crate::simple_http::Outcome;

verus! {

/// Where a worker stands.
#[derive(Clone, Copy, Debug, PartialEq, Eq, Structural)]
pub enum Phase {
    /// No open connection.
    Disconnected,
    /// A connection is open and ready for the next request.
    Connected,
    /// The worker has reported `Terminated` and stopped.
    Finished,
}

/// What a worker does next.
#[derive(Clone, Copy, Debug, PartialEq, Eq, Structural)]
pub enum Action {
    /// Open a connection to the target.
    Connect,
    /// Send one request and read until one response has been decoded.
    Request,
    /// Report `Terminated` and stop.
    Exit,
}

/// What came of a `Connect` or a `Request`.
#[derive(Clone, Copy, Debug, PartialEq, Eq, Structural)]
pub enum Event {
    Connected,
    ConnectFailed,
    /// A response was decoded, with this outcome.
    Responded(Outcome),
    /// The connection failed: an I/O error, a decode error, or the peer closed it.
    Lost,
}

/// What a worker tells the coordinator.
#[derive(Clone, Copy, Debug, PartialEq, Eq, Structural)]
pub enum Signal {
    /// One request was answered with status 200.
    Success,
    /// The worker saw `TERMINATE` and has stopped.
    Terminated,
}

/// One connection worker's state.
pub struct Worker {
    pub phase: Phase,
    /// Responses that were not a success, and connections that were lost.
    pub failures: u64,
}

/// The worker's decision at the top of a round: its next phase and action.
pub open spec fn decide(phase: Phase, run: ProcStatus) -> (Phase, Action) {
    if run == ProcStatus::TERMINATE {
        (Phase::Finished, Action::Exit)
    } else if phase == Phase::Connected {
        (Phase::Connected, Action::Request)
    } else {
        (Phase::Disconnected, Action::Connect)
    }
}

/// The worker's phase after an event, and the signal it sends, if any.
pub open spec fn absorb(event: Event) -> (Phase, Option<Signal>) {
    match event {
        Event::Connected => (Phase::Connected, None),
        Event::ConnectFailed => (Phase::Disconnected, None),
        Event::Responded(Outcome::Okay) => (Phase::Connected, Some(Signal::Success)),
        Event::Responded(Outcome::OkWithPeerClosing) => (Phase::Disconnected, Some(Signal::Success)),
        Event::Responded(Outcome::Failed) => (Phase::Disconnected, None),
        Event::Lost => (Phase::Disconnected, None),
    }
}

/// Whether an event counts as a failure.
pub open spec fn is_failure(event: Event) -> bool {
    event == Event::Responded(Outcome::Failed) || event == Event::Lost
}

impl Worker {
    /// A worker without a connection.
    pub fn new() -> (w: Worker)
        ensures
            w.phase == Phase::Disconnected,
            w.failures == 0,
    {
        Worker { phase: Phase::Disconnected, failures: 0 }
    }

    /// Decides the next action from the run state seen at the top of a round.
    pub fn next_action(&mut self, run: ProcStatus) -> (a: Action)
        requires
            old(self).phase != Phase::Finished,
        ensures
            (final(self).phase, a) == decide(old(self).phase, run),
            final(self).failures == old(self).failures,
    {
        if run == ProcStatus::TERMINATE {
            self.phase = Phase::Finished;
            Action::Exit
        } else if self.phase == Phase::Connected {
            Action::Request
        } else {
            self.phase = Phase::Disconnected;
            Action::Connect
        }
    }

    /// Takes in what came of the last action; returns the signal to send.
    /// Failures are counted, up to `u64::MAX`.
    pub fn observe(&mut self, event: Event) -> (s: Option<Signal>)
        requires
            old(self).phase != Phase::Finished,
        ensures
            (final(self).phase, s) == absorb(event),
            final(self).failures == if is_failure(event) && old(self).failures < u64::MAX {
                old(self).failures + 1
            } else {
                old(self).failures as int
            },
    {
        if (event == Event::Responded(Outcome::Failed) || event == Event::Lost) && self.failures
            < u64::MAX {
            self.failures = self.failures + 1;
        }
        match event {
            Event::Connected => {
                self.phase = Phase::Connected;
                None
            },
            Event::ConnectFailed => {
                self.phase = Phase::Disconnected;
                None
            },
            Event::Responded(Outcome::Okay) => {
                self.phase = Phase::Connected;
                Some(Signal::Success)
            },
            Event::Responded(Outcome::OkWithPeerClosing) => {
                self.phase = Phase::Disconnected;
                Some(Signal::Success)
            },
            Event::Responded(Outcome::Failed) => {
                self.phase = Phase::Disconnected;
                None
            },
            Event::Lost => {
                self.phase = Phase::Disconnected;
                None
            },
        }
    }
}

/// The signals a worker sends over rounds that begin in `phase`: in each round
/// it sees the run state and, unless it stops, the event of the round.
pub open spec fn signals_of(phase: Phase, rounds: Seq<(ProcStatus, Event)>) -> Seq<Signal>
    decreases rounds.len(),
{
    if rounds.len() == 0 || phase == Phase::Finished {
        Seq::empty()
    } else {
        let (next, action) = decide(phase, rounds[0].0);
        if action == Action::Exit {
            seq![Signal::Terminated]
        } else {
            let (after, sent) = absorb(rounds[0].1);
            let rest = signals_of(after, rounds.drop_first());
            match sent {
                Some(s) => seq![s] + rest,
                None => rest,
            }
        }
    }
}

/// How many of `signals` are `Terminated`.
pub open spec fn terminated_count(signals: Seq<Signal>) -> nat
    decreases signals.len(),
{
    if signals.len() == 0 {
        0
    } else {
        terminated_count(signals.drop_first()) + if signals[0] == Signal::Terminated {
            1nat
        } else {
            0nat
        }
    }
}

/// A worker that has not stopped reports `Terminated` exactly once, as its last
/// signal, when some round shows it `TERMINATE`, and never before.
pub proof fn lemma_terminated_once(phase: Phase, rounds: Seq<(ProcStatus, Event)>)
    requires
        phase != Phase::Finished,
    ensures
        (exists|i: int| 0 <= i < rounds.len() && (#[trigger] rounds[i]).0 == ProcStatus::TERMINATE)
            ==> terminated_count(signals_of(phase, rounds)) == 1 && signals_of(phase, rounds).last()
            == Signal::Terminated,
        (forall|i: int| 0 <= i < rounds.len() ==> (#[trigger] rounds[i]).0 == ProcStatus::RUNNING)
            ==> terminated_count(signals_of(phase, rounds)) == 0,
    decreases rounds.len(),
{
    if rounds.len() > 0 {
        let tail = rounds.drop_first();
        if rounds[0].0 == ProcStatus::TERMINATE {
            assert(signals_of(phase, rounds) == seq![Signal::Terminated]);
            assert(terminated_count(seq![Signal::Terminated].drop_first()) == 0);
        } else {
            let (after, sent) = absorb(rounds[0].1);
            assert(after != Phase::Finished);
            lemma_terminated_once(after, tail);
            let rest = signals_of(after, tail);
            if exists|i: int| 0 <= i < rounds.len() && (#[trigger] rounds[i]).0 == ProcStatus::TERMINATE {
                let i = choose|i: int| 0 <= i < rounds.len() && (#[trigger] rounds[i]).0 == ProcStatus::TERMINATE;
                assert(tail[i - 1] == rounds[i]);
            }
            if forall|i: int| 0 <= i < rounds.len() ==> (#[trigger] rounds[i]).0 == ProcStatus::RUNNING {
                assert forall|i: int| 0 <= i < tail.len() implies (#[trigger] tail[i]).0 == ProcStatus::RUNNING by {
                    assert(tail[i] == rounds[i + 1]);
                }
            }
            if let Some(s) = sent {
                assert((seq![s] + rest).drop_first() == rest);
                assert(s == Signal::Success);
            }
        }
    }
}

/// After a response whose peer announced `Connection: close`, a worker has sent
/// exactly one `Success` and, while the run goes on, connects afresh.
pub proof fn lemma_reconnect_after_close()
    ensures
        absorb(Event::Responded(Outcome::OkWithPeerClosing)) == (Phase::Disconnected, Some(Signal::Success)),
        decide(Phase::Disconnected, ProcStatus::RUNNING) == (Phase::Disconnected, Action::Connect),
{
}

} // verus!
