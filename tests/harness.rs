use yaya::coordinator::{throughput, Coordinator, Progress, REPORT_EVERY};
use yaya::simple_http::Outcome;
use yaya::worker::{Action, Event, Phase, Signal, Worker};
use yaya::ProcStatus;

#[test]
fn worker_connects_then_requests() {
    let mut w = Worker::new();
    assert_eq!(w.next_action(ProcStatus::RUNNING), Action::Connect);
    assert_eq!(w.observe(Event::Connected), None);
    assert_eq!(w.next_action(ProcStatus::RUNNING), Action::Request);
    assert_eq!(w.observe(Event::Responded(Outcome::Okay)), Some(Signal::Success));
    assert_eq!(w.phase, Phase::Connected);
    assert_eq!(w.next_action(ProcStatus::RUNNING), Action::Request);
}

#[test]
fn worker_reconnects_after_peer_closing() {
    let mut w = Worker::new();
    w.next_action(ProcStatus::RUNNING);
    w.observe(Event::Connected);
    assert_eq!(w.next_action(ProcStatus::RUNNING), Action::Request);
    assert_eq!(w.observe(Event::Responded(Outcome::OkWithPeerClosing)), Some(Signal::Success));
    assert_eq!(w.next_action(ProcStatus::RUNNING), Action::Connect);
}

#[test]
fn worker_failure_is_no_success() {
    let mut w = Worker::new();
    w.next_action(ProcStatus::RUNNING);
    w.observe(Event::Connected);
    w.next_action(ProcStatus::RUNNING);
    assert_eq!(w.observe(Event::Responded(Outcome::Failed)), None);
    assert_eq!(w.failures, 1);
    assert_eq!(w.next_action(ProcStatus::RUNNING), Action::Connect);
    assert_eq!(w.observe(Event::ConnectFailed), None);
    assert_eq!(w.next_action(ProcStatus::RUNNING), Action::Connect);
    w.observe(Event::Connected);
    w.next_action(ProcStatus::RUNNING);
    assert_eq!(w.observe(Event::Lost), None);
    assert_eq!(w.failures, 2);
}

#[test]
fn worker_exits_on_terminate() {
    let mut w = Worker::new();
    w.next_action(ProcStatus::RUNNING);
    w.observe(Event::Connected);
    assert_eq!(w.next_action(ProcStatus::TERMINATE), Action::Exit);
    assert_eq!(w.phase, Phase::Finished);
}

#[test]
fn coordinator_counts_and_stops_at_deadline() {
    let mut c = Coordinator::new(5, 1);
    assert_eq!(c.duration_ms, 1000);
    assert_eq!(c.on_signal(Signal::Success, 10), None);
    assert_eq!(c.successes, 1);
    assert!(!c.on_tick(1000));
    assert_eq!(c.run, ProcStatus::RUNNING);
    assert!(c.on_tick(1001));
    assert_eq!(c.run, ProcStatus::TERMINATE);
    assert!(!c.on_tick(1002));
    assert!(!c.is_finished());
    for _ in 0..5 {
        c.on_signal(Signal::Terminated, 1100);
    }
    assert!(c.is_finished());
    c.on_signal(Signal::Terminated, 1100);
    assert_eq!(c.terminated, 5);
}

#[test]
fn terminate_survives_many_reads() {
    let mut c = Coordinator::new(3, 0);
    assert!(c.on_tick(1));
    for i in 0..1000u64 {
        c.on_tick(i % 2);
        c.on_signal(Signal::Success, i);
        assert_eq!(c.run, ProcStatus::TERMINATE);
    }
}

#[test]
fn no_connections_finish_at_deadline() {
    let mut c = Coordinator::new(0, 2);
    assert!(!c.on_tick(2000));
    assert!(!c.is_finished());
    assert!(c.on_tick(2001));
    assert!(c.is_finished());
}

#[test]
fn progress_reported_every_ten_thousand() {
    let mut c = Coordinator::new(1, 10);
    for _ in 1..REPORT_EVERY {
        assert_eq!(c.on_signal(Signal::Success, 2000), None);
    }
    assert_eq!(c.on_signal(Signal::Success, 2000), Some(Progress { count: 10000, qps: 5000 }));
    assert_eq!(c.on_signal(Signal::Success, 2000), None);
}

#[test]
fn throughput_values() {
    assert_eq!(throughput(10000, 2000), 5000);
    assert_eq!(throughput(7, 3000), 2);
    assert_eq!(throughput(5, 0), 0);
    assert_eq!(throughput(u64::MAX, 1), u64::MAX);
    let c = Coordinator::new(1, 1);
    assert_eq!(c.progress(500), Progress { count: 0, qps: 0 });
}
