use chronosys::common::{ProcessLifecycleEvent, ProcessMetrics};
use chronosys::event_kind;
use chronosys::pipeline::{
    coordinator_step, final_snapshot, metrics_batch, releases_metrics, CoordinatorAction,
    CoordinatorEvent, PollClock, WaitOutcome, MAX_WAIT_NS,
};

const MS: u64 = 1_000_000;

#[test]
fn wait_is_capped_and_ends_when_poll_is_due() {
    let clock = PollClock::new(500 * MS, 1_000 * MS);
    assert_eq!(clock.poll_wait_ns(1_000 * MS), MAX_WAIT_NS);
    assert_eq!(clock.poll_wait_ns(1_100 * MS), 200 * MS);
    assert_eq!(clock.poll_wait_ns(1_450 * MS), 50 * MS);
    assert!(!clock.metrics_poll_due(1_450 * MS));
    assert_eq!(clock.poll_wait_ns(1_500 * MS), 0);
    assert!(clock.metrics_poll_due(1_500 * MS));
    assert_eq!(clock.poll_wait_ns(9_000 * MS), 0);
    assert!(clock.metrics_poll_due(9_000 * MS));
}

#[test]
fn clock_before_last_poll_counts_no_time() {
    let clock = PollClock::new(500 * MS, 1_000 * MS);
    assert_eq!(clock.elapsed_ns(10), 0);
    assert!(!clock.metrics_poll_due(10));
    assert_eq!(clock.poll_wait_ns(10), MAX_WAIT_NS);
}

#[test]
fn marking_a_poll_restarts_the_interval() {
    let mut clock = PollClock::new(200 * MS, 0);
    assert!(clock.metrics_poll_due(200 * MS));
    clock.mark_polled(200 * MS);
    assert_eq!(clock.last_poll_ns, 200 * MS);
    assert_eq!(clock.poll_interval_ns, 200 * MS);
    assert!(!clock.metrics_poll_due(399 * MS));
    assert!(clock.metrics_poll_due(400 * MS));
}

fn metrics(n: u64) -> ProcessMetrics {
    ProcessMetrics {
        bytes_read: n,
        bytes_written: 0,
        read_ops: 0,
        write_ops: 0,
        cpu_cycles_ns: 0,
        syscall_errors: 0,
    }
}

fn event(kind: u8, pid: u32) -> ProcessLifecycleEvent {
    ProcessLifecycleEvent {
        timestamp_ns: 0,
        pid,
        ppid: 0,
        uid: 0,
        gid: 0,
        exit_code: 0,
        event_kind: kind,
        _pad: [0; 3],
        comm: [0; 16],
    }
}

#[test]
fn exit_sends_one_final_snapshot() {
    let exit = event(event_kind::EXIT, 7);
    assert!(releases_metrics(&exit));
    let snap = final_snapshot(&exit, Some(metrics(11))).unwrap();
    assert_eq!(snap.len(), 1);
    assert_eq!(snap[0].pid, 7);
    assert_eq!(snap[0].metrics.bytes_read, 11);
    assert!(final_snapshot(&exit, None).is_none());
}

#[test]
fn exec_sends_no_snapshot() {
    let exec = event(event_kind::EXEC, 7);
    assert!(!releases_metrics(&exec));
    assert!(final_snapshot(&exec, Some(metrics(1))).is_none());
}

#[test]
fn batch_skips_unreadable_entries_in_order() {
    let entries = vec![Some((1, metrics(10))), None, Some((3, metrics(30))), None];
    let batch = metrics_batch(&entries).unwrap();
    assert_eq!(batch.len(), 2);
    assert_eq!((batch[0].pid, batch[0].metrics.bytes_read), (1, 10));
    assert_eq!((batch[1].pid, batch[1].metrics.bytes_read), (3, 30));
}

#[test]
fn empty_batch_is_not_sent() {
    assert!(metrics_batch(&vec![None, None]).is_none());
    assert!(metrics_batch(&Vec::new()).is_none());
}

#[test]
fn shutdown_is_checked_at_each_round() {
    let finish = coordinator_step(CoordinatorEvent::RoundStart { shutdown_requested: true });
    assert_eq!(finish, CoordinatorAction::Finish);
    let go_on = coordinator_step(CoordinatorEvent::RoundStart { shutdown_requested: false });
    assert_eq!(go_on, CoordinatorAction::Proceed);
}

#[test]
fn wait_outcomes_decide_the_round() {
    assert_eq!(coordinator_step(CoordinatorEvent::WaitEnded(WaitOutcome::Ready)), CoordinatorAction::Proceed);
    assert_eq!(
        coordinator_step(CoordinatorEvent::WaitEnded(WaitOutcome::Interrupted)),
        CoordinatorAction::Restart
    );
    assert_eq!(coordinator_step(CoordinatorEvent::WaitEnded(WaitOutcome::Failed)), CoordinatorAction::Fail);
}

#[test]
fn hung_up_pipeline_stops_the_coordinator() {
    for delivered in [true, false] {
        let expected = if delivered { CoordinatorAction::Proceed } else { CoordinatorAction::Finish };
        assert_eq!(coordinator_step(CoordinatorEvent::LifecycleSent { delivered }), expected);
        assert_eq!(coordinator_step(CoordinatorEvent::BatchSent { delivered }), expected);
        // an undelivered final snapshot is no reason to stop
        assert_eq!(
            coordinator_step(CoordinatorEvent::FinalSnapshotSent { delivered }),
            CoordinatorAction::Proceed
        );
    }
}
