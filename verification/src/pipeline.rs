//! Decisions of the user-space coordinator that drains the lifecycle ring
//! buffer and polls the kernel-side metrics map: how long to block, when the
//! map is due for a poll, which snapshots are handed downstream, and when the
//! coordinator goes on, starts over, or stops.

use vstd::prelude::*;
use crate::common::{ProcessLifecycleEvent, ProcessMetrics};
use crate::event_kind;
use crate::system_metrics::types::ProcessMetricsSnapshot;

verus! {

/// Longest time one wait on the ring buffer may block, so that shutdown is
/// noticed even when no event arrives: 200 ms, in nanoseconds.
pub const MAX_WAIT_NS: u64 = 200_000_000;

/// When the kernel-side metrics map was last polled, and how often it is
/// polled. Times are nanoseconds on a monotonic clock.
pub struct PollClock {
    pub poll_interval_ns: u64,
    pub last_poll_ns: u64,
}

/// Time since `last`, or 0 when `now` is earlier.
pub open spec fn elapsed(last: u64, now: u64) -> u64 {
    if now >= last {
        (now - last) as u64
    } else {
        0
    }
}

pub open spec fn min_u64(x: u64, y: u64) -> u64 {
    if x <= y {
        x
    } else {
        y
    }
}

/// Time left before the next poll falls due, or 0 when it is due.
pub open spec fn until_next_poll(interval: u64, last: u64, now: u64) -> u64 {
    if interval >= elapsed(last, now) {
        (interval - elapsed(last, now)) as u64
    } else {
        0
    }
}

/// How long one wait on the ring buffer blocks.
pub open spec fn poll_wait(interval: u64, last: u64, now: u64) -> u64 {
    min_u64(until_next_poll(interval, last, now), MAX_WAIT_NS)
}

/// Whether a full interval has passed since the last poll.
pub open spec fn poll_due(interval: u64, last: u64, now: u64) -> bool {
    elapsed(last, now) >= interval
}

/// The wait never delays a poll: when a poll is due the coordinator does not
/// block at all, and otherwise one wait ends no later than the moment the
/// poll falls due; either way it is at most `MAX_WAIT_NS`.
pub proof fn lemma_wait_respects_poll_schedule(interval: u64, last: u64, now: u64)
    ensures
        poll_due(interval, last, now) ==> poll_wait(interval, last, now) == 0,
        !poll_due(interval, last, now) ==> 0 < poll_wait(interval, last, now) && elapsed(last, now)
            + poll_wait(interval, last, now) <= interval,
        poll_wait(interval, last, now) <= MAX_WAIT_NS,
{
}

/// Right after a poll at `t`, the next one falls due exactly `interval`
/// nanoseconds later.
pub proof fn lemma_next_poll_after_interval(interval: u64, t: u64, now: u64)
    requires
        now >= t,
    ensures
        poll_due(interval, t, now) <==> now - t >= interval,
        poll_due(interval, t, t) <==> interval == 0,
{
}

impl PollClock {
    /// A clock whose last poll is `now_ns`.
    pub fn new(poll_interval_ns: u64, now_ns: u64) -> (res: Self)
        ensures
            res.poll_interval_ns == poll_interval_ns,
            res.last_poll_ns == now_ns,
    {
        PollClock { poll_interval_ns, last_poll_ns: now_ns }
    }

    /// Time since the last poll.
    pub fn elapsed_ns(&self, now_ns: u64) -> (res: u64)
        ensures
            res == elapsed(self.last_poll_ns, now_ns),
    {
        if now_ns >= self.last_poll_ns {
            now_ns - self.last_poll_ns
        } else {
            0
        }
    }

    /// How long to block waiting for ring-buffer data: until the next poll is
    /// due, but never longer than `MAX_WAIT_NS`.
    pub fn poll_wait_ns(&self, now_ns: u64) -> (res: u64)
        ensures
            res == poll_wait(self.poll_interval_ns, self.last_poll_ns, now_ns),
    {
        let since = self.elapsed_ns(now_ns);
        let to_next_poll = if self.poll_interval_ns >= since {
            self.poll_interval_ns - since
        } else {
            0
        };
        if to_next_poll <= MAX_WAIT_NS {
            to_next_poll
        } else {
            MAX_WAIT_NS
        }
    }

    /// Whether a full interval has passed since the last poll.
    pub fn metrics_poll_due(&self, now_ns: u64) -> (res: bool)
        ensures
            res == poll_due(self.poll_interval_ns, self.last_poll_ns, now_ns),
    {
        self.elapsed_ns(now_ns) >= self.poll_interval_ns
    }

    /// Records a poll made at `now_ns`.
    pub fn mark_polled(&mut self, now_ns: u64)
        ensures
            final(self).poll_interval_ns == old(self).poll_interval_ns,
            final(self).last_poll_ns == now_ns,
    {
        self.last_poll_ns = now_ns;
    }
}

/// How one wait on the ring buffer ended.
#[derive(Clone, Copy, Debug, PartialEq, Eq, Structural)]
pub enum WaitOutcome {
    /// Data arrived, a poll of the metrics map fell due, or the wait timed out.
    Ready,
    /// A signal interrupted the wait.
    Interrupted,
    /// The wait failed.
    Failed,
}

/// What the coordinator has just observed.
#[derive(Clone, Copy, Debug, PartialEq, Eq, Structural)]
pub enum CoordinatorEvent {
    /// A round is about to start; whether shutdown has been requested.
    RoundStart { shutdown_requested: bool },
    /// The wait on the ring buffer ended.
    WaitEnded(WaitOutcome),
    /// A lifecycle event was handed downstream; whether it was delivered.
    LifecycleSent { delivered: bool },
    /// An exiting process's final snapshot was handed downstream.
    FinalSnapshotSent { delivered: bool },
    /// A batch of snapshots from the metrics map was handed downstream.
    BatchSent { delivered: bool },
}

/// What the coordinator does next.
#[derive(Clone, Copy, Debug, PartialEq, Eq, Structural)]
pub enum CoordinatorAction {
    /// Go on with the round.
    Proceed,
    /// Start the round over, from the shutdown check.
    Restart,
    /// Stop without error.
    Finish,
    /// Stop with the wait's error.
    Fail,
}

/// The coordinator's rule: stop when shutdown is requested or the pipeline
/// has hung up (a lifecycle event or a batch was not delivered); start over
/// when a signal interrupted the wait; stop with an error when the wait
/// failed. A final snapshot that was not delivered is not a reason to stop.
pub open spec fn coordinator_action(event: CoordinatorEvent) -> CoordinatorAction {
    match event {
        CoordinatorEvent::RoundStart { shutdown_requested } => if shutdown_requested {
            CoordinatorAction::Finish
        } else {
            CoordinatorAction::Proceed
        },
        CoordinatorEvent::WaitEnded(outcome) => match outcome {
            WaitOutcome::Ready => CoordinatorAction::Proceed,
            WaitOutcome::Interrupted => CoordinatorAction::Restart,
            WaitOutcome::Failed => CoordinatorAction::Fail,
        },
        CoordinatorEvent::LifecycleSent { delivered } => if delivered {
            CoordinatorAction::Proceed
        } else {
            CoordinatorAction::Finish
        },
        CoordinatorEvent::FinalSnapshotSent { .. } => CoordinatorAction::Proceed,
        CoordinatorEvent::BatchSent { delivered } => if delivered {
            CoordinatorAction::Proceed
        } else {
            CoordinatorAction::Finish
        },
    }
}

/// What the coordinator does after observing `event`.
pub fn coordinator_step(event: CoordinatorEvent) -> (res: CoordinatorAction)
    ensures
        res == coordinator_action(event),
{
    match event {
        CoordinatorEvent::RoundStart { shutdown_requested } => if shutdown_requested {
            CoordinatorAction::Finish
        } else {
            CoordinatorAction::Proceed
        },
        CoordinatorEvent::WaitEnded(outcome) => match outcome {
            WaitOutcome::Ready => CoordinatorAction::Proceed,
            WaitOutcome::Interrupted => CoordinatorAction::Restart,
            WaitOutcome::Failed => CoordinatorAction::Fail,
        },
        CoordinatorEvent::LifecycleSent { delivered } => if delivered {
            CoordinatorAction::Proceed
        } else {
            CoordinatorAction::Finish
        },
        CoordinatorEvent::FinalSnapshotSent { .. } => CoordinatorAction::Proceed,
        CoordinatorEvent::BatchSent { delivered } => if delivered {
            CoordinatorAction::Proceed
        } else {
            CoordinatorAction::Finish
        },
    }
}

/// Whether an event ends a process, so that its counters leave the
/// kernel-side map.
pub fn releases_metrics(event: &ProcessLifecycleEvent) -> (res: bool)
    ensures
        res == (event.event_kind == event_kind::EXIT),
{
    event.event_kind == event_kind::EXIT
}

/// The final snapshot sent for an exiting process whose counters were found:
/// one snapshot of those counters; nothing for other events or when the
/// counters were not found.
pub fn final_snapshot(event: &ProcessLifecycleEvent, final_metrics: Option<ProcessMetrics>) -> (res:
    Option<Vec<ProcessMetricsSnapshot>>)
    ensures
        event.event_kind == event_kind::EXIT && final_metrics is Some <==> res is Some,
        res matches Some(v) ==> v@ == seq![
            ProcessMetricsSnapshot { pid: event.pid, metrics: final_metrics->Some_0 },
        ],
{
    if event.event_kind == event_kind::EXIT {
        match final_metrics {
            Some(metrics) => {
                let mut snapshot: Vec<ProcessMetricsSnapshot> = Vec::new();
                snapshot.push(ProcessMetricsSnapshot { pid: event.pid, metrics });
                Some(snapshot)
            },
            None => None,
        }
    } else {
        None
    }
}

/// The snapshots that the entries read from the metrics map give, in order;
/// entries that could not be read (`None`) are skipped.
pub open spec fn present_snapshots(entries: Seq<Option<(u32, ProcessMetrics)>>) -> Seq<
    ProcessMetricsSnapshot,
>
    decreases entries.len(),
{
    if entries.len() == 0 {
        Seq::empty()
    } else {
        let rest = present_snapshots(entries.drop_last());
        match entries.last() {
            Some((pid, metrics)) => rest.push(ProcessMetricsSnapshot { pid, metrics }),
            None => rest,
        }
    }
}

/// The snapshot an entry read from the metrics map gives, if it could be read.
pub open spec fn snapshot_of(entry: Option<(u32, ProcessMetrics)>) -> Option<ProcessMetricsSnapshot> {
    match entry {
        Some((pid, metrics)) => Some(ProcessMetricsSnapshot { pid, metrics }),
        None => None,
    }
}

/// Whether an entry of the metrics map could be read.
pub open spec fn is_readable(entry: Option<(u32, ProcessMetrics)>) -> bool {
    entry is Some
}

/// Every entry that could be read gives one snapshot of its pid and counters,
/// in the order the entries were read, and nothing else goes into the batch:
/// the batch is the readable entries, mapped to snapshots, and it has as many
/// snapshots as there are readable entries.
pub proof fn lemma_batch_holds_every_readable_entry(entries: Seq<Option<(u32, ProcessMetrics)>>)
    ensures
        present_snapshots(entries) == entries.filter_map(|o| snapshot_of(o)),
        present_snapshots(entries).len() == entries.filter(|o| is_readable(o)).len(),
    decreases entries.len(),
{
    reveal_with_fuel(Seq::filter_map, 1);
    reveal_with_fuel(Seq::filter, 1);
    if entries.len() > 0 {
        lemma_batch_holds_every_readable_entry(entries.drop_last());
        let rest = present_snapshots(entries.drop_last());
        match entries.last() {
            Some((pid, metrics)) => {
                assert(rest.push(ProcessMetricsSnapshot { pid, metrics }) =~= rest + seq![
                    ProcessMetricsSnapshot { pid, metrics },
                ]);
            },
            None => {},
        }
    }
}

/// The batch of snapshots made from one pass over the metrics map, in the
/// order the entries were read; `None` when no entry could be read, since an
/// empty batch is not sent downstream.
pub fn metrics_batch(entries: &Vec<Option<(u32, ProcessMetrics)>>) -> (res: Option<
    Vec<ProcessMetricsSnapshot>,
>)
    ensures
        match res {
            Some(batch) => batch@ == present_snapshots(entries@) && batch@.len() > 0,
            None => present_snapshots(entries@).len() == 0,
        },
        res matches Some(batch) ==> batch@ == entries@.filter_map(|o| snapshot_of(o)),
        res is None <==> entries@.filter(|o| is_readable(o)).len() == 0,
{
    let mut batch: Vec<ProcessMetricsSnapshot> = Vec::new();
    let mut i: usize = 0;
    while i < entries.len()
        invariant
            i <= entries@.len(),
            batch@ == present_snapshots(entries@.take(i as int)),
        decreases entries@.len() - i,
    {
        assert(entries@.take(i + 1).drop_last() =~= entries@.take(i as int));
        match entries[i] {
            Some((pid, metrics)) => {
                batch.push(ProcessMetricsSnapshot { pid, metrics });
            },
            None => {},
        }
        i = i + 1;
    }
    assert(entries@.take(i as int) =~= entries@);
    proof {
        lemma_batch_holds_every_readable_entry(entries@);
    }
    if batch.len() == 0 {
        None
    } else {
        Some(batch)
    }
}

} // verus!
