//! Timekeeping, anomaly scheduling and ground-truth bookkeeping of the simulation
//! engine.
//!
//! The engine's scenarios generate log records outside this crate. A tick runs in three
//! steps: `begin_tick` activates the anomalies that are due; `step_entry`, called for
//! each scheduled anomaly in order, says whether its scenario generates logs this tick
//! or has completed; `finish_tick` drops the completed anomalies, advances the clock
//! and counts the logs of the tick.

use vstd::prelude::*;

use crate::decimal::{decimal, push_decimal};
use crate::sim::{
    fresh_record, has_id, id_index, EngineState, EngineStats, GroundTruthTracker,
    GroundTruthView, SimulationStatus,
};
use vstd::string::StringExecFns;

verus! {

broadcast use vstd::string::group_string_axioms;

/// An anomaly scheduled for injection.
#[derive(Debug, Clone)]
pub struct ScheduledAnomaly {
    pub anomaly_id: String,
    /// Type recorded in the ground truth (the scenario's display name).
    pub anomaly_type: String,
    pub start_time_ns: u64,
    pub end_time_ns: u64,
    pub activated: bool,
}

/// The values of a [`ScheduledAnomaly`].
pub struct ScheduledView {
    pub anomaly_id: Seq<char>,
    pub anomaly_type: Seq<char>,
    pub start_time_ns: u64,
    pub end_time_ns: u64,
    pub activated: bool,
}

impl View for ScheduledAnomaly {
    type V = ScheduledView;

    open spec fn view(&self) -> ScheduledView {
        ScheduledView {
            anomaly_id: self.anomaly_id@,
            anomaly_type: self.anomaly_type@,
            start_time_ns: self.start_time_ns,
            end_time_ns: self.end_time_ns,
            activated: self.activated,
        }
    }
}

/// The values of a sequence of scheduled anomalies.
pub open spec fn scheduled_views(s: Seq<ScheduledAnomaly>) -> Seq<ScheduledView> {
    s.map_values(|e: ScheduledAnomaly| e@)
}

/// Whether an anomaly not yet active is due at `now`.
pub open spec fn due(e: ScheduledView, now: u64) -> bool {
    !e.activated && now >= e.start_time_ns
}

/// The anomaly after the activation pass at `now`.
pub open spec fn after_activation(e: ScheduledView, now: u64) -> ScheduledView {
    ScheduledView { activated: e.activated || now >= e.start_time_ns, ..e }
}

/// Whether an active anomaly has run its course at `now`.
pub open spec fn completes(e: ScheduledView, now: u64) -> bool {
    e.activated && now >= e.end_time_ns
}

/// Whether an active anomaly's scenario generates logs at `now`.
pub open spec fn generates(e: ScheduledView, now: u64) -> bool {
    e.activated && now < e.end_time_ns
}

/// The active ground-truth records after starting the record of anomaly `e`: a record
/// with the same identifier is replaced, otherwise the record is appended.
pub open spec fn started_record(active: Seq<GroundTruthView>, e: ScheduledView) -> Seq<
    GroundTruthView,
> {
    let rec = fresh_record(e.anomaly_id, e.anomaly_type, e.start_time_ns, e.end_time_ns);
    if has_id(active, e.anomaly_id) {
        active.update(id_index(active, e.anomaly_id), rec)
    } else {
        active.push(rec)
    }
}

/// The active ground-truth records after the activation pass over `entries` at `now`,
/// starting from `active`: each due anomaly starts its record, in order.
pub open spec fn activate_all(
    entries: Seq<ScheduledView>,
    now: u64,
    active: Seq<GroundTruthView>,
) -> Seq<GroundTruthView>
    decreases entries.len(),
{
    if entries.len() == 0 {
        active
    } else {
        let prev = activate_all(entries.drop_last(), now, active);
        if due(entries.last(), now) {
            started_record(prev, entries.last())
        } else {
            prev
        }
    }
}

/// How many of `entries` are due at `now`.
pub open spec fn count_due(entries: Seq<ScheduledView>, now: u64) -> nat
    decreases entries.len(),
{
    if entries.len() == 0 {
        0
    } else {
        count_due(entries.drop_last(), now) + if due(entries.last(), now) {
            1nat
        } else {
            0nat
        }
    }
}

/// The anomalies that stay scheduled after a tick at `now`: those that did not complete.
pub open spec fn remaining(entries: Seq<ScheduledView>, now: u64) -> Seq<ScheduledView>
    decreases entries.len(),
{
    if entries.len() == 0 {
        entries
    } else {
        let prev = remaining(entries.drop_last(), now);
        if completes(entries.last(), now) {
            prev
        } else {
            prev.push(entries.last())
        }
    }
}

/// The positions of the anomalies that complete at `now`, in increasing order.
pub open spec fn completed_positions(entries: Seq<ScheduledView>, now: u64) -> Seq<usize>
    decreases entries.len(),
{
    if entries.len() == 0 {
        Seq::empty()
    } else {
        let prev = completed_positions(entries.drop_last(), now);
        if completes(entries.last(), now) {
            prev.push((entries.len() - 1) as usize)
        } else {
            prev
        }
    }
}

proof fn lemma_count_due_bound(entries: Seq<ScheduledView>, now: u64)
    ensures
        count_due(entries, now) <= entries.len(),
    decreases entries.len(),
{
    if entries.len() > 0 {
        lemma_count_due_bound(entries.drop_last(), now);
    }
}

proof fn lemma_completed_positions_bound(entries: Seq<ScheduledView>, now: u64)
    ensures
        completed_positions(entries, now).len() <= entries.len(),
        forall|j: int|
            0 <= j < completed_positions(entries, now).len() ==> #[trigger] completed_positions(
                entries,
                now,
            )[j] < entries.len(),
    decreases entries.len(),
{
    if entries.len() > 0 {
        lemma_completed_positions_bound(entries.drop_last(), now);
    }
}

/// A copy of a scheduled anomaly.
fn copy_of(e: &ScheduledAnomaly) -> (r: ScheduledAnomaly)
    ensures
        r@ == e@,
{
    ScheduledAnomaly {
        anomaly_id: e.anomaly_id.clone(),
        anomaly_type: e.anomaly_type.clone(),
        start_time_ns: e.start_time_ns,
        end_time_ns: e.end_time_ns,
        activated: e.activated,
    }
}

/// A tick splits the schedule: every anomaly either completes (and its position is
/// reported) or stays, and none that stays has run its course.
pub proof fn lemma_tick_partitions(entries: Seq<ScheduledView>, now: u64)
    requires
        entries.len() <= usize::MAX,
    ensures
        remaining(entries, now).len() + completed_positions(entries, now).len() == entries.len(),
        forall|j: int|
            0 <= j < remaining(entries, now).len() ==> !completes(
                #[trigger] remaining(entries, now)[j],
                now,
            ),
        forall|j: int|
            0 <= j < completed_positions(entries, now).len() ==> completes(
                entries[#[trigger] completed_positions(entries, now)[j] as int],
                now,
            ),
    decreases entries.len(),
{
    if entries.len() > 0 {
        let prefix = entries.drop_last();
        lemma_tick_partitions(prefix, now);
        lemma_completed_positions_bound(prefix, now);
        assert forall|j: int| 0 <= j < completed_positions(prefix, now).len() implies entries[
            #[trigger] completed_positions(prefix, now)[j] as int] == prefix[completed_positions(prefix, now)[j] as int] by {}
        if completes(entries.last(), now) {
            let c = completed_positions(entries, now);
            assert(c[c.len() - 1] == entries.len() - 1);
        }
    }
}

/// What an anomaly's scenario does in the current tick.
#[derive(Debug, Clone, Copy, PartialEq, Eq, Structural)]
pub enum EntryStep {
    /// Not active yet.
    Idle,
    /// Active: its scenario generates logs, which count toward its ground truth.
    Generate,
    /// Its time is over: its ground truth is final and it leaves the schedule.
    Complete,
}

/// The engine's clock, run state, counters, scheduled anomalies and ground truth.
pub struct EngineCore {
    scheduled: Vec<ScheduledAnomaly>,
    current_time_ns: u64,
    start_time_ns: u64,
    ground_truth: GroundTruthTracker,
    state: EngineState,
    stats: EngineStats,
    /// Time of the tick in progress, and how far `step_entry` has gone through the
    /// schedule.
    tick_time_ns: u64,
    cursor: usize,
}

impl EngineCore {
    /// The scheduled anomalies.
    pub closed spec fn spec_scheduled(&self) -> Seq<ScheduledView> {
        scheduled_views(self.scheduled@)
    }

    /// The simulation clock, in nanoseconds since the epoch.
    pub closed spec fn spec_current_time(&self) -> u64 {
        self.current_time_ns
    }

    /// When the simulation started.
    pub closed spec fn spec_start_time(&self) -> u64 {
        self.start_time_ns
    }

    /// The run state.
    pub closed spec fn spec_state(&self) -> EngineState {
        self.state
    }

    /// The counters.
    pub closed spec fn spec_stats(&self) -> EngineStats {
        self.stats
    }

    /// The ground-truth tracker.
    pub closed spec fn spec_ground_truth(&self) -> GroundTruthTracker {
        self.ground_truth
    }

    /// How many anomalies `step_entry` has gone through in the tick in progress.
    pub closed spec fn spec_cursor(&self) -> usize {
        self.cursor
    }

    /// The time of the tick in progress.
    pub closed spec fn spec_tick_time(&self) -> u64 {
        self.tick_time_ns
    }

    /// The tracker is well formed and the step cursor stays within the schedule.
    pub closed spec fn wf(&self) -> bool {
        &&& self.ground_truth.wf()
        &&& self.cursor <= self.scheduled@.len()
    }

    /// A stopped engine whose clock reads `now`, with nothing scheduled.
    pub fn new(now: u64) -> (r: Self)
        ensures
            r.wf(),
            r.spec_state() == EngineState::Stopped,
            r.spec_current_time() == now,
            r.spec_start_time() == now,
            r.spec_scheduled() == Seq::<ScheduledView>::empty(),
            r.spec_stats() == (EngineStats {
                total_logs: 0,
                total_anomaly_logs: 0,
                tick_count: 0,
                scenarios_activated: 0,
                scenarios_completed: 0,
            }),
            r.spec_ground_truth().active() == Seq::<GroundTruthView>::empty(),
            r.spec_ground_truth().completed() == Seq::<GroundTruthView>::empty(),
    {
        let r = EngineCore {
            scheduled: Vec::new(),
            current_time_ns: now,
            start_time_ns: now,
            ground_truth: GroundTruthTracker::new(),
            state: EngineState::Stopped,
            stats: EngineStats {
                total_logs: 0,
                total_anomaly_logs: 0,
                tick_count: 0,
                scenarios_activated: 0,
                scenarios_completed: 0,
            },
            tick_time_ns: now,
            cursor: 0,
        };
        assert(r.spec_scheduled() =~= Seq::<ScheduledView>::empty());
        r
    }

    /// Forgets the schedule, the ground truth and the counters; the clock and the run
    /// state stay.
    pub fn reset(&mut self)
        requires
            old(self).wf(),
        ensures
            final(self).wf(),
            final(self).spec_state() == old(self).spec_state(),
            final(self).spec_current_time() == old(self).spec_current_time(),
            final(self).spec_start_time() == old(self).spec_start_time(),
            final(self).spec_scheduled() == Seq::<ScheduledView>::empty(),
            final(self).spec_stats() == (EngineStats {
                total_logs: 0,
                total_anomaly_logs: 0,
                tick_count: 0,
                scenarios_activated: 0,
                scenarios_completed: 0,
            }),
            final(self).spec_ground_truth().active() == Seq::<GroundTruthView>::empty(),
            final(self).spec_ground_truth().completed() == Seq::<GroundTruthView>::empty(),
    {
        self.scheduled.clear();
        self.ground_truth.reset();
        self.stats =
            EngineStats {
                total_logs: 0,
                total_anomaly_logs: 0,
                tick_count: 0,
                scenarios_activated: 0,
                scenarios_completed: 0,
            };
        self.cursor = 0;
        assert(self.spec_scheduled() =~= Seq::<ScheduledView>::empty());
    }

    /// Starts a run at clock reading `now`: everything is reset and the engine runs.
    pub fn start(&mut self, now: u64)
        requires
            old(self).wf(),
        ensures
            final(self).wf(),
            final(self).spec_state() == EngineState::Running,
            final(self).spec_current_time() == now,
            final(self).spec_start_time() == now,
            final(self).spec_scheduled() == Seq::<ScheduledView>::empty(),
            final(self).spec_stats() == (EngineStats {
                total_logs: 0,
                total_anomaly_logs: 0,
                tick_count: 0,
                scenarios_activated: 0,
                scenarios_completed: 0,
            }),
            final(self).spec_ground_truth().active() == Seq::<GroundTruthView>::empty(),
            final(self).spec_ground_truth().completed() == Seq::<GroundTruthView>::empty(),
    {
        self.reset();
        self.start_time_ns = now;
        self.current_time_ns = now;
        self.state = EngineState::Running;
    }

    /// Stops the run and drops the schedule; ground truth and counters stay.
    pub fn stop(&mut self)
        requires
            old(self).wf(),
        ensures
            final(self).wf(),
            final(self).spec_state() == EngineState::Stopped,
            final(self).spec_scheduled() == Seq::<ScheduledView>::empty(),
            final(self).spec_current_time() == old(self).spec_current_time(),
            final(self).spec_stats() == old(self).spec_stats(),
            final(self).spec_ground_truth() == old(self).spec_ground_truth(),
    {
        self.state = EngineState::Stopped;
        self.scheduled.clear();
        self.cursor = 0;
        assert(self.spec_scheduled() =~= Seq::<ScheduledView>::empty());
    }

    /// Pauses a running engine.
    pub fn pause(&mut self)
        ensures
            final(self).spec_state() == if old(self).spec_state() == EngineState::Running {
                EngineState::Paused
            } else {
                old(self).spec_state()
            },
            final(self).spec_scheduled() == old(self).spec_scheduled(),
            final(self).spec_current_time() == old(self).spec_current_time(),
            final(self).spec_stats() == old(self).spec_stats(),
            final(self).spec_ground_truth() == old(self).spec_ground_truth(),
            final(self).spec_cursor() == old(self).spec_cursor(),
            final(self).spec_start_time() == old(self).spec_start_time(),
            final(self).spec_tick_time() == old(self).spec_tick_time(),
            old(self).wf() ==> final(self).wf(),
    {
        self.state = self.state.paused();
    }

    /// Resumes a paused or stopped engine.
    pub fn resume(&mut self)
        ensures
            final(self).spec_state() == EngineState::Running,
            final(self).spec_scheduled() == old(self).spec_scheduled(),
            final(self).spec_current_time() == old(self).spec_current_time(),
            final(self).spec_stats() == old(self).spec_stats(),
            final(self).spec_ground_truth() == old(self).spec_ground_truth(),
            final(self).spec_cursor() == old(self).spec_cursor(),
            final(self).spec_start_time() == old(self).spec_start_time(),
            final(self).spec_tick_time() == old(self).spec_tick_time(),
            old(self).wf() ==> final(self).wf(),
    {
        self.state = self.state.resumed();
    }

    /// Schedules scenario `scenario_name` (recorded as `anomaly_type`) to start
    /// `start_offset_ns` from now and last `duration_ns`; its identifier is the
    /// scenario name, an underscore and the number of anomalies scheduled before it.
    pub fn schedule_anomaly(
        &mut self,
        scenario_name: &str,
        anomaly_type: String,
        start_offset_ns: u64,
        duration_ns: u64,
    ) -> (r: String)
        requires
            old(self).wf(),
            old(self).spec_current_time() + start_offset_ns + duration_ns <= u64::MAX,
        ensures
            final(self).wf(),
            r@ == scenario_name@ + seq!['_'] + decimal(old(self).spec_scheduled().len()),
            final(self).spec_scheduled() == old(self).spec_scheduled().push(
                ScheduledView {
                    anomaly_id: r@,
                    anomaly_type: anomaly_type@,
                    start_time_ns: (old(self).spec_current_time() + start_offset_ns) as u64,
                    end_time_ns: (old(self).spec_current_time() + start_offset_ns
                        + duration_ns) as u64,
                    activated: false,
                },
            ),
            final(self).spec_state() == old(self).spec_state(),
            final(self).spec_current_time() == old(self).spec_current_time(),
            final(self).spec_stats() == old(self).spec_stats(),
            final(self).spec_ground_truth() == old(self).spec_ground_truth(),
            final(self).spec_cursor() == old(self).spec_cursor(),
    {
        let mut id = scenario_name.to_owned();
        id.append("_");
        push_decimal(&mut id, self.scheduled.len() as u64);
        proof {
            reveal_strlit("_");
        }
        let start_time_ns = self.current_time_ns + start_offset_ns;
        let end_time_ns = start_time_ns + duration_ns;
        let entry = ScheduledAnomaly {
            anomaly_id: id.clone(),
            anomaly_type,
            start_time_ns,
            end_time_ns,
            activated: false,
        };
        let ghost s0 = self.scheduled@;
        self.scheduled.push(entry);
        assert(scheduled_views(self.scheduled@) =~= scheduled_views(s0).push(entry@));
        id
    }

    /// Starts a tick: `false` (and no change) unless the engine runs; otherwise every
    /// anomaly due at the current time is activated and starts its ground-truth record.
    pub fn begin_tick(&mut self) -> (r: bool)
        requires
            old(self).wf(),
            old(self).spec_state() == EngineState::Running ==> old(
                self,
            ).spec_stats().scenarios_activated + old(self).spec_scheduled().len() <= u64::MAX,
        ensures
            final(self).wf(),
            r == (old(self).spec_state() == EngineState::Running),
            !r ==> *final(self) == *old(self),
            r ==> {
                let now = old(self).spec_current_time();
                let e0 = old(self).spec_scheduled();
                &&& final(self).spec_scheduled() == e0.map_values(
                    |e: ScheduledView| after_activation(e, now),
                )
                &&& final(self).spec_ground_truth().active() == activate_all(
                    e0,
                    now,
                    old(self).spec_ground_truth().active(),
                )
                &&& final(self).spec_ground_truth().completed() == old(
                    self,
                ).spec_ground_truth().completed()
                &&& final(self).spec_stats() == (EngineStats {
                    scenarios_activated: (old(self).spec_stats().scenarios_activated + count_due(
                        e0,
                        now,
                    )) as u64,
                    ..old(self).spec_stats()
                })
                &&& final(self).spec_current_time() == now
                &&& final(self).spec_start_time() == old(self).spec_start_time()
                &&& final(self).spec_state() == old(self).spec_state()
                &&& final(self).spec_tick_time() == now
                &&& final(self).spec_cursor() == 0
            },
    {
        if self.state != EngineState::Running {
            return false;
        }
        let now = self.current_time_ns;
        let ghost e0 = scheduled_views(self.scheduled@);
        let ghost a0 = self.ground_truth.active();
        let ghost s0 = self.stats;
        let mut i: usize = 0;
        while i < self.scheduled.len()
            invariant
                self.ground_truth.wf(),
                self.scheduled@.len() == e0.len(),
                i <= e0.len(),
                now == self.current_time_ns,
                forall|j: int|
                    0 <= j < i ==> #[trigger] scheduled_views(self.scheduled@)[j]
                        == after_activation(e0[j], now),
                forall|j: int|
                    i <= j < e0.len() ==> #[trigger] scheduled_views(self.scheduled@)[j] == e0[j],
                self.ground_truth.active() == activate_all(e0.take(i as int), now, a0),
                self.ground_truth.completed() == old(self).ground_truth.completed(),
                self.stats == (EngineStats {
                    scenarios_activated: (s0.scenarios_activated + count_due(
                        e0.take(i as int),
                        now,
                    )) as u64,
                    ..s0
                }),
                s0.scenarios_activated + e0.len() <= u64::MAX,
                self.state == old(self).state,
                self.start_time_ns == old(self).start_time_ns,
            decreases e0.len() - i,
        {
            proof {
                assert(e0.take(i + 1).drop_last() =~= e0.take(i as int));
                lemma_count_due_bound(e0.take(i as int), now);
                assert(scheduled_views(self.scheduled@)[i as int] == e0[i as int]);
            }
            let ghost before = self.scheduled@;
            if !self.scheduled[i].activated && now >= self.scheduled[i].start_time_ns {
                self.scheduled[i].activated = true;
                self.stats.scenarios_activated = self.stats.scenarios_activated + 1;
                let id = self.scheduled[i].anomaly_id.clone();
                let ty = self.scheduled[i].anomaly_type.clone();
                let start = self.scheduled[i].start_time_ns;
                let end = self.scheduled[i].end_time_ns;
                self.ground_truth.start_anomaly(id, ty, start, end);
            }
            proof {
                assert forall|j: int| 0 <= j < e0.len() && j != i implies #[trigger] self.scheduled@[j]
                    == before[j] by {}
                assert(self.scheduled@[i as int]@ == after_activation(e0[i as int], now));
                assert forall|j: int| 0 <= j <= i implies #[trigger] scheduled_views(self.scheduled@)[j]
                    == after_activation(e0[j], now) by {
                    if j < i {
                        assert(scheduled_views(before)[j] == after_activation(e0[j], now));
                        assert(self.scheduled@[j] == before[j]);
                    }
                }
                assert forall|j: int| i < j < e0.len() implies #[trigger] scheduled_views(self.scheduled@)[j]
                    == e0[j] by {
                    assert(scheduled_views(before)[j] == e0[j]);
                    assert(self.scheduled@[j] == before[j]);
                }
            }
            i += 1;
        }
        proof {
            assert(e0.take(i as int) =~= e0);
            assert(scheduled_views(self.scheduled@) =~= e0.map_values(
                |e: ScheduledView| after_activation(e, now),
            ));
        }
        self.tick_time_ns = now;
        self.cursor = 0;
        true
    }

    /// What anomaly number `i` does in the tick in progress; a completing anomaly's
    /// ground-truth record ends at the tick's time. Anomalies are stepped in order.
    pub fn step_entry(&mut self, i: usize) -> (r: EntryStep)
        requires
            old(self).wf(),
            i == old(self).spec_cursor(),
            i < old(self).spec_scheduled().len(),
        ensures
            final(self).wf(),
            final(self).spec_cursor() == i + 1,
            ({
                let e = old(self).spec_scheduled()[i as int];
                let now = old(self).spec_tick_time();
                &&& generates(e, now) ==> r == EntryStep::Generate
                &&& completes(e, now) ==> r == EntryStep::Complete
                &&& !e.activated ==> r == EntryStep::Idle
                &&& completes(e, now) ==> {
                    let g0 = old(self).spec_ground_truth();
                    let g1 = final(self).spec_ground_truth();
                    &&& has_id(g0.active(), e.anomaly_id) ==> g1.active() == g0.active().remove(
                        id_index(g0.active(), e.anomaly_id),
                    ) && g1.completed() == g0.completed().push(
                        GroundTruthView {
                            end_time_ns: now,
                            ..g0.active()[id_index(g0.active(), e.anomaly_id)]
                        },
                    )
                    &&& !has_id(g0.active(), e.anomaly_id) ==> g1.active() == g0.active()
                        && g1.completed() == g0.completed()
                }
                &&& !completes(e, now) ==> final(self).spec_ground_truth() == old(
                    self,
                ).spec_ground_truth()
            }),
            final(self).spec_scheduled() == old(self).spec_scheduled(),
            final(self).spec_state() == old(self).spec_state(),
            final(self).spec_current_time() == old(self).spec_current_time(),
            final(self).spec_start_time() == old(self).spec_start_time(),
            final(self).spec_stats() == old(self).spec_stats(),
            final(self).spec_tick_time() == old(self).spec_tick_time(),
    {
        let now = self.tick_time_ns;
        let n = self.scheduled.len();
        assert(i < n);
        self.cursor = i + 1;
        proof {
            assert(scheduled_views(self.scheduled@)[i as int] == self.scheduled@[i as int]@);
        }
        if self.scheduled[i].activated && now < self.scheduled[i].end_time_ns {
            EntryStep::Generate
        } else if self.scheduled[i].activated {
            let id = self.scheduled[i].anomaly_id.clone();
            self.ground_truth.finalize_anomaly(id.as_str(), now);
            EntryStep::Complete
        } else {
            EntryStep::Idle
        }
    }

    /// Counts one generated log toward the ground truth of anomaly number `i`.
    pub fn record_anomaly_log(&mut self, i: usize)
        requires
            old(self).wf(),
            i < old(self).spec_scheduled().len(),
            ({
                let id = old(self).spec_scheduled()[i as int].anomaly_id;
                let a = old(self).spec_ground_truth().active();
                has_id(a, id) ==> a[id_index(a, id)].log_count < u64::MAX
            }),
        ensures
            final(self).wf(),
            ({
                let id = old(self).spec_scheduled()[i as int].anomaly_id;
                let a = old(self).spec_ground_truth().active();
                &&& has_id(a, id) ==> final(self).spec_ground_truth().active() == a.update(
                    id_index(a, id),
                    GroundTruthView { log_count: (a[id_index(a, id)].log_count + 1) as u64, ..a[id_index(a, id)] },
                )
                &&& !has_id(a, id) ==> final(self).spec_ground_truth().active() == a
            }),
            final(self).spec_ground_truth().completed() == old(self).spec_ground_truth().completed(),
            final(self).spec_scheduled() == old(self).spec_scheduled(),
            final(self).spec_state() == old(self).spec_state(),
            final(self).spec_current_time() == old(self).spec_current_time(),
            final(self).spec_stats() == old(self).spec_stats(),
            final(self).spec_cursor() == old(self).spec_cursor(),
            final(self).spec_tick_time() == old(self).spec_tick_time(),
    {
        proof {
            assert(scheduled_views(self.scheduled@)[i as int] == self.scheduled@[i as int]@);
        }
        let id = self.scheduled[i].anomaly_id.clone();
        self.ground_truth.record_log(id.as_str());
    }

    /// The log count of the ground-truth record of anomaly number `i`, if active.
    pub fn anomaly_log_count(&self, i: usize) -> (r: Option<u64>)
        requires
            self.wf(),
            i < self.spec_scheduled().len(),
        ensures
            ({
                let id = self.spec_scheduled()[i as int].anomaly_id;
                let a = self.spec_ground_truth().active();
                &&& has_id(a, id) ==> r == Some(a[id_index(a, id)].log_count)
                &&& !has_id(a, id) ==> r is None
            }),
    {
        proof {
            assert(scheduled_views(self.scheduled@)[i as int] == self.scheduled@[i as int]@);
        }
        self.ground_truth.log_count_of(self.scheduled[i].anomaly_id.as_str())
    }

    /// Ends the tick in progress: completed anomalies leave the schedule (their
    /// positions are returned, in increasing order), the clock advances by `delta_ns`,
    /// and the tick's `log_count` logs, `anomaly_log_count` of them anomalous, are
    /// counted.
    pub fn finish_tick(&mut self, delta_ns: u64, log_count: u64, anomaly_log_count: u64) -> (r:
        Vec<usize>)
        requires
            old(self).wf(),
            old(self).spec_cursor() == old(self).spec_scheduled().len(),
            old(self).spec_current_time() + delta_ns <= u64::MAX,
            old(self).spec_stats().tick_count < u64::MAX,
            old(self).spec_stats().total_logs + log_count <= u64::MAX,
            old(self).spec_stats().total_anomaly_logs + anomaly_log_count <= u64::MAX,
            old(self).spec_stats().scenarios_completed + old(self).spec_scheduled().len()
                <= u64::MAX,
        ensures
            final(self).wf(),
            r@ == completed_positions(old(self).spec_scheduled(), old(self).spec_tick_time()),
            final(self).spec_scheduled() == remaining(
                old(self).spec_scheduled(),
                old(self).spec_tick_time(),
            ),
            final(self).spec_current_time() == old(self).spec_current_time() + delta_ns,
            final(self).spec_stats() == (EngineStats {
                total_logs: (old(self).spec_stats().total_logs + log_count) as u64,
                total_anomaly_logs: (old(self).spec_stats().total_anomaly_logs
                    + anomaly_log_count) as u64,
                tick_count: (old(self).spec_stats().tick_count + 1) as u64,
                scenarios_activated: old(self).spec_stats().scenarios_activated,
                scenarios_completed: (old(self).spec_stats().scenarios_completed + r@.len()) as u64,
            }),
            final(self).spec_ground_truth() == old(self).spec_ground_truth(),
            final(self).spec_state() == old(self).spec_state(),
            final(self).spec_start_time() == old(self).spec_start_time(),
            final(self).spec_cursor() == 0,
    {
        let now = self.tick_time_ns;
        let ghost e0 = scheduled_views(self.scheduled@);
        let mut kept: Vec<ScheduledAnomaly> = Vec::new();
        let mut done: Vec<usize> = Vec::new();
        let mut i: usize = 0;
        while i < self.scheduled.len()
            invariant
                i <= e0.len(),
                e0 == scheduled_views(self.scheduled@),
                scheduled_views(kept@) == remaining(e0.take(i as int), now),
                done@ == completed_positions(e0.take(i as int), now),
            decreases e0.len() - i,
        {
            proof {
                assert(e0.take(i + 1).drop_last() =~= e0.take(i as int));
                assert(e0[i as int] == self.scheduled@[i as int]@);
            }
            if self.scheduled[i].activated && now >= self.scheduled[i].end_time_ns {
                done.push(i);
            } else {
                let ghost k0 = kept@;
                kept.push(copy_of(&self.scheduled[i]));
                proof {
                    assert(scheduled_views(kept@) =~= scheduled_views(k0).push(e0[i as int]));
                }
            }
            i += 1;
        }
        proof {
            assert(e0.take(i as int) =~= e0);
            lemma_completed_positions_bound(e0, now);
        }
        self.scheduled = kept;
        self.stats.scenarios_completed = self.stats.scenarios_completed + done.len() as u64;
        self.stats.tick_count = self.stats.tick_count + 1;
        self.stats.total_logs = self.stats.total_logs + log_count;
        self.stats.total_anomaly_logs = self.stats.total_anomaly_logs + anomaly_log_count;
        self.current_time_ns = self.current_time_ns + delta_ns;
        self.cursor = 0;
        done
    }

    /// The run state.
    pub fn state(&self) -> (r: EngineState)
        ensures
            r == self.spec_state(),
    {
        self.state
    }

    /// The counters.
    pub fn stats(&self) -> (r: &EngineStats)
        ensures
            *r == self.spec_stats(),
    {
        &self.stats
    }

    /// The simulation clock.
    pub fn current_time(&self) -> (r: u64)
        ensures
            r == self.spec_current_time(),
    {
        self.current_time_ns
    }

    /// Time elapsed since the start of the run.
    pub fn elapsed(&self) -> (r: u64)
        requires
            self.spec_current_time() >= self.spec_start_time(),
        ensures
            r == self.spec_current_time() - self.spec_start_time(),
    {
        self.current_time_ns - self.start_time_ns
    }

    /// Number of scheduled anomalies.
    pub fn scheduled_len(&self) -> (r: usize)
        ensures
            r == self.spec_scheduled().len(),
    {
        self.scheduled.len()
    }

    /// The ground-truth tracker.
    pub fn ground_truth(&self) -> (r: &GroundTruthTracker)
        ensures
            *r == self.spec_ground_truth(),
    {
        &self.ground_truth
    }
}

impl SimulationStatus {
    /// The status the control API reports for an engine: run state, counters and
    /// elapsed milliseconds; the scenario is reported as "active" and no ground truth
    /// is attached.
    pub fn from_engine(engine: &EngineCore) -> (r: Self)
        requires
            engine.spec_current_time() >= engine.spec_start_time(),
        ensures
            r.isRunning == (engine.spec_state() == EngineState::Running),
            r.isPaused == (engine.spec_state() == EngineState::Paused),
            r.currentScenario@ == "active"@,
            r.eventsGenerated == engine.spec_stats().total_logs,
            r.anomalyLogsGenerated == engine.spec_stats().total_anomaly_logs,
            r.tickCount == engine.spec_stats().tick_count,
            r.elapsedMs == (engine.spec_current_time() - engine.spec_start_time()) / 1_000_000,
            r.activeGroundTruth@.len() == 0,
    {
        let stats = engine.stats();
        let state = engine.state();
        SimulationStatus {
            isRunning: state == EngineState::Running,
            isPaused: state == EngineState::Paused,
            currentScenario: "active".to_string(),
            eventsGenerated: stats.total_logs,
            anomalyLogsGenerated: stats.total_anomaly_logs,
            tickCount: stats.tick_count,
            elapsedMs: engine.elapsed() / 1_000_000,
            activeGroundTruth: Vec::new(),
        }
    }
}


/// The time slot each of `anomaly_count` anomalies gets in a run of `duration_ns`:
/// the run split into one more slot than there are anomalies.
pub open spec fn anomaly_slot(duration_ns: u64, anomaly_count: nat) -> int {
    duration_ns as int / (anomaly_count as int + 1)
}

/// Where the `i`-th of `anomaly_count` anomalies of a run of `duration_ns` goes:
/// half a slot into its slot, after `i` whole slots, for half a slot.
pub open spec fn planned_anomaly(duration_ns: u64, anomaly_count: nat, i: int) -> (int, int) {
    let slot = anomaly_slot(duration_ns, anomaly_count);
    (slot / 2 + i * slot, slot / 2)
}

/// The (start offset, duration) in nanoseconds at which a generation run of
/// `duration_ns` schedules each of `anomaly_count` anomalies, in order: the run is cut
/// into `anomaly_count + 1` equal slots, and anomaly `i` starts half a slot into slot
/// `i` and lasts half a slot, leaving a baseline before the first one.
pub fn anomaly_schedule_plan(duration_ns: u64, anomaly_count: usize) -> (r: Vec<(u64, u64)>)
    requires
        anomaly_count < u64::MAX,
    ensures
        r@.len() == anomaly_count,
        forall|i: int|
            0 <= i < anomaly_count ==> (#[trigger] r@[i].0 as int, r@[i].1 as int)
                == planned_anomaly(duration_ns, anomaly_count as nat, i),
{
    let slot = duration_ns / (anomaly_count as u64 + 1);
    let half = slot / 2;
    let mut plan: Vec<(u64, u64)> = Vec::new();
    let mut offset = half;
    let mut i: usize = 0;
    proof {
        assert(slot * (anomaly_count + 1) <= duration_ns) by (nonlinear_arith)
            requires
                slot as int == duration_ns as int / (anomaly_count as int + 1),
                anomaly_count + 1 > 0,
        ;
    }
    while i < anomaly_count
        invariant
            i <= anomaly_count,
            anomaly_count < u64::MAX,
            slot == anomaly_slot(duration_ns, anomaly_count as nat),
            half == slot / 2,
            slot * (anomaly_count + 1) <= duration_ns,
            offset == half + i * slot,
            plan@.len() == i,
            forall|j: int|
                0 <= j < i ==> (#[trigger] plan@[j].0 as int, plan@[j].1 as int)
                    == planned_anomaly(duration_ns, anomaly_count as nat, j),
        decreases anomaly_count - i,
    {
        plan.push((offset, half));
        proof {
            assert(half + (i + 1) * slot <= slot * (anomaly_count + 1)) by (nonlinear_arith)
                requires
                    half <= slot,
                    i + 1 <= anomaly_count,
            ;
            assert((i + 1) * slot == i * slot + slot) by (nonlinear_arith);
        }
        offset = offset + slot;
        i += 1;
        proof {
            assert(offset == half + i * slot) by (nonlinear_arith)
                requires
                    offset == half + (i - 1) * slot + slot,
            ;
        }
    }
    plan
}

} // verus!
