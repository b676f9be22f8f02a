//! Benchmark configurations and the integer bookkeeping of a benchmark run:
//! the tick schedule, anomaly windows, the confusion-matrix tallies and the latency
//! percentiles.
//!
//! Running the simulator and the detectors, timing, and printing reports stay
//! with the benchmark driver, which feeds the outcomes in here.

use vstd::prelude::*;
use vstd::relations::{sorted_by, total_ordering};
use vstd::seq_lib::{lemma_sorted_unique, to_multiset_build, to_multiset_insert};

pub mod pipeline;
pub mod scenarios;

use self::scenarios::{
    mixed_workload, mixed_workload_config, performance_stress, performance_stress_config,
    quick_validation, quick_validation_config, security_audit, security_audit_config,
};

verus! {

broadcast use vstd::string::group_string_axioms;

/// Nanoseconds per second.
pub const NANOS_PER_SEC: u64 = 1_000_000_000;

/// Nanoseconds per millisecond.
pub const NANOS_PER_MILLI: u64 = 1_000_000;

/// An anomaly to inject during a benchmark.
#[derive(Clone, Debug)]
pub struct AnomalySpec {
    /// Scenario name, as the simulator knows it.
    pub scenario: String,
    /// When the anomaly starts, in seconds from the start of the run.
    pub start_time_sec: u64,
    /// How long the anomaly lasts, in seconds.
    pub duration_sec: u64,
}

/// The abstract value of an [`AnomalySpec`]: (scenario, start second, duration in seconds).
pub type AnomalySpecView = (Seq<char>, u64, u64);

impl View for AnomalySpec {
    type V = AnomalySpecView;

    open spec fn view(&self) -> AnomalySpecView {
        (self.scenario@, self.start_time_sec, self.duration_sec)
    }
}

impl AnomalySpec {
    /// The injection window in nanoseconds: (offset from the start, duration).
    pub fn window_ns(&self) -> (r: (u64, u64))
        requires
            self.start_time_sec * NANOS_PER_SEC <= u64::MAX,
            self.duration_sec * NANOS_PER_SEC <= u64::MAX,
        ensures
            r.0 == self.start_time_sec * NANOS_PER_SEC,
            r.1 == self.duration_sec * NANOS_PER_SEC,
    {
        (self.start_time_sec * NANOS_PER_SEC, self.duration_sec * NANOS_PER_SEC)
    }
}

/// A benchmark configuration.
#[derive(Clone, Debug)]
pub struct BenchmarkConfig {
    pub name: String,
    /// Scenario that produces the baseline traffic.
    pub base_scenario: String,
    pub duration_minutes: u64,
    pub tick_ms: u64,
    pub anomalies: Vec<AnomalySpec>,
    /// Events per detection batch; 0 processes events one by one.
    pub batch_size: usize,
}

/// The abstract value of a [`BenchmarkConfig`].
pub struct BenchmarkConfigView {
    pub name: Seq<char>,
    pub base_scenario: Seq<char>,
    pub duration_minutes: u64,
    pub tick_ms: u64,
    pub anomalies: Seq<AnomalySpecView>,
    pub batch_size: usize,
}

impl View for BenchmarkConfig {
    type V = BenchmarkConfigView;

    open spec fn view(&self) -> BenchmarkConfigView {
        BenchmarkConfigView {
            name: self.name@,
            base_scenario: self.base_scenario@,
            duration_minutes: self.duration_minutes,
            tick_ms: self.tick_ms,
            anomalies: self.anomalies@.map_values(|a: AnomalySpec| a@),
            batch_size: self.batch_size,
        }
    }
}

/// A configuration over normal traffic with the given name, length, tick and anomalies,
/// processing events one by one.
pub open spec fn config_view(
    name: Seq<char>,
    duration_minutes: u64,
    tick_ms: u64,
    anomalies: Seq<AnomalySpecView>,
) -> BenchmarkConfigView {
    BenchmarkConfigView {
        name,
        base_scenario: "normal_traffic"@,
        duration_minutes,
        tick_ms,
        anomalies,
        batch_size: 0,
    }
}

/// The default configuration: five minutes of normal traffic in ticks of 100 ms,
/// no anomalies, one event at a time.
pub open spec fn default_config() -> BenchmarkConfigView {
    config_view("Default Benchmark"@, 5, 100, Seq::empty())
}

impl Default for BenchmarkConfig {
    fn default() -> (r: Self)
        ensures
            r@ == default_config(),
    {
        let r = BenchmarkConfig {
            name: "Default Benchmark".to_string(),
            base_scenario: "normal_traffic".to_string(),
            duration_minutes: 5,
            tick_ms: 100,
            anomalies: Vec::new(),
            batch_size: 0,
        };
        assert(r@.anomalies =~= Seq::<AnomalySpecView>::empty());
        r
    }
}

impl BenchmarkConfig {
    /// The length of one tick and the number of whole ticks in the run, both from the
    /// configured minutes and milliseconds.
    pub fn tick_plan(&self) -> (r: (u64, u64))
        requires
            self.tick_ms > 0,
            self.tick_ms * NANOS_PER_MILLI <= u64::MAX,
            self.duration_minutes * 60 * NANOS_PER_SEC <= u64::MAX,
        ensures
            r.0 == self.tick_ms * NANOS_PER_MILLI,
            r.1 == (self.duration_minutes * 60 * NANOS_PER_SEC) as int / (self.tick_ms
                * NANOS_PER_MILLI) as int,
    {
        let duration_ns = self.duration_minutes * 60 * NANOS_PER_SEC;
        let tick_ns = self.tick_ms * NANOS_PER_MILLI;
        (tick_ns, duration_ns / tick_ns)
    }
}

/// The pipeline throughput configuration: two minutes of normal traffic in ticks
/// of 50 ms, no anomalies.
pub open spec fn pipeline_throughput_config() -> BenchmarkConfigView {
    config_view("Pipeline Throughput"@, 2, 50, Seq::empty())
}

/// The configuration that `scenario_by_name` picks for `name`.
pub open spec fn named_config(name: Seq<char>) -> BenchmarkConfigView {
    if name == "mixed"@ {
        mixed_workload_config()
    } else if name == "security"@ {
        security_audit_config()
    } else if name == "performance"@ {
        performance_stress_config()
    } else if name == "quick"@ {
        quick_validation_config()
    } else if name == "throughput"@ {
        pipeline_throughput_config()
    } else {
        quick_validation_config()
    }
}

/// The pipeline benchmark configuration for a short name; unknown names give the
/// quick validation run.
pub fn scenario_by_name(name: &str) -> (r: BenchmarkConfig)
    ensures
        r@ == named_config(name@),
{
    let n = name.to_owned();
    if n == "mixed".to_string() {
        mixed_workload()
    } else if n == "security".to_string() {
        security_audit()
    } else if n == "performance".to_string() {
        performance_stress()
    } else if n == "quick".to_string() {
        quick_validation()
    } else if n == "throughput".to_string() {
        let r = BenchmarkConfig {
            name: "Pipeline Throughput".to_string(),
            base_scenario: "normal_traffic".to_string(),
            duration_minutes: 2,
            tick_ms: 50,
            anomalies: Vec::new(),
            batch_size: 0,
        };
        assert(r@.anomalies =~= Seq::<AnomalySpecView>::empty());
        r
    } else {
        quick_validation()
    }
}

/// Each short name picks the configuration its builder makes (`mixed`: `mixed_workload`,
/// `security`: `security_audit`, `performance`: `performance_stress`, `quick` and every
/// unknown name: `quick_validation`; `throughput`: two minutes in 50 ms ticks with no
/// anomalies), and the mixed workload is five minutes of normal traffic in 100 ms ticks
/// with credential stuffing at 60 s for 60 s, a memory leak at 180 s for 120 s and a
/// traffic spike at 240 s for 30 s.
pub proof fn lemma_named_configs_are_the_builders(name: Seq<char>)
    ensures
        named_config("mixed"@) == mixed_workload_config(),
        named_config("security"@) == security_audit_config(),
        named_config("performance"@) == performance_stress_config(),
        named_config("quick"@) == quick_validation_config(),
        named_config("throughput"@).duration_minutes == 2,
        named_config("throughput"@).tick_ms == 50,
        named_config("throughput"@).anomalies.len() == 0,
        named_config("throughput"@).name == "Pipeline Throughput"@,
        named_config("throughput"@).base_scenario == "normal_traffic"@,
        named_config("throughput"@).batch_size == 0,
        name != "mixed"@ && name != "security"@ && name != "performance"@ && name
            != "throughput"@ ==> named_config(name) == quick_validation_config(),
        mixed_workload_config().duration_minutes == 5,
        mixed_workload_config().tick_ms == 100,
        mixed_workload_config().base_scenario == "normal_traffic"@,
        mixed_workload_config().anomalies.len() == 3,
        mixed_workload_config().anomalies[0] == ("credential_stuffing"@, 60u64, 60u64),
        mixed_workload_config().anomalies[1] == ("memory_leak"@, 180u64, 120u64),
        mixed_workload_config().anomalies[2] == ("traffic_spike"@, 240u64, 30u64),
{
    reveal_strlit("mixed");
    reveal_strlit("security");
    reveal_strlit("performance");
    reveal_strlit("quick");
    reveal_strlit("throughput");
    assert("security"@[0] != "mixed"@[0]);
    assert("performance"@[0] != "mixed"@[0]);
    assert("performance"@[0] != "security"@[0]);
    assert("quick"@[0] != "mixed"@[0]);
    assert("quick"@[0] != "security"@[0]);
    assert("quick"@[0] != "performance"@[0]);
    assert("throughput"@[0] != "mixed"@[0]);
    assert("throughput"@[0] != "security"@[0]);
    assert("throughput"@[0] != "performance"@[0]);
    assert("throughput"@[0] != "quick"@[0]);
}

/// Configuration of a benchmark that sends detections through the Tier-2 pipeline.
#[derive(Clone, Debug)]
pub struct PipelineBenchmarkConfig {
    pub benchmark: BenchmarkConfig,
    pub tier2_base_url: String,
    /// Detections per request to Tier-2.
    pub send_batch_size: usize,
    /// Least time to wait for Tier-2 to drain its queue, in seconds.
    pub drain_timeout_secs: u64,
}

impl Default for PipelineBenchmarkConfig {
    fn default() -> (r: Self)
        ensures
            r.benchmark@ == quick_validation_config(),
            r.tier2_base_url@ == "http://127.0.0.1:3000"@,
            r.send_batch_size == 256,
            r.drain_timeout_secs == 900,
    {
        PipelineBenchmarkConfig {
            benchmark: quick_validation(),
            tier2_base_url: "http://127.0.0.1:3000".to_string(),
            send_batch_size: 256,
            drain_timeout_secs: 900,
        }
    }
}

/// How long to wait for Tier-2 to drain: the configured timeout, at least two minutes,
/// and at least one second per 50 detections sent.
pub fn drain_timeout_secs(configured_secs: u64, sent: u64) -> (r: u64)
    ensures
        r >= configured_secs,
        r >= 120,
        r >= sent / 50,
        r == configured_secs || r == 120 || r == sent / 50,
{
    let mut r = configured_secs;
    if r < 120 {
        r = 120;
    }
    let per_sent = sent / 50;
    if r < per_sent {
        r = per_sent;
    }
    r
}

/// How many of `events`, each a (detected, ground truth) pair, equal `(detected, truth)`.
pub open spec fn count_outcome(events: Seq<(bool, bool)>, detected: bool, truth: bool) -> nat
    decreases events.len(),
{
    if events.len() == 0 {
        0
    } else {
        count_outcome(events.drop_last(), detected, truth) + if events.last() == (detected, truth) {
            1nat
        } else {
            0nat
        }
    }
}

/// Every event falls in exactly one cell of the confusion matrix.
pub proof fn lemma_outcomes_partition(events: Seq<(bool, bool)>)
    ensures
        count_outcome(events, true, true) + count_outcome(events, true, false) + count_outcome(
            events,
            false,
            true,
        ) + count_outcome(events, false, false) == events.len(),
    decreases events.len(),
{
    if events.len() > 0 {
        lemma_outcomes_partition(events.drop_last());
        let last = events.last();
        assert(last == (true, true) || last == (true, false) || last == (false, true) || last == (
            false,
            false,
        ));
    }
}

/// Counters of a detection run: events seen, ground-truth anomalies among them, the
/// four cells of the confusion matrix, and detections queued for Tier-2.
#[derive(Clone, Debug)]
pub struct DetectionCounts {
    pub total_events: u64,
    pub gt_events: u64,
    pub tp: u64,
    pub fp: u64,
    pub tn: u64,
    pub fn_: u64,
    pub sent: u64,
}

impl Default for DetectionCounts {
    fn default() -> (r: Self)
        ensures
            r.total_events == 0 && r.gt_events == 0 && r.sent == 0,
            r.tp == 0 && r.fp == 0 && r.tn == 0 && r.fn_ == 0,
    {
        DetectionCounts { total_events: 0, gt_events: 0, tp: 0, fp: 0, tn: 0, fn_: 0, sent: 0 }
    }
}

impl DetectionCounts {
    /// The counters agree with each other: the four cells add up to the events seen,
    /// ground-truth anomalies are the hits and misses, and every detection was queued.
    pub open spec fn wf(&self) -> bool {
        &&& self.tp + self.fp + self.tn + self.fn_ == self.total_events
        &&& self.gt_events == self.tp + self.fn_
        &&& self.sent == self.tp + self.fp
    }

    /// The counters after one more event with the given outcome.
    pub open spec fn after(self, detected: bool, ground_truth: bool) -> Self {
        DetectionCounts {
            total_events: (self.total_events + 1) as u64,
            gt_events: (self.gt_events + if ground_truth { 1int } else { 0int }) as u64,
            tp: (self.tp + if detected && ground_truth { 1int } else { 0int }) as u64,
            fp: (self.fp + if detected && !ground_truth { 1int } else { 0int }) as u64,
            tn: (self.tn + if !detected && !ground_truth { 1int } else { 0int }) as u64,
            fn_: (self.fn_ + if !detected && ground_truth { 1int } else { 0int }) as u64,
            sent: (self.sent + if detected { 1int } else { 0int }) as u64,
        }
    }

    /// Counts one event: whether the detectors flagged it and whether it belonged to
    /// an injected anomaly.
    pub fn record(&mut self, detected: bool, ground_truth: bool)
        requires
            old(self).wf(),
            old(self).total_events < u64::MAX,
        ensures
            final(self).wf(),
            *final(self) == old(self).after(detected, ground_truth),
    {
        self.total_events = self.total_events + 1;
        if ground_truth {
            self.gt_events = self.gt_events + 1;
        }
        if detected {
            self.sent = self.sent + 1;
            if ground_truth {
                self.tp = self.tp + 1;
            } else {
                self.fp = self.fp + 1;
            }
        } else {
            if ground_truth {
                self.fn_ = self.fn_ + 1;
            } else {
                self.tn = self.tn + 1;
            }
        }
    }
}

/// The counters of a run over `events`, each a (detected, ground truth) pair.
pub fn tally_detections(events: &[(bool, bool)]) -> (r: DetectionCounts)
    ensures
        r.wf(),
        r.total_events == events@.len(),
        r.tp == count_outcome(events@, true, true),
        r.fp == count_outcome(events@, true, false),
        r.fn_ == count_outcome(events@, false, true),
        r.tn == count_outcome(events@, false, false),
{
    let mut r = DetectionCounts::default();
    let mut i: usize = 0;
    while i < events.len()
        invariant
            i <= events@.len(),
            r.wf(),
            r.total_events == i,
            r.tp == count_outcome(events@.take(i as int), true, true),
            r.fp == count_outcome(events@.take(i as int), true, false),
            r.fn_ == count_outcome(events@.take(i as int), false, true),
            r.tn == count_outcome(events@.take(i as int), false, false),
        decreases events@.len() - i,
    {
        let (detected, truth) = events[i];
        assert(events@.take(i + 1).drop_last() =~= events@.take(i as int));
        r.record(detected, truth);
        i = i + 1;
    }
    assert(events@.take(i as int) =~= events@);
    r
}

/// The order latencies are sorted by.
pub open spec fn latency_leq() -> spec_fn(u64, u64) -> bool {
    |a: u64, b: u64| a <= b
}

/// The latencies in increasing order.
pub open spec fn sorted_latencies(s: Seq<u64>) -> Seq<u64> {
    s.sort_by(latency_leq())
}

proof fn lemma_latency_leq_total()
    ensures
        total_ordering(latency_leq()),
{
    let leq = latency_leq();
    assert(vstd::relations::reflexive(leq));
    assert(vstd::relations::antisymmetric(leq));
    assert(vstd::relations::transitive(leq));
    assert(vstd::relations::strongly_connected(leq));
}

/// A copy of the latencies in increasing order.
pub fn sort_latencies(latencies: &[u64]) -> (r: Vec<u64>)
    ensures
        r@ == sorted_latencies(latencies@),
{
    let ghost leq = latency_leq();
    let mut r: Vec<u64> = Vec::new();
    let mut i: usize = 0;
    assert(r@ =~= latencies@.take(0));
    while i < latencies.len()
        invariant
            i <= latencies@.len(),
            leq == latency_leq(),
            sorted_by(r@, leq),
            r@.to_multiset() == latencies@.take(i as int).to_multiset(),
            r@.len() == i,
        decreases latencies@.len() - i,
    {
        let x = latencies[i];
        let mut p: usize = 0;
        while p < r.len() && r[p] <= x
            invariant
                p <= r@.len(),
                forall|j: int| 0 <= j < p ==> r@[j] <= x,
            decreases r@.len() - p,
        {
            p += 1;
        }
        let ghost r0 = r@;
        r.insert(p, x);
        proof {
            assert(r@ == r0.insert(p as int, x));
            assert forall|a: int, b: int| 0 <= a < b < r@.len() implies #[trigger] leq(r@[a], r@[b]) by {
                if b < p {
                    assert(leq(r0[a], r0[b]));
                } else if b == p {
                    assert(r0[a] <= x);
                } else if a < p {
                    assert(r0[a] <= x || leq(r0[a], r0[b - 1]));
                    if p < r0.len() {
                        assert(r0[p as int] > x);
                        if (b - 1) > p {
                            assert(leq(r0[p as int], r0[b - 1]));
                        }
                    }
                } else if a == p {
                    assert(r0[p as int] > x);
                    if b - 1 > p {
                        assert(leq(r0[p as int], r0[b - 1]));
                    }
                } else {
                    assert(leq(r0[a - 1], r0[b - 1]));
                }
            }
            to_multiset_insert(r0, p as int, x);
            to_multiset_build(latencies@.take(i as int), x);
            assert(latencies@.take(i + 1) =~= latencies@.take(i as int).push(x));
        }
        i += 1;
    }
    proof {
        assert(latencies@.take(i as int) =~= latencies@);
        lemma_latency_leq_total();
        latencies@.lemma_sort_by_ensures(leq);
        lemma_sorted_unique(r@, latencies@.sort_by(leq), leq);
    }
    r
}

/// The latencies at ranks `len / 2`, `len * 95 / 100` and `len * 99 / 100` of the
/// sorted latencies; `None` when there are none.
pub fn latency_percentiles(latencies: &[u64]) -> (r: Option<(u64, u64, u64)>)
    requires
        latencies@.len() * 99 <= usize::MAX,
    ensures
        r is None <==> latencies@.len() == 0,
        r matches Some((p50, p95, p99)) ==> {
            let s = sorted_latencies(latencies@);
            let n = latencies@.len() as int;
            &&& p50 == s[n / 2]
            &&& p95 == s[n * 95 / 100]
            &&& p99 == s[n * 99 / 100]
        },
{
    let n = latencies.len();
    if n == 0 {
        return None;
    }
    let sorted = sort_latencies(latencies);
    proof {
        lemma_latency_leq_total();
        latencies@.lemma_sort_by_ensures(latency_leq());
        vstd::seq_lib::to_multiset_len(latencies@);
        vstd::seq_lib::to_multiset_len(sorted@);
        assert(n * 95 / 100 < n) by (nonlinear_arith)
            requires
                n > 0,
        ;
        assert(n * 99 / 100 < n) by (nonlinear_arith)
            requires
                n > 0,
        ;
    }
    Some((sorted[n / 2], sorted[n * 95 / 100], sorted[n * 99 / 100]))
}

} // verus!
