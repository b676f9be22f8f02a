//! Integer bookkeeping of the pipeline benchmark: events per injected anomaly, and
//! the incident counts that Tier-2's answer is scored by.
//!
//! The driver reads Tier-2's incidents as JSON and hands each in as an
//! [`IncidentEvidence`]; the ratios (precision, recall, error rates) are computed from
//! these counts by the driver.

use vstd::prelude::*;
use vstd::seq_lib::lemma_seq_contains_after_push;

verus! {

broadcast use vstd::string::group_string_axioms;

/// The strings of a vector, by their characters.
pub open spec fn strs(v: Seq<String>) -> Seq<Seq<char>> {
    v.map_values(|s: String| s@)
}

/// Whether `s` holds no string twice.
pub open spec fn distinct_strs(s: Seq<Seq<char>>) -> bool {
    forall|a: int, b: int| 0 <= a < s.len() && 0 <= b < s.len() && a != b ==> s[a] != s[b]
}

/// Whether `needle` is among `ids`.
fn contains_id(ids: &Vec<String>, needle: &String) -> (r: bool)
    ensures
        r == strs(ids@).contains(needle@),
{
    let mut i: usize = 0;
    while i < ids.len()
        invariant
            i <= ids@.len(),
            forall|j: int| 0 <= j < i ==> ids@[j]@ != needle@,
        decreases ids@.len() - i,
    {
        if ids[i] == *needle {
            assert(strs(ids@)[i as int] == needle@);
            return true;
        }
        i += 1;
    }
    proof {
        if strs(ids@).contains(needle@) {
            let j = choose|j: int| 0 <= j < strs(ids@).len() && strs(ids@)[j] == needle@;
            assert(ids@[j]@ == needle@);
        }
    }
    false
}

/// The strings of `ids` without repeats, in order of first occurrence.
fn distinct_ids(ids: &Vec<String>) -> (r: Vec<String>)
    ensures
        distinct_strs(strs(r@)),
        forall|g: Seq<char>| #[trigger] strs(r@).contains(g) == strs(ids@).contains(g),
{
    let mut r: Vec<String> = Vec::new();
    let mut i: usize = 0;
    while i < ids.len()
        invariant
            i <= ids@.len(),
            distinct_strs(strs(r@)),
            forall|g: Seq<char>| #[trigger]
                strs(r@).contains(g) == strs(ids@.take(i as int)).contains(g),
        decreases ids@.len() - i,
    {
        let id = &ids[i];
        let seen = contains_id(&r, id);
        let ghost before = r@;
        if !seen {
            r.push(id.clone());
            assert(strs(r@) =~= strs(before).push(id@));
        }
        proof {
            let t0 = strs(ids@.take(i as int));
            let t1 = strs(ids@.take(i + 1));
            let b = strs(before);
            let rs = strs(r@);
            assert(t1 =~= t0.push(id@));
            if seen {
                assert(rs =~= b);
            } else {
                assert(rs =~= b.push(id@));
            }
            assert forall|g: Seq<char>| #[trigger] rs.contains(g) == t1.contains(g) by {
                assert(b.contains(g) == t0.contains(g));
                if t1.contains(g) {
                    let j = choose|j: int| 0 <= j < t1.len() && #[trigger] t1[j] == g;
                    if j < t0.len() {
                        assert(t0[j] == g);
                        let m = choose|m: int| 0 <= m < b.len() && #[trigger] b[m] == g;
                        assert(rs[m] == g);
                    } else if seen {
                        let m = choose|m: int| 0 <= m < b.len() && #[trigger] b[m] == g;
                        assert(rs[m] == g);
                    } else {
                        assert(rs[rs.len() - 1] == g);
                    }
                }
                if rs.contains(g) {
                    let j = choose|j: int| 0 <= j < rs.len() && #[trigger] rs[j] == g;
                    if j < b.len() {
                        assert(b[j] == g);
                        let m = choose|m: int| 0 <= m < t0.len() && #[trigger] t0[m] == g;
                        assert(t1[m] == g);
                    } else {
                        assert(t1[t1.len() - 1] == g);
                    }
                }
            }
        }
        i += 1;
    }
    assert(ids@.take(i as int) =~= ids@);
    r
}

/// How many incidents the benchmark counted for each outcome, and, for each
/// ground-truth anomaly that some incident of the run holds, how many incidents hold it.
#[derive(Debug, Clone)]
pub struct IncidentCounts {
    /// Incidents of the run that hold some ground-truth anomaly.
    pub tp_incidents: u64,
    /// Incidents of the run that hold none.
    pub fp_incidents: u64,
    /// Incidents of the run that hold two or more different ground-truth anomalies.
    pub merged_incidents: u64,
    /// Incidents of the run that Tier-2 escalated.
    pub escalated_total: u64,
    /// Escalated incidents of the run that hold some ground-truth anomaly.
    pub escalated_tp: u64,
    /// Each covered ground-truth anomaly, once, with the number of incidents holding it.
    pub covered: Vec<(String, u64)>,
}

/// What the benchmark reads of one incident reported by Tier-2.
#[derive(Debug, Clone)]
pub struct IncidentEvidence {
    /// Benchmark runs whose detections the incident holds.
    pub run_ids: Vec<String>,
    /// Ground-truth anomalies whose events the incident holds (repeats allowed).
    pub ground_truth_ids: Vec<String>,
    /// Whether Tier-2 escalated the incident.
    pub escalated: bool,
}

/// The abstract value of an [`IncidentEvidence`].
pub struct IncidentView {
    pub run_ids: Seq<Seq<char>>,
    pub ground_truth_ids: Seq<Seq<char>>,
    pub escalated: bool,
}

impl View for IncidentEvidence {
    type V = IncidentView;

    open spec fn view(&self) -> IncidentView {
        IncidentView {
            run_ids: strs(self.run_ids@),
            ground_truth_ids: strs(self.ground_truth_ids@),
            escalated: self.escalated,
        }
    }
}

/// The abstract values of a sequence of incidents.
pub open spec fn incident_views(s: Seq<IncidentEvidence>) -> Seq<IncidentView> {
    s.map_values(|e: IncidentEvidence| e@)
}

/// Whether the incident belongs to benchmark run `run_id`.
pub open spec fn in_run(inc: IncidentView, run_id: Seq<char>) -> bool {
    inc.run_ids.contains(run_id)
}

/// Whether the incident holds some ground-truth anomaly.
pub open spec fn has_truth(inc: IncidentView) -> bool {
    inc.ground_truth_ids.len() > 0
}

/// Whether `s` holds two different strings.
pub open spec fn two_distinct(s: Seq<Seq<char>>) -> bool {
    exists|a: int, b: int| 0 <= a < s.len() && 0 <= b < s.len() && #[trigger] s[a] != #[trigger] s[b]
}

/// Whether the incident holds two different ground-truth anomalies.
pub open spec fn merges(inc: IncidentView) -> bool {
    two_distinct(inc.ground_truth_ids)
}

/// Incidents of run `run_id` that hold some ground-truth anomaly.
pub open spec fn true_positive_in(run_id: Seq<char>) -> spec_fn(IncidentView) -> bool {
    |i: IncidentView| in_run(i, run_id) && has_truth(i)
}

/// Incidents of run `run_id` that hold no ground-truth anomaly.
pub open spec fn false_positive_in(run_id: Seq<char>) -> spec_fn(IncidentView) -> bool {
    |i: IncidentView| in_run(i, run_id) && !has_truth(i)
}

/// Incidents of run `run_id` that hold two different ground-truth anomalies.
pub open spec fn merged_in(run_id: Seq<char>) -> spec_fn(IncidentView) -> bool {
    |i: IncidentView| in_run(i, run_id) && merges(i)
}

/// Escalated incidents of run `run_id`.
pub open spec fn escalated_in(run_id: Seq<char>) -> spec_fn(IncidentView) -> bool {
    |i: IncidentView| in_run(i, run_id) && i.escalated
}

/// Escalated incidents of run `run_id` that hold some ground-truth anomaly.
pub open spec fn escalated_true_in(run_id: Seq<char>) -> spec_fn(IncidentView) -> bool {
    |i: IncidentView| in_run(i, run_id) && i.escalated && has_truth(i)
}

/// Incidents of run `run_id` that hold ground-truth anomaly `g`.
pub open spec fn holding_in(run_id: Seq<char>, g: Seq<char>) -> spec_fn(IncidentView) -> bool {
    |i: IncidentView| in_run(i, run_id) && i.ground_truth_ids.contains(g)
}

/// How many incidents of `incs` satisfy `p`.
pub open spec fn count_where(incs: Seq<IncidentView>, p: spec_fn(IncidentView) -> bool) -> nat
    decreases incs.len(),
{
    if incs.len() == 0 {
        0
    } else {
        count_where(incs.drop_last(), p) + if p(incs.last()) {
            1nat
        } else {
            0nat
        }
    }
}

/// How many incidents of run `run_id` hold ground-truth anomaly `g`.
pub open spec fn holding(incs: Seq<IncidentView>, run_id: Seq<char>, g: Seq<char>) -> nat {
    count_where(incs, holding_in(run_id, g))
}

/// Whether `g` is among the ids of `covered`.
pub open spec fn covers(covered: Seq<(String, u64)>, g: Seq<char>) -> bool {
    exists|i: int| 0 <= i < covered.len() && #[trigger] covered[i].0@ == g
}

/// Whether the ids of `covered` are distinct.
pub open spec fn distinct_keys(covered: Seq<(String, u64)>) -> bool {
    forall|a: int, b: int|
        0 <= a < covered.len() && 0 <= b < covered.len() && a != b ==> #[trigger] covered[a].0@
            != #[trigger] covered[b].0@
}

proof fn lemma_count_where_bound(incs: Seq<IncidentView>, p: spec_fn(IncidentView) -> bool)
    ensures
        count_where(incs, p) <= incs.len(),
    decreases incs.len(),
{
    if incs.len() > 0 {
        lemma_count_where_bound(incs.drop_last(), p);
    }
}

proof fn lemma_count_where_step(incs: Seq<IncidentView>, k: int, p: spec_fn(IncidentView) -> bool)
    requires
        0 <= k < incs.len(),
    ensures
        count_where(incs.take(k + 1), p) == count_where(incs.take(k), p) + if p(incs[k]) {
            1nat
        } else {
            0nat
        },
{
    assert(incs.take(k + 1).drop_last() =~= incs.take(k));
}

/// Adds one incident to the count of `id` in `covered`, entering it with count 1 when
/// absent.
fn bump(covered: &mut Vec<(String, u64)>, id: &String)
    requires
        distinct_keys(old(covered)@),
        forall|i: int|
            0 <= i < old(covered)@.len() && #[trigger] old(covered)@[i].0@ == id@ ==> old(
                covered,
            )@[i].1 < u64::MAX,
    ensures
        distinct_keys(final(covered)@),
        covers(old(covered)@, id@) ==> final(covered)@.len() == old(covered)@.len(),
        !covers(old(covered)@, id@) ==> final(covered)@.len() == old(covered)@.len() + 1
            && final(covered)@.last().0@ == id@ && final(covered)@.last().1 == 1,
        forall|i: int|
            0 <= i < old(covered)@.len() ==> #[trigger] final(covered)@[i].0@ == old(
                covered,
            )@[i].0@ && final(covered)@[i].1 == if old(covered)@[i].0@ == id@ {
                old(covered)@[i].1 + 1
            } else {
                old(covered)@[i].1 as int
            },
{
    let mut i: usize = 0;
    while i < covered.len()
        invariant
            i <= covered@.len(),
            covered@ == old(covered)@,
            distinct_keys(old(covered)@),
            forall|j: int|
                0 <= j < old(covered)@.len() && #[trigger] old(covered)@[j].0@ == id@ ==> old(
                    covered,
                )@[j].1 < u64::MAX,
            forall|j: int| 0 <= j < i ==> covered@[j].0@ != id@,
        decreases covered@.len() - i,
    {
        if covered[i].0 == *id {
            let n = covered[i].1;
            let key = covered[i].0.clone();
            covered.set(i, (key, n + 1));
            proof {
                assert forall|j: int| 0 <= j < old(covered)@.len() && j != i implies old(
                    covered,
                )@[j].0@ != id@ by {
                    assert(old(covered)@[i as int].0@ != old(covered)@[j].0@);
                }
            }
            return;
        }
        i += 1;
    }
    covered.push((id.clone(), 1));
    proof {
        assert forall|a: int, b: int|
            0 <= a < covered@.len() && 0 <= b < covered@.len() && a != b implies #[trigger] covered@[a].0@
            != #[trigger] covered@[b].0@ by {
            if a < old(covered)@.len() && b < old(covered)@.len() {
                assert(old(covered)@[a].0@ != old(covered)@[b].0@);
            }
        }
        if covers(old(covered)@, id@) {
            let j = choose|j: int| 0 <= j < old(covered)@.len() && #[trigger] old(covered)@[j].0@ == id@;
            assert(old(covered)@[j].0@ != id@);
        }
    }
}

/// An incident's ground-truth list and the same list without repeats agree on being
/// empty and on holding two different anomalies.
proof fn lemma_distinct_shape(gt: Seq<Seq<char>>, d: Seq<Seq<char>>)
    requires
        distinct_strs(d),
        forall|g: Seq<char>| #[trigger] d.contains(g) == gt.contains(g),
    ensures
        (gt.len() > 0) == (d.len() > 0),
        two_distinct(gt) == (d.len() > 1),
{
    if gt.len() > 0 {
        assert(d.contains(gt[0]));
    }
    if d.len() > 0 {
        assert(d.contains(d[0]));
    }
    if d.len() > 1 {
        assert(d.contains(d[0]) && d.contains(d[1]));
        let a = choose|a: int| 0 <= a < gt.len() && gt[a] == d[0];
        let b = choose|b: int| 0 <= b < gt.len() && gt[b] == d[1];
        assert(gt[a] != gt[b]);
    }
    if two_distinct(gt) {
        let (a, b) = choose|a: int, b: int|
            0 <= a < gt.len() && 0 <= b < gt.len() && #[trigger] gt[a] != #[trigger] gt[b];
        assert(gt.contains(gt[a]) && gt.contains(gt[b]));
        assert(d.contains(gt[a]) && d.contains(gt[b]));
        let x = choose|x: int| 0 <= x < d.len() && d[x] == gt[a];
        let y = choose|y: int| 0 <= y < d.len() && d[y] == gt[b];
        assert(x != y);
    }
}

/// The incident counts of benchmark run `run_id` over the incidents Tier-2 reported.
pub fn count_incidents(incidents: &Vec<IncidentEvidence>, run_id: &str) -> (r: IncidentCounts)
    ensures
        r.tp_incidents == count_where(incident_views(incidents@), true_positive_in(run_id@)),
        r.fp_incidents == count_where(incident_views(incidents@), false_positive_in(run_id@)),
        r.merged_incidents == count_where(incident_views(incidents@), merged_in(run_id@)),
        r.escalated_total == count_where(incident_views(incidents@), escalated_in(run_id@)),
        r.escalated_tp == count_where(incident_views(incidents@), escalated_true_in(run_id@)),
        distinct_keys(r.covered@),
        forall|i: int|
            0 <= i < r.covered@.len() ==> #[trigger] r.covered@[i].1 == holding(
                incident_views(incidents@),
                run_id@,
                r.covered@[i].0@,
            ),
        forall|g: Seq<char>|
            #![trigger holding(incident_views(incidents@), run_id@, g)]
            #![trigger covers(r.covered@, g)]
            holding(incident_views(incidents@), run_id@, g) > 0 <==> covers(r.covered@, g),
{
    let ghost views = incident_views(incidents@);
    let run = run_id.to_owned();
    let mut tp: u64 = 0;
    let mut fp: u64 = 0;
    let mut merged: u64 = 0;
    let mut escalated: u64 = 0;
    let mut escalated_tp: u64 = 0;
    let mut covered: Vec<(String, u64)> = Vec::new();
    let mut k: usize = 0;
    while k < incidents.len()
        invariant
            k <= incidents@.len(),
            views == incident_views(incidents@),
            run@ == run_id@,
            tp == count_where(views.take(k as int), true_positive_in(run@)),
            fp == count_where(views.take(k as int), false_positive_in(run@)),
            merged == count_where(views.take(k as int), merged_in(run@)),
            escalated == count_where(views.take(k as int), escalated_in(run@)),
            escalated_tp == count_where(views.take(k as int), escalated_true_in(run@)),
            distinct_keys(covered@),
            forall|i: int|
                0 <= i < covered@.len() ==> #[trigger] covered@[i].1 == holding(
                    views.take(k as int),
                    run@,
                    covered@[i].0@,
                ),
            forall|g: Seq<char>|
                #![trigger holding(views.take(k as int), run@, g)]
                #![trigger covers(covered@, g)]
                holding(views.take(k as int), run@, g) > 0 <==> covers(covered@, g),
        decreases incidents@.len() - k,
    {
        let inc = &incidents[k];
        let ghost v = views[k as int];
        let ghost t0 = views.take(k as int);
        let ghost t1 = views.take(k + 1);
        proof {
            assert(v == inc@);
            lemma_count_where_step(views, k as int, true_positive_in(run@));
            lemma_count_where_step(views, k as int, false_positive_in(run@));
            lemma_count_where_step(views, k as int, merged_in(run@));
            lemma_count_where_step(views, k as int, escalated_in(run@));
            lemma_count_where_step(views, k as int, escalated_true_in(run@));
            lemma_count_where_bound(t0, true_positive_in(run@));
            lemma_count_where_bound(t0, false_positive_in(run@));
            lemma_count_where_bound(t0, merged_in(run@));
            lemma_count_where_bound(t0, escalated_in(run@));
            lemma_count_where_bound(t0, escalated_true_in(run@));
            assert forall|g: Seq<char>| #[trigger] holding(t0, run@, g) <= k by {
                lemma_count_where_bound(t0, holding_in(run@, g));
            }
            assert forall|g: Seq<char>| #[trigger] holding(t1, run@, g) == holding(t0, run@, g) + if holding_in(run@, g)(v) {
                1nat
            } else {
                0nat
            } by {
                lemma_count_where_step(views, k as int, holding_in(run@, g));
            }
        }
        if contains_id(&inc.run_ids, &run) {
            let distinct = distinct_ids(&inc.ground_truth_ids);
            proof {
                lemma_distinct_shape(v.ground_truth_ids, strs(distinct@));
            }
            let truth = distinct.len() > 0;
            if truth {
                tp = tp + 1;
                if distinct.len() > 1 {
                    merged = merged + 1;
                }
            } else {
                fp = fp + 1;
            }
            if inc.escalated {
                escalated = escalated + 1;
                if truth {
                    escalated_tp = escalated_tp + 1;
                }
            }
            let mut p: usize = 0;
            while p < distinct.len()
                invariant
                    p <= distinct@.len(),
                    k < incidents@.len(),
                    k < usize::MAX,
                    run@ == run_id@,
                    distinct_strs(strs(distinct@)),
                    distinct_keys(covered@),
                    forall|i: int|
                        0 <= i < covered@.len() ==> #[trigger] covered@[i].1 == holding(t0, run@, covered@[i].0@)
                            + if strs(distinct@.take(p as int)).contains(covered@[i].0@) {
                            1int
                        } else {
                            0int
                        },
                    forall|g: Seq<char>|
                        #![trigger holding(t0, run@, g)]
                        #![trigger covers(covered@, g)]
                        (holding(t0, run@, g) > 0 || strs(distinct@.take(p as int)).contains(g))
                            <==> covers(covered@, g),
                    forall|g: Seq<char>| #[trigger] holding(t0, run@, g) <= k,
                decreases distinct@.len() - p,
            {
                let id = &distinct[p];
                let ghost c0 = covered@;
                let ghost d0 = strs(distinct@.take(p as int));
                let ghost d1 = strs(distinct@.take(p + 1));
                proof {
                    assert(d1 =~= d0.push(id@));
                    assert(!d0.contains(id@)) by {
                        if d0.contains(id@) {
                            let j = choose|j: int| 0 <= j < d0.len() && #[trigger] d0[j] == id@;
                            assert(strs(distinct@)[j] == strs(distinct@)[p as int]);
                        }
                    };
                    assert forall|i: int| 0 <= i < c0.len() && #[trigger] c0[i].0@ == id@ implies c0[i].1
                        < u64::MAX by {
                        assert(!d0.contains(c0[i].0@));
                        assert(c0[i].1 == holding(t0, run@, c0[i].0@));
                        assert(holding(t0, run@, c0[i].0@) <= k);
                        assert(k < usize::MAX);
                        assert(usize::MAX <= u64::MAX);
                    }
                }
                bump(&mut covered, id);
                proof {
                    assert forall|i: int| 0 <= i < covered@.len() implies #[trigger] covered@[i].1
                        == holding(t0, run@, covered@[i].0@) + if d1.contains(covered@[i].0@) {
                        1int
                    } else {
                        0int
                    } by {
                        if i < c0.len() {
                            assert(covered@[i].0@ == c0[i].0@);
                            lemma_seq_contains_after_push(d0, id@, c0[i].0@);
                        } else {
                            assert(!covers(c0, id@));
                            assert(holding(t0, run@, id@) == 0);
                            assert(d1[d1.len() - 1] == id@);
                        }
                    }
                    assert forall|g: Seq<char>|
                        #![trigger holding(t0, run@, g)]
                        #![trigger covers(covered@, g)]
                        (holding(t0, run@, g) > 0 || d1.contains(g)) <==> covers(covered@, g) by {
                        lemma_seq_contains_after_push(d0, id@, g);
                        if covers(c0, g) {
                            let i = choose|i: int| 0 <= i < c0.len() && #[trigger] c0[i].0@ == g;
                            assert(covered@[i].0@ == g);
                        }
                        if covers(covered@, g) {
                            let i = choose|i: int| 0 <= i < covered@.len() && #[trigger] covered@[i].0@ == g;
                            if i < c0.len() {
                                assert(c0[i].0@ == g);
                            }
                        }
                        if g == id@ {
                            if covers(c0, id@) {
                            } else {
                                assert(covered@[covered@.len() - 1].0@ == g);
                            }
                        }
                    }
                }
                p = p + 1;
            }
            proof {
                assert(distinct@.take(p as int) =~= distinct@);
                assert(in_run(v, run@));
                assert forall|g: Seq<char>| holding_in(run@, g)(v) == strs(distinct@).contains(g) by {}
            }
        } else {
            proof {
                assert(!in_run(v, run@));
            }
        }
        k = k + 1;
    }
    proof {
        assert(views.take(k as int) =~= views);
    }
    IncidentCounts {
        tp_incidents: tp,
        fp_incidents: fp,
        merged_incidents: merged,
        escalated_total: escalated,
        escalated_tp,
        covered,
    }
}

/// Events of one injected anomaly: how many belonged to it, and how many of those the
/// detectors flagged.
#[derive(Debug, Clone, Copy, PartialEq, Eq, Structural)]
pub struct AnomalyEventStats {
    pub ground_truth_events: u64,
    pub detected_events: u64,
}

impl AnomalyEventStats {
    /// Events of the anomaly that went undetected (0 if the counts disagree).
    pub fn missed_events(&self) -> (r: u64)
        ensures
            r == if self.ground_truth_events >= self.detected_events {
                (self.ground_truth_events - self.detected_events) as u64
            } else {
                0
            },
    {
        self.ground_truth_events.saturating_sub(self.detected_events)
    }
}

/// No events yet.
pub open spec fn no_events() -> AnomalyEventStats {
    AnomalyEventStats { ground_truth_events: 0, detected_events: 0 }
}

/// The stats after one more event of the anomaly, detected or not.
pub open spec fn counted(s: AnomalyEventStats, detected: bool) -> AnomalyEventStats {
    AnomalyEventStats {
        ground_truth_events: (s.ground_truth_events + 1) as u64,
        detected_events: if detected {
            (s.detected_events + 1) as u64
        } else {
            s.detected_events
        },
    }
}

/// Whether `k` is among the keys of `e`.
pub open spec fn has_key(e: Seq<(String, AnomalyEventStats)>, k: Seq<char>) -> bool {
    exists|i: int| 0 <= i < e.len() && #[trigger] e[i].0@ == k
}

/// A position of key `k` in `e`.
pub open spec fn key_index(e: Seq<(String, AnomalyEventStats)>, k: Seq<char>) -> int {
    choose|i: int| 0 <= i < e.len() && #[trigger] e[i].0@ == k
}

/// The keys of `e`.
pub open spec fn keys(e: Seq<(String, AnomalyEventStats)>) -> Seq<Seq<char>> {
    e.map_values(|x: (String, AnomalyEventStats)| x.0@)
}

/// Per-anomaly event statistics, keyed by ground-truth anomaly ID.
pub struct AnomalyStatsTable {
    entries: Vec<(String, AnomalyEventStats)>,
}

impl View for AnomalyStatsTable {
    type V = Map<Seq<char>, AnomalyEventStats>;

    closed spec fn view(&self) -> Map<Seq<char>, AnomalyEventStats> {
        Map::new(
            |k: Seq<char>| has_key(self.entries@, k),
            |k: Seq<char>| self.entries@[key_index(self.entries@, k)].1,
        )
    }
}

impl AnomalyStatsTable {
    /// Keys are distinct, and no anomaly has more detected events than events.
    pub closed spec fn wf(&self) -> bool {
        &&& keys(self.entries@).no_duplicates()
        &&& forall|i: int|
            0 <= i < self.entries@.len() ==> #[trigger] self.entries@[i].1.detected_events
                <= self.entries@[i].1.ground_truth_events
    }

    /// An empty table.
    pub fn new() -> (r: Self)
        ensures
            r.wf(),
            r@ == Map::<Seq<char>, AnomalyEventStats>::empty(),
    {
        let r = AnomalyStatsTable { entries: Vec::new() };
        assert(r@ =~= Map::<Seq<char>, AnomalyEventStats>::empty());
        r
    }

    fn find(&self, id: &String) -> (r: Option<usize>)
        requires
            self.wf(),
        ensures
            r matches Some(i) ==> i < self.entries@.len() && self.entries@[i as int].0@ == id@
                && self@.contains_key(id@) && self@[id@] == self.entries@[i as int].1,
            r is None ==> !self@.contains_key(id@),
    {
        let mut i: usize = 0;
        while i < self.entries.len()
            invariant
                self.wf(),
                i <= self.entries@.len(),
                forall|j: int| 0 <= j < i ==> self.entries@[j].0@ != id@,
            decreases self.entries@.len() - i,
        {
            if self.entries[i].0 == *id {
                proof {
                    let e = self.entries@;
                    assert(has_key(e, id@));
                    let j = key_index(e, id@);
                    if j != i {
                        assert(keys(e)[j] == keys(e)[i as int]);
                    }
                }
                return Some(i);
            }
            i += 1;
        }
        None
    }

    /// Counts one event of anomaly `anomaly_id`, detected or not; a new ID enters the
    /// table.
    pub fn record(&mut self, anomaly_id: &str, detected: bool)
        requires
            old(self).wf(),
            old(self)@.contains_key(anomaly_id@) ==> old(self)@[anomaly_id@].ground_truth_events
                < u64::MAX,
        ensures
            final(self).wf(),
            final(self)@ == old(self)@.insert(
                anomaly_id@,
                counted(
                    if old(self)@.contains_key(anomaly_id@) {
                        old(self)@[anomaly_id@]
                    } else {
                        no_events()
                    },
                    detected,
                ),
            ),
    {
        let id = anomaly_id.to_owned();
        let ghost e0 = self.entries@;
        match self.find(&id) {
            Some(i) => {
                let s = self.entries[i].1;
                let next = AnomalyEventStats {
                    ground_truth_events: s.ground_truth_events + 1,
                    detected_events: if detected {
                        s.detected_events + 1
                    } else {
                        s.detected_events
                    },
                };
                let key = self.entries[i].0.clone();
                self.entries.set(i, (key, next));
                proof {
                    let e1 = self.entries@;
                    assert(keys(e1) =~= keys(e0));
                    assert forall|k: Seq<char>| #[trigger] has_key(e1, k) == has_key(e0, k) by {
                        if has_key(e0, k) {
                            let j = choose|j: int| 0 <= j < e0.len() && #[trigger] e0[j].0@ == k;
                            assert(e1[j].0@ == k);
                        }
                        if has_key(e1, k) {
                            let j = choose|j: int| 0 <= j < e1.len() && #[trigger] e1[j].0@ == k;
                            assert(e0[j].0@ == k);
                        }
                    }
                    assert forall|k: Seq<char>| has_key(e1, k) implies #[trigger] e1[key_index(e1, k)].1
                        == if k == id@ {
                        next
                    } else {
                        e0[key_index(e0, k)].1
                    } by {
                        let a = key_index(e1, k);
                        let b = key_index(e0, k);
                        assert(keys(e1)[a] == k);
                        assert(keys(e0)[b] == k);
                        if a != b {
                            assert(keys(e0)[a] == keys(e0)[b]);
                        }
                        if k == id@ && a != i {
                            assert(keys(e0)[a] == keys(e0)[i as int]);
                        }
                    }
                    assert(self@ =~= old(self)@.insert(id@, next));
                }
            },
            None => {
                let next = AnomalyEventStats {
                    ground_truth_events: 1,
                    detected_events: if detected {
                        1
                    } else {
                        0
                    },
                };
                self.entries.push((id, next));
                proof {
                    let e1 = self.entries@;
                    assert(keys(e1) =~= keys(e0).push(id@));
                    assert(!keys(e0).contains(id@)) by {
                        if keys(e0).contains(id@) {
                            let j = choose|j: int| 0 <= j < keys(e0).len() && keys(e0)[j] == id@;
                            assert(e0[j].0@ == id@);
                        }
                    };
                    assert forall|k: Seq<char>| #[trigger] has_key(e1, k) == (has_key(e0, k) || k == id@) by {
                        if has_key(e0, k) {
                            let j = choose|j: int| 0 <= j < e0.len() && #[trigger] e0[j].0@ == k;
                            assert(e1[j].0@ == k);
                        }
                        if has_key(e1, k) {
                            let j = choose|j: int| 0 <= j < e1.len() && #[trigger] e1[j].0@ == k;
                            if j < e0.len() {
                                assert(e0[j].0@ == k);
                            }
                        }
                        if k == id@ {
                            assert(e1[e0.len() as int].0@ == k);
                        }
                    }
                    assert forall|k: Seq<char>| has_key(e1, k) implies #[trigger] e1[key_index(e1, k)].1
                        == if k == id@ {
                        next
                    } else {
                        e0[key_index(e0, k)].1
                    } by {
                        let a = key_index(e1, k);
                        assert(keys(e1)[a] == k);
                        if k == id@ {
                            if a != e0.len() {
                                assert(keys(e1)[a] == keys(e1)[e0.len() as int]);
                            }
                        } else {
                            let b = key_index(e0, k);
                            assert(keys(e0)[b] == k);
                            assert(keys(e1)[b] == k);
                            if a != b {
                                assert(keys(e1)[a] == keys(e1)[b]);
                            }
                        }
                    }
                    assert(self@ =~= old(self)@.insert(id@, next));
                }
            },
        }
    }

    /// The stats of anomaly `anomaly_id`; no events when it is not in the table.
    pub fn stats_for(&self, anomaly_id: &str) -> (r: AnomalyEventStats)
        requires
            self.wf(),
        ensures
            r == if self@.contains_key(anomaly_id@) {
                self@[anomaly_id@]
            } else {
                no_events()
            },
    {
        let id = anomaly_id.to_owned();
        match self.find(&id) {
            Some(i) => self.entries[i].1,
            None => AnomalyEventStats { ground_truth_events: 0, detected_events: 0 },
        }
    }

    /// Number of distinct anomalies in the table.
    pub fn len(&self) -> (r: usize)
        requires
            self.wf(),
        ensures
            r == self@.len(),
    {
        proof {
            let e = self.entries@;
            keys(e).unique_seq_to_set();
            assert forall|k: Seq<char>| #[trigger] keys(e).to_set().contains(k) == self@.dom().contains(
                k,
            ) by {
                if keys(e).contains(k) {
                    let j = choose|j: int| 0 <= j < keys(e).len() && keys(e)[j] == k;
                    assert(e[j].0@ == k);
                }
                if has_key(e, k) {
                    let j = choose|j: int| 0 <= j < e.len() && #[trigger] e[j].0@ == k;
                    assert(keys(e)[j] == k);
                }
            }
            assert(keys(e).to_set() =~= self@.dom());
        }
        self.entries.len()
    }
}

/// Incidents of run `run_id`.
pub open spec fn of_run(run_id: Seq<char>) -> spec_fn(IncidentView) -> bool {
    |i: IncidentView| in_run(i, run_id)
}

/// The incident counts of a run agree with each other: every incident of the run is a
/// true or a false positive, a merged incident is a true positive, and escalated true
/// positives are among both the escalated incidents and the true positives.
pub proof fn lemma_incident_counts_consistent(incs: Seq<IncidentView>, run_id: Seq<char>)
    ensures
        count_where(incs, true_positive_in(run_id)) + count_where(incs, false_positive_in(run_id))
            == count_where(incs, of_run(run_id)),
        count_where(incs, merged_in(run_id)) <= count_where(incs, true_positive_in(run_id)),
        count_where(incs, escalated_true_in(run_id)) <= count_where(incs, escalated_in(run_id)),
        count_where(incs, escalated_true_in(run_id)) <= count_where(incs, true_positive_in(run_id)),
    decreases incs.len(),
{
    if incs.len() > 0 {
        lemma_incident_counts_consistent(incs.drop_last(), run_id);
        let v = incs.last();
        if merges(v) {
            let (a, b) = choose|a: int, b: int|
                0 <= a < v.ground_truth_ids.len() && 0 <= b < v.ground_truth_ids.len()
                    && #[trigger] v.ground_truth_ids[a] != #[trigger] v.ground_truth_ids[b];
            assert(has_truth(v));
        }
    }
}

} // verus!
