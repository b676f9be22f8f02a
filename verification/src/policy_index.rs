//! Index of a policy snapshot's rules by the entities and detectors they target.
//!
//! Evaluating a snapshot visits the rules aimed at the event's entity, then those aimed
//! at its detector that were not visited yet, then the rules aimed at everything; a
//! visited rule applies when it targets the detector and has not expired (and, outside
//! this crate, when the event's confidence reaches the rule's threshold), and the last
//! rule that applies decides the effect.

use vstd::prelude::*;

use std::collections::HashMap;

use crate::policy::{expiry_of, rule_expires_at};

verus! {

broadcast use vstd::std_specs::hash::group_hash_axioms;

/// What the index reads of a rule: the entities and the detector it is aimed at, and
/// its time to live in seconds (0 for none).
#[derive(Debug, Clone)]
pub struct RuleTargets {
    pub entity_hashes: Vec<u64>,
    pub primary_detector: Option<u8>,
    pub ttl_sec: u64,
}

/// The values of a [`RuleTargets`].
pub struct RuleView {
    pub entity_hashes: Seq<u64>,
    pub primary_detector: Option<u8>,
    pub ttl_sec: u64,
}

impl View for RuleTargets {
    type V = RuleView;

    open spec fn view(&self) -> RuleView {
        RuleView {
            entity_hashes: self.entity_hashes@,
            primary_detector: self.primary_detector,
            ttl_sec: self.ttl_sec,
        }
    }
}

/// The values of a sequence of rules.
pub open spec fn rule_views(s: Seq<RuleTargets>) -> Seq<RuleView> {
    s.map_values(|r: RuleTargets| r@)
}

/// A rule aimed at every entity and every detector.
pub open spec fn is_wildcard(r: RuleView) -> bool {
    r.entity_hashes.len() == 0 && r.primary_detector is None
}

/// Position `idx` once for each time `h` occurs in `hashes`.
pub open spec fn repeat_for(hashes: Seq<u64>, h: u64, idx: usize) -> Seq<usize>
    decreases hashes.len(),
{
    if hashes.len() == 0 {
        Seq::empty()
    } else {
        let prev = repeat_for(hashes.drop_last(), h, idx);
        if hashes.last() == h {
            prev.push(idx)
        } else {
            prev
        }
    }
}

/// The rule positions listed under entity `h`: each rule once per occurrence of `h`
/// among its entities, in rule order.
pub open spec fn entity_list(rules: Seq<RuleView>, h: u64) -> Seq<usize>
    decreases rules.len(),
{
    if rules.len() == 0 {
        Seq::empty()
    } else {
        entity_list(rules.drop_last(), h) + repeat_for(
            rules.last().entity_hashes,
            h,
            (rules.len() - 1) as usize,
        )
    }
}

/// The positions of the rules aimed at detector `d`, in rule order.
pub open spec fn detector_list(rules: Seq<RuleView>, d: u8) -> Seq<usize>
    decreases rules.len(),
{
    if rules.len() == 0 {
        Seq::empty()
    } else {
        let prev = detector_list(rules.drop_last(), d);
        if rules.last().primary_detector == Some(d) {
            prev.push((rules.len() - 1) as usize)
        } else {
            prev
        }
    }
}

/// The positions of the wildcard rules, in rule order.
pub open spec fn wildcard_list(rules: Seq<RuleView>) -> Seq<usize>
    decreases rules.len(),
{
    if rules.len() == 0 {
        Seq::empty()
    } else {
        let prev = wildcard_list(rules.drop_last());
        if is_wildcard(rules.last()) {
            prev.push((rules.len() - 1) as usize)
        } else {
            prev
        }
    }
}

/// `acc` followed by the elements of `xs` that are not in it yet, in order.
pub open spec fn append_unseen(acc: Seq<usize>, xs: Seq<usize>) -> Seq<usize>
    decreases xs.len(),
{
    if xs.len() == 0 {
        acc
    } else {
        let a = append_unseen(acc, xs.drop_last());
        if a.contains(xs.last()) {
            a
        } else {
            a.push(xs.last())
        }
    }
}

/// The order in which rules are visited for an event of entity `h` flagged by
/// detector `d`.
pub open spec fn visit_order(rules: Seq<RuleView>, h: u64, d: u8) -> Seq<usize> {
    append_unseen(append_unseen(entity_list(rules, h), detector_list(rules, d)), wildcard_list(rules))
}

/// Rules of a snapshot indexed by target.
pub struct PolicyIndex {
    entity_index: HashMap<u64, Vec<usize>>,
    detector_index: HashMap<u8, Vec<usize>>,
    wildcard_rules: Vec<usize>,
    rule_detectors: Vec<Option<u8>>,
    expires_at: Vec<Option<u64>>,
    rules: Ghost<Seq<RuleView>>,
    created_at_unix: Ghost<u64>,
}

impl PolicyIndex {
    /// The rules indexed.
    pub closed spec fn spec_rules(&self) -> Seq<RuleView> {
        self.rules@
    }

    /// Creation time of the snapshot.
    pub closed spec fn spec_created_at(&self) -> u64 {
        self.created_at_unix@
    }

    /// The index lists every rule under its targets, and keeps each rule's detector and
    /// expiry.
    pub closed spec fn wf(&self) -> bool {
        &&& forall|h: u64|
            #![trigger self.entity_index@.contains_key(h)]
            #![trigger entity_list(self.rules@, h)]
            (self.entity_index@.contains_key(h) ==> self.entity_index@[h]@ == entity_list(
                self.rules@,
                h,
            )) && (!self.entity_index@.contains_key(h) ==> entity_list(self.rules@, h)
                == Seq::<usize>::empty())
        &&& forall|d: u8|
            #![trigger self.detector_index@.contains_key(d)]
            #![trigger detector_list(self.rules@, d)]
            (self.detector_index@.contains_key(d) ==> self.detector_index@[d]@ == detector_list(
                self.rules@,
                d,
            )) && (!self.detector_index@.contains_key(d) ==> detector_list(self.rules@, d)
                == Seq::<usize>::empty())
        &&& self.wildcard_rules@ == wildcard_list(self.rules@)
        &&& self.rule_detectors@.len() == self.rules@.len()
        &&& self.expires_at@.len() == self.rules@.len()
        &&& forall|i: int|
            0 <= i < self.rules@.len() ==> #[trigger] self.rule_detectors@[i]
                == self.rules@[i].primary_detector && self.expires_at@[i] == expiry_of(
                self.created_at_unix@,
                self.rules@[i].ttl_sec,
            )
    }
}

/// Whether `x` is among `v`.
fn contains_index(v: &Vec<usize>, x: usize) -> (r: bool)
    ensures
        r == v@.contains(x),
{
    let mut i: usize = 0;
    while i < v.len()
        invariant
            i <= v@.len(),
            forall|j: int| 0 <= j < i ==> v@[j] != x,
        decreases v@.len() - i,
    {
        if v[i] == x {
            return true;
        }
        i += 1;
    }
    false
}

/// Appends the elements of `xs` that `acc` does not hold yet.
fn push_unseen(acc: &mut Vec<usize>, xs: &Vec<usize>)
    ensures
        final(acc)@ == append_unseen(old(acc)@, xs@),
{
    let mut i: usize = 0;
    while i < xs.len()
        invariant
            i <= xs@.len(),
            acc@ == append_unseen(old(acc)@, xs@.take(i as int)),
        decreases xs@.len() - i,
    {
        let x = xs[i];
        proof {
            assert(xs@.take(i + 1).drop_last() =~= xs@.take(i as int));
        }
        if !contains_index(acc, x) {
            acc.push(x);
        }
        i += 1;
    }
    assert(xs@.take(i as int) =~= xs@);
}

/// A copy of a list of positions.
fn copy_positions(v: &Vec<usize>) -> (r: Vec<usize>)
    ensures
        r@ == v@,
{
    let mut r: Vec<usize> = Vec::new();
    let mut i: usize = 0;
    while i < v.len()
        invariant
            i <= v@.len(),
            r@ == v@.take(i as int),
        decreases v@.len() - i,
    {
        r.push(v[i]);
        proof {
            assert(v@.take(i + 1) =~= v@.take(i as int).push(v@[i as int]));
        }
        i += 1;
    }
    assert(v@.take(i as int) =~= v@);
    r
}

proof fn lemma_list_step(rules: Seq<RuleView>, k: int)
    requires
        0 <= k < rules.len(),
        rules.len() <= usize::MAX,
    ensures
        forall|h: u64| #[trigger] entity_list(rules.take(k + 1), h) == entity_list(rules.take(k), h)
            + repeat_for(rules[k].entity_hashes, h, k as usize),
        forall|d: u8| #[trigger] detector_list(rules.take(k + 1), d) == if rules[k].primary_detector
            == Some(d) {
            detector_list(rules.take(k), d).push(k as usize)
        } else {
            detector_list(rules.take(k), d)
        },
        wildcard_list(rules.take(k + 1)) == if is_wildcard(rules[k]) {
            wildcard_list(rules.take(k)).push(k as usize)
        } else {
            wildcard_list(rules.take(k))
        },
{
    assert(rules.take(k + 1).drop_last() =~= rules.take(k));
    assert(rules.take(k + 1).last() == rules[k]);
}

impl PolicyIndex {
    /// Indexes the rules of a snapshot created at `created_at_unix`.
    pub fn from_rules(rules: &Vec<RuleTargets>, created_at_unix: u64) -> (r: Self)
        ensures
            r.wf(),
            r.spec_rules() == rule_views(rules@),
            r.spec_created_at() == created_at_unix,
    {
        let ghost views = rule_views(rules@);
        let mut entity_index: HashMap<u64, Vec<usize>> = HashMap::new();
        let mut detector_index: HashMap<u8, Vec<usize>> = HashMap::new();
        let mut wildcard_rules: Vec<usize> = Vec::new();
        let mut rule_detectors: Vec<Option<u8>> = Vec::new();
        let mut expires_at: Vec<Option<u64>> = Vec::new();
        let mut idx: usize = 0;
        while idx < rules.len()
            invariant
                idx <= rules@.len(),
                views == rule_views(rules@),
                forall|h: u64|
                    #![trigger entity_index@.contains_key(h)]
                    #![trigger entity_list(views.take(idx as int), h)]
                    (entity_index@.contains_key(h) ==> entity_index@[h]@ == entity_list(
                        views.take(idx as int),
                        h,
                    )) && (!entity_index@.contains_key(h) ==> entity_list(views.take(idx as int), h)
                        == Seq::<usize>::empty()),
                forall|d: u8|
                    #![trigger detector_index@.contains_key(d)]
                    #![trigger detector_list(views.take(idx as int), d)]
                    (detector_index@.contains_key(d) ==> detector_index@[d]@ == detector_list(
                        views.take(idx as int),
                        d,
                    )) && (!detector_index@.contains_key(d) ==> detector_list(
                        views.take(idx as int),
                        d,
                    ) == Seq::<usize>::empty()),
                wildcard_rules@ == wildcard_list(views.take(idx as int)),
                rule_detectors@.len() == idx,
                expires_at@.len() == idx,
                forall|i: int|
                    0 <= i < idx ==> #[trigger] rule_detectors@[i] == views[i].primary_detector
                        && expires_at@[i] == expiry_of(created_at_unix, views[i].ttl_sec),
            decreases rules@.len() - idx,
        {
            let rule = &rules[idx];
            let ghost v = views[idx as int];
            proof {
                assert(v == rule@);
                lemma_list_step(views, idx as int);
            }
            let ghost e0 = entity_index@;
            if rule.entity_hashes.len() == 0 && rule.primary_detector.is_none() {
                wildcard_rules.push(idx);
                proof {
                    assert forall|h: u64| #[trigger] repeat_for(v.entity_hashes, h, idx) == Seq::<usize>::empty() by {
                        assert(v.entity_hashes.len() == 0);
                    }
                    assert forall|h: u64| #[trigger] entity_list(views.take(idx + 1), h) == entity_list(views.take(idx as int), h) by {
                        assert(entity_list(views.take(idx as int), h) + Seq::<usize>::empty() =~= entity_list(views.take(idx as int), h));
                    }
                }
            } else {
                let mut j: usize = 0;
                while j < rule.entity_hashes.len()
                    invariant
                        j <= v.entity_hashes.len(),
                        v.entity_hashes == rule.entity_hashes@,
                        forall|h: u64|
                            #![trigger entity_index@.contains_key(h)]
                            #![trigger entity_list(views.take(idx as int), h)]
                            (entity_index@.contains_key(h) ==> entity_index@[h]@ == entity_list(
                                views.take(idx as int),
                                h,
                            ) + repeat_for(v.entity_hashes.take(j as int), h, idx)) && (
                            !entity_index@.contains_key(h) ==> entity_list(views.take(idx as int), h)
                                + repeat_for(v.entity_hashes.take(j as int), h, idx)
                                == Seq::<usize>::empty()),
                    decreases v.entity_hashes.len() - j,
                {
                    let h = rule.entity_hashes[j];
                    let ghost m0 = entity_index@;
                    proof {
                        assert(v.entity_hashes.take(j + 1).drop_last() =~= v.entity_hashes.take(j as int));
                    }
                    match entity_index.remove(&h) {
                        Some(mut list) => {
                            list.push(idx);
                            entity_index.insert(h, list);
                        },
                        None => {
                            let mut list: Vec<usize> = Vec::new();
                            list.push(idx);
                            entity_index.insert(h, list);
                        },
                    }
                    proof {
                        assert forall|g: u64|
                            #![trigger entity_index@.contains_key(g)]
                            #![trigger entity_list(views.take(idx as int), g)]
                            (entity_index@.contains_key(g) ==> entity_index@[g]@ == entity_list(
                                views.take(idx as int),
                                g,
                            ) + repeat_for(v.entity_hashes.take(j + 1), g, idx)) && (
                            !entity_index@.contains_key(g) ==> entity_list(views.take(idx as int), g)
                                + repeat_for(v.entity_hashes.take(j + 1), g, idx)
                                == Seq::<usize>::empty()) by {
                            let before = entity_list(views.take(idx as int), g) + repeat_for(v.entity_hashes.take(j as int), g, idx);
                            if g == h {
                                assert(entity_list(views.take(idx as int), g) + repeat_for(v.entity_hashes.take(j + 1), g, idx)
                                    =~= before.push(idx));
                            } else {
                                assert(entity_list(views.take(idx as int), g) + repeat_for(v.entity_hashes.take(j + 1), g, idx)
                                    =~= before);
                            }
                        }
                    }
                    j += 1;
                }
                proof {
                    assert(v.entity_hashes.take(j as int) =~= v.entity_hashes);
                }
                match rule.primary_detector {
                    Some(d) => {
                        match detector_index.remove(&d) {
                            Some(mut list) => {
                                list.push(idx);
                                detector_index.insert(d, list);
                            },
                            None => {
                                let mut list: Vec<usize> = Vec::new();
                                list.push(idx);
                                detector_index.insert(d, list);
                            },
                        }
                    },
                    None => {},
                }
                proof {
                    assert forall|g: u64|
                        #![trigger entity_index@.contains_key(g)]
                        #![trigger entity_list(views.take(idx + 1), g)]
                        (entity_index@.contains_key(g) ==> entity_index@[g]@ == entity_list(
                            views.take(idx + 1),
                            g,
                        )) && (!entity_index@.contains_key(g) ==> entity_list(views.take(idx + 1), g)
                            == Seq::<usize>::empty()) by {
                        assert(entity_list(views.take(idx + 1), g) == entity_list(views.take(idx as int), g)
                            + repeat_for(v.entity_hashes, g, idx));
                    }
                }
            }
            rule_detectors.push(rule.primary_detector);
            expires_at.push(rule_expires_at(created_at_unix, rule.ttl_sec));
            idx += 1;
        }
        proof {
            assert(views.take(idx as int) =~= views);
        }
        PolicyIndex {
            entity_index,
            detector_index,
            wildcard_rules,
            rule_detectors,
            expires_at,
            rules: Ghost(views),
            created_at_unix: Ghost(created_at_unix),
        }
    }

    /// The positions of the rules to visit, in order, for an event of entity
    /// `entity_hash` flagged by `detector`.
    pub fn visit_order(&self, entity_hash: u64, detector: u8) -> (r: Vec<usize>)
        requires
            self.wf(),
        ensures
            r@ == visit_order(self.spec_rules(), entity_hash, detector),
    {
        let mut order: Vec<usize> = match self.entity_index.get(&entity_hash) {
            Some(list) => copy_positions(list),
            None => Vec::new(),
        };
        proof {
            assert(order@ == entity_list(self.rules@, entity_hash));
        }
        match self.detector_index.get(&detector) {
            Some(list) => push_unseen(&mut order, list),
            None => {
                proof {
                    assert(detector_list(self.rules@, detector) == Seq::<usize>::empty());
                }
            },
        }
        push_unseen(&mut order, &self.wildcard_rules);
        order
    }

    /// Whether rule number `idx` applies to an event flagged by `detector` at `now`:
    /// it is aimed at that detector or at all, and has not expired.
    pub fn rule_applies(&self, idx: usize, detector: u8, now: u64) -> (r: bool)
        requires
            self.wf(),
            idx < self.spec_rules().len(),
        ensures
            r == ((match self.spec_rules()[idx as int].primary_detector {
                Some(d) => d == detector,
                None => true,
            }) && match expiry_of(self.spec_created_at(), self.spec_rules()[idx as int].ttl_sec) {
                Some(e) => now <= e,
                None => true,
            }),
    {
        let aimed = match self.rule_detectors[idx] {
            Some(d) => d == detector,
            None => true,
        };
        let live = match self.expires_at[idx] {
            Some(e) => now <= e,
            None => true,
        };
        aimed && live
    }

    /// Number of rules indexed.
    pub fn rule_count(&self) -> (r: usize)
        requires
            self.wf(),
        ensures
            r == self.spec_rules().len(),
    {
        self.rule_detectors.len()
    }
}

} // verus!
