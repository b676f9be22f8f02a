//! Feedback bookkeeping from Tier-2 to Tier-1.
//!
//! Tier-2 confirms or denies anomalies; Tier-1 counts the outcomes and aggregates
//! them per detector for weight learning.

use vstd::prelude::*;

use crate::signal::NUM_DETECTORS;

verus! {

broadcast use vstd::string::group_string_axioms;

/// Source of the feedback.
#[derive(Debug, Clone, Copy, PartialEq, Eq, Structural)]
pub enum FeedbackSource {
    /// LLM analysis in Tier-2.
    LLMAnalysis,
    /// Human operator confirmation.
    HumanReview,
    /// Automated correlation (matched a known pattern).
    AutoCorrelation,
    /// Timeout (no confirmation received; treated as a false positive).
    Timeout,
}

/// The source that a wire code stands for: 0 to 2 name a source, anything else is a
/// timeout.
pub open spec fn source_of_code(code: u8) -> FeedbackSource {
    if code == 0 {
        FeedbackSource::LLMAnalysis
    } else if code == 1 {
        FeedbackSource::HumanReview
    } else if code == 2 {
        FeedbackSource::AutoCorrelation
    } else {
        FeedbackSource::Timeout
    }
}

impl FeedbackSource {
    /// Decodes a wire code (see `source_of_code`).
    pub fn from_code(code: u8) -> (r: FeedbackSource)
        ensures
            r == source_of_code(code),
    {
        match code {
            0 => FeedbackSource::LLMAnalysis,
            1 => FeedbackSource::HumanReview,
            2 => FeedbackSource::AutoCorrelation,
            _ => FeedbackSource::Timeout,
        }
    }
}

/// The source that an ingestion label names: `llm`, `human` and `auto`; anything else
/// is a timeout.
pub open spec fn source_of_label(label: Seq<char>) -> FeedbackSource {
    if label == "llm"@ {
        FeedbackSource::LLMAnalysis
    } else if label == "human"@ {
        FeedbackSource::HumanReview
    } else if label == "auto"@ {
        FeedbackSource::AutoCorrelation
    } else {
        FeedbackSource::Timeout
    }
}

impl FeedbackSource {
    /// Decodes a source label of the feedback endpoint (see `source_of_label`).
    pub fn from_label(label: &str) -> (r: FeedbackSource)
        ensures
            r == source_of_label(label@),
    {
        let l = label.to_owned();
        if l == "llm".to_string() {
            FeedbackSource::LLMAnalysis
        } else if l == "human".to_string() {
            FeedbackSource::HumanReview
        } else if l == "auto".to_string() {
            FeedbackSource::AutoCorrelation
        } else {
            FeedbackSource::Timeout
        }
    }
}

/// Which confusion-matrix cell an outcome falls in.
pub open spec fn is_tp(was_true_positive: bool, original_decision: bool) -> bool {
    was_true_positive && original_decision
}

pub open spec fn is_fp(was_true_positive: bool, original_decision: bool) -> bool {
    !was_true_positive && original_decision
}

pub open spec fn is_fn(was_true_positive: bool, original_decision: bool) -> bool {
    was_true_positive && !original_decision
}

/// Counters of feedback processing. Counters wrap around at `u64::MAX`.
#[derive(Debug, Default)]
pub struct FeedbackStats {
    pub received: u64,
    pub processed: u64,
    pub true_positives: u64,
    pub false_positives: u64,
    pub false_negatives: u64,
    pub dropped: u64,
}

/// The counter after one more event, wrapping at `u64::MAX`.
pub open spec fn bumped(x: u64) -> u64 {
    if x == u64::MAX {
        0
    } else {
        (x + 1) as u64
    }
}

impl FeedbackStats {
    /// Counts one received feedback event.
    pub fn record_received(&mut self)
        ensures
            *final(self) == (FeedbackStats { received: bumped(old(self).received), ..*old(self) }),
    {
        self.received = self.received.wrapping_add(1);
    }

    /// Counts one processed feedback event and its confusion-matrix cell; true
    /// negatives are not tracked.
    pub fn record_processed(&mut self, was_true_positive: bool, original_decision: bool)
        ensures
            final(self).processed == bumped(old(self).processed),
            final(self).true_positives == if is_tp(was_true_positive, original_decision) {
                bumped(old(self).true_positives)
            } else {
                old(self).true_positives
            },
            final(self).false_positives == if is_fp(was_true_positive, original_decision) {
                bumped(old(self).false_positives)
            } else {
                old(self).false_positives
            },
            final(self).false_negatives == if is_fn(was_true_positive, original_decision) {
                bumped(old(self).false_negatives)
            } else {
                old(self).false_negatives
            },
            final(self).received == old(self).received,
            final(self).dropped == old(self).dropped,
    {
        self.processed = self.processed.wrapping_add(1);
        if was_true_positive && original_decision {
            self.true_positives = self.true_positives.wrapping_add(1);
        } else if !was_true_positive && original_decision {
            self.false_positives = self.false_positives.wrapping_add(1);
        } else if was_true_positive && !original_decision {
            self.false_negatives = self.false_negatives.wrapping_add(1);
        }
    }

    /// Counts one dropped feedback event.
    pub fn record_dropped(&mut self)
        ensures
            *final(self) == (FeedbackStats { dropped: bumped(old(self).dropped), ..*old(self) }),
    {
        self.dropped = self.dropped.wrapping_add(1);
    }
}

/// Aggregated learning update for the adaptive ensemble.
#[derive(Debug, Clone)]
pub struct LearningUpdate {
    /// For each detector: (successes, failures).
    pub detector_outcomes: [(u32, u32); NUM_DETECTORS],
    /// Overall true positive count.
    pub true_positives: u32,
    /// Overall false positive count.
    pub false_positives: u32,
    /// Overall false negative count.
    pub false_negatives: u32,
}

impl LearningUpdate {
    /// An update with no outcomes.
    pub fn empty() -> (r: Self)
        ensures
            r.true_positives == 0 && r.false_positives == 0 && r.false_negatives == 0,
            forall|i: int| 0 <= i < NUM_DETECTORS ==> #[trigger] r.detector_outcomes@[i] == (0u32, 0u32),
    {
        LearningUpdate {
            detector_outcomes: [(0, 0); NUM_DETECTORS],
            true_positives: 0,
            false_positives: 0,
            false_negatives: 0,
        }
    }

    /// Adds one feedback outcome of the given weight: its confusion-matrix cell gains
    /// `weight`, and each detector gains `weight` successes if it judged correctly and
    /// `weight` failures otherwise.
    pub fn record(
        &mut self,
        weight: u32,
        was_true_positive: bool,
        original_decision: bool,
        correct: &[bool; NUM_DETECTORS],
    )
        requires
            is_tp(was_true_positive, original_decision) ==> old(self).true_positives + weight
                <= u32::MAX,
            is_fp(was_true_positive, original_decision) ==> old(self).false_positives + weight
                <= u32::MAX,
            is_fn(was_true_positive, original_decision) ==> old(self).false_negatives + weight
                <= u32::MAX,
            forall|i: int|
                #![trigger old(self).detector_outcomes@[i]]
                0 <= i < NUM_DETECTORS ==> if correct@[i] {
                    old(self).detector_outcomes@[i].0 + weight <= u32::MAX
                } else {
                    old(self).detector_outcomes@[i].1 + weight <= u32::MAX
                },
        ensures
            final(self).true_positives == old(self).true_positives + if is_tp(
                was_true_positive,
                original_decision,
            ) {
                weight
            } else {
                0
            },
            final(self).false_positives == old(self).false_positives + if is_fp(
                was_true_positive,
                original_decision,
            ) {
                weight
            } else {
                0
            },
            final(self).false_negatives == old(self).false_negatives + if is_fn(
                was_true_positive,
                original_decision,
            ) {
                weight
            } else {
                0
            },
            forall|i: int|
                0 <= i < NUM_DETECTORS ==> #[trigger] final(self).detector_outcomes@[i] == if correct@[i] {
                    (
                        (old(self).detector_outcomes@[i].0 + weight) as u32,
                        old(self).detector_outcomes@[i].1,
                    )
                } else {
                    (
                        old(self).detector_outcomes@[i].0,
                        (old(self).detector_outcomes@[i].1 + weight) as u32,
                    )
                },
    {
        if was_true_positive && original_decision {
            self.true_positives = self.true_positives + weight;
        } else if !was_true_positive && original_decision {
            self.false_positives = self.false_positives + weight;
        } else if was_true_positive && !original_decision {
            self.false_negatives = self.false_negatives + weight;
        }
        let ghost tp = self.true_positives;
        let ghost fp = self.false_positives;
        let ghost fneg = self.false_negatives;
        let mut i: usize = 0;
        while i < NUM_DETECTORS
            invariant
                i <= NUM_DETECTORS,
                self.true_positives == tp,
                self.false_positives == fp,
                self.false_negatives == fneg,
                forall|j: int|
                    #![trigger old(self).detector_outcomes@[j]]
                    0 <= j < NUM_DETECTORS ==> if correct@[j] {
                        old(self).detector_outcomes@[j].0 + weight <= u32::MAX
                    } else {
                        old(self).detector_outcomes@[j].1 + weight <= u32::MAX
                    },
                forall|j: int|
                    i <= j < NUM_DETECTORS ==> #[trigger] self.detector_outcomes@[j]
                        == old(self).detector_outcomes@[j],
                forall|j: int|
                    0 <= j < i ==> #[trigger] self.detector_outcomes@[j] == if correct@[j] {
                        (
                            (old(self).detector_outcomes@[j].0 + weight) as u32,
                            old(self).detector_outcomes@[j].1,
                        )
                    } else {
                        (
                            old(self).detector_outcomes@[j].0,
                            (old(self).detector_outcomes@[j].1 + weight) as u32,
                        )
                    },
            decreases NUM_DETECTORS - i,
        {
            let (s, f) = self.detector_outcomes[i];
            if correct[i] {
                self.detector_outcomes[i] = (s + weight, f);
            } else {
                self.detector_outcomes[i] = (s, f + weight);
            }
            i += 1;
        }
    }

    /// Whether the update holds any true positive, false positive or false negative.
    pub fn is_significant(&self) -> (r: bool)
        requires
            self.true_positives + self.false_positives + self.false_negatives <= u32::MAX,
        ensures
            r == (self.true_positives + self.false_positives + self.false_negatives > 0),
    {
        self.true_positives + self.false_positives + self.false_negatives > 0
    }
}

} // verus!
