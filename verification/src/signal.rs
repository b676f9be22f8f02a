//! Detector identifiers and severity levels carried by anomaly signals.

use vstd::prelude::*;

verus! {

/// Number of detectors in the ensemble.
pub const NUM_DETECTORS: usize = 10;

/// Detector identifiers used for attribution.
#[derive(Debug, Clone, Copy, PartialEq, Eq, Structural)]
pub enum DetectorId {
    Volume,
    Distribution,
    Cardinality,
    Burst,
    Spectral,
    ChangePoint,
    RRCF,
    MultiScale,
    Behavioral,
    Drift,
}

/// The wire code of a detector: its position in the ensemble.
pub open spec fn detector_code(d: DetectorId) -> u8 {
    match d {
        DetectorId::Volume => 0,
        DetectorId::Distribution => 1,
        DetectorId::Cardinality => 2,
        DetectorId::Burst => 3,
        DetectorId::Spectral => 4,
        DetectorId::ChangePoint => 5,
        DetectorId::RRCF => 6,
        DetectorId::MultiScale => 7,
        DetectorId::Behavioral => 8,
        DetectorId::Drift => 9,
    }
}

/// Human-readable name of a detector.
pub open spec fn detector_name(d: DetectorId) -> Seq<char> {
    match d {
        DetectorId::Volume => "Volume/RPS"@,
        DetectorId::Distribution => "Distribution/Value"@,
        DetectorId::Cardinality => "Cardinality/Velocity"@,
        DetectorId::Burst => "Burst/IAT"@,
        DetectorId::Spectral => "Spectral/FFT"@,
        DetectorId::ChangePoint => "ChangePoint/Trend"@,
        DetectorId::RRCF => "RRCF/Isolation"@,
        DetectorId::MultiScale => "MultiScale/Temporal"@,
        DetectorId::Behavioral => "Behavioral/Fingerprint"@,
        DetectorId::Drift => "Drift/Concept"@,
    }
}

impl DetectorId {
    /// Decodes a wire code; codes outside `0..10` have no detector.
    pub fn from_u8(v: u8) -> (r: Option<DetectorId>)
        ensures
            v < NUM_DETECTORS ==> r is Some && detector_code(r->0) == v,
            v >= NUM_DETECTORS ==> r is None,
    {
        match v {
            0 => Some(DetectorId::Volume),
            1 => Some(DetectorId::Distribution),
            2 => Some(DetectorId::Cardinality),
            3 => Some(DetectorId::Burst),
            4 => Some(DetectorId::Spectral),
            5 => Some(DetectorId::ChangePoint),
            6 => Some(DetectorId::RRCF),
            7 => Some(DetectorId::MultiScale),
            8 => Some(DetectorId::Behavioral),
            9 => Some(DetectorId::Drift),
            _ => None,
        }
    }

    /// The wire code of this detector.
    pub fn code(&self) -> (r: u8)
        ensures
            r == detector_code(*self),
    {
        match self {
            DetectorId::Volume => 0,
            DetectorId::Distribution => 1,
            DetectorId::Cardinality => 2,
            DetectorId::Burst => 3,
            DetectorId::Spectral => 4,
            DetectorId::ChangePoint => 5,
            DetectorId::RRCF => 6,
            DetectorId::MultiScale => 7,
            DetectorId::Behavioral => 8,
            DetectorId::Drift => 9,
        }
    }

    /// Human-readable name of the detector.
    pub fn name(&self) -> (r: &'static str)
        ensures
            r@ == detector_name(*self),
    {
        match self {
            DetectorId::Volume => "Volume/RPS",
            DetectorId::Distribution => "Distribution/Value",
            DetectorId::Cardinality => "Cardinality/Velocity",
            DetectorId::Burst => "Burst/IAT",
            DetectorId::Spectral => "Spectral/FFT",
            DetectorId::ChangePoint => "ChangePoint/Trend",
            DetectorId::RRCF => "RRCF/Isolation",
            DetectorId::MultiScale => "MultiScale/Temporal",
            DetectorId::Behavioral => "Behavioral/Fingerprint",
            DetectorId::Drift => "Drift/Concept",
        }
    }
}

/// Severity levels for anomalies, from none to critical.
#[derive(Debug, Clone, Copy, PartialEq, Eq, Structural, PartialOrd, Ord, Default)]
pub enum Severity {
    #[default]
    NoAnomaly,
    Low,
    Medium,
    High,
    Critical,
}

/// Wire level of a severity: 0 (none) to 4 (critical).
pub open spec fn severity_level(s: Severity) -> u8 {
    match s {
        Severity::NoAnomaly => 0,
        Severity::Low => 1,
        Severity::Medium => 2,
        Severity::High => 3,
        Severity::Critical => 4,
    }
}

impl Severity {
    /// Wire level of the severity.
    pub fn level(&self) -> (r: u8)
        ensures
            r == severity_level(*self),
    {
        match self {
            Severity::NoAnomaly => 0,
            Severity::Low => 1,
            Severity::Medium => 2,
            Severity::High => 3,
            Severity::Critical => 4,
        }
    }
}

/// Decoding a detector's wire code gives the detector back: every code is below
/// `NUM_DETECTORS`, distinct detectors have distinct codes, and `from_u8` of a
/// detector's code is that detector.
pub proof fn lemma_detector_code_roundtrip(d: DetectorId, e: DetectorId)
    ensures
        detector_code(d) < NUM_DETECTORS,
        detector_code(d) == detector_code(e) ==> d == e,
{
}


/// Different detectors have different names: a name tells its detector.
pub proof fn lemma_detector_names_distinct(d: DetectorId, e: DetectorId)
    ensures
        detector_name(d) == detector_name(e) ==> d == e,
{
    reveal_strlit("Volume/RPS");
    reveal_strlit("Distribution/Value");
    reveal_strlit("Cardinality/Velocity");
    reveal_strlit("Burst/IAT");
    reveal_strlit("Spectral/FFT");
    reveal_strlit("ChangePoint/Trend");
    reveal_strlit("RRCF/Isolation");
    reveal_strlit("MultiScale/Temporal");
    reveal_strlit("Behavioral/Fingerprint");
    reveal_strlit("Drift/Concept");
    if detector_name(d) == detector_name(e) {
        assert(detector_name(d)[0] == detector_name(e)[0]);
        assert(detector_name(d)[1] == detector_name(e)[1]);
    }
}

} // verus!
