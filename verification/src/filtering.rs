//! The value-free parts of the tilt-filter evaluation: estimator errors and
//! kinds, and how an evaluation names its inputs and limitations.

use vstd::prelude::*;
use crate::selection::{safe_basename, safe_basename_of, strings_view};
use crate::text::{decimal, push_decimal, push_str, string_of};

verus! {

/// Why an estimator refused an input.
#[derive(Debug, Clone, Copy, PartialEq, Eq)]
pub enum EstimatorError {
    InvalidDt,
    InvalidTau,
    NonFiniteVector(&'static str),
    DegenerateVector(&'static str),
}

pub open spec fn estimator_error_text(e: EstimatorError) -> Seq<char> {
    match e {
        EstimatorError::InvalidDt => "dtSeconds must be positive and finite"@,
        EstimatorError::InvalidTau => "tauSeconds must be positive and finite"@,
        EstimatorError::NonFiniteVector(name) => name@ + " must contain finite components"@,
        EstimatorError::DegenerateVector(name) => name@ + " norm is too small"@,
    }
}

impl EstimatorError {
    /// The human-readable message of the error.
    pub fn message(&self) -> (r: String)
        ensures
            r@ == estimator_error_text(*self),
    {
        match self {
            EstimatorError::InvalidDt => string_of("dtSeconds must be positive and finite"),
            EstimatorError::InvalidTau => string_of("tauSeconds must be positive and finite"),
            EstimatorError::NonFiniteVector(name) => {
                let mut m = string_of(name);
                push_str(&mut m, " must contain finite components");
                m
            },
            EstimatorError::DegenerateVector(name) => {
                let mut m = string_of(name);
                push_str(&mut m, " norm is too small");
                m
            },
        }
    }
}

/// The estimator that reads the tilt straight from the gravity vector, with
/// no additional filtering; it keeps no state.
#[derive(Debug, Clone, Copy, PartialEq, Eq, Structural)]
pub struct GravityOnlyEstimator;

impl GravityOnlyEstimator {
    pub fn new() -> (r: GravityOnlyEstimator)
        ensures
            r == GravityOnlyEstimator,
    {
        GravityOnlyEstimator
    }
}

/// The axis a synthetic step or sine excites.
#[derive(Debug, Clone, Copy, PartialEq, Eq, Structural)]
pub enum TiltAxis {
    Roll,
    Pitch,
}

#[derive(Debug, Clone, Copy, PartialEq, Eq, Structural)]
pub enum InputKind {
    SyntheticSuite,
    Dataset,
}

/// One synthetic fixture as listed in an evaluation report.
#[derive(Debug, Clone)]
pub struct SyntheticFixtureSummary {
    pub name: String,
    pub sample_count: usize,
    pub ground_truth_available: bool,
    pub calibration_kind: String,
    pub calibration_profile_version: u8,
    pub seed: Option<u64>,
}

/// What an evaluation ran on.
#[derive(Debug, Clone)]
pub struct EvaluationInput {
    pub kind: InputKind,
    pub identifier: String,
    pub profile_identifier: Option<String>,
    pub synthetic_fixtures: Vec<SyntheticFixtureSummary>,
}

/// Which calibration an evaluation applied.
#[derive(Debug, Clone)]
pub enum CalibrationInputReport {
    SyntheticSuiteMixed,
    Profile { profile: String, mounting_convention: String, source_dataset: String },
}

/// A physical capture is evaluated only when it holds exactly one session.
pub fn check_single_session(session_count: usize) -> (r: Result<(), String>)
    ensures
        session_count == 1 ==> r is Ok,
        session_count != 1 ==> (r matches Err(m) && m@ == "evaluation requires exactly one session, got "@
            + decimal(session_count as nat)),
{
    if session_count == 1 {
        Ok(())
    } else {
        let mut m = string_of("evaluation requires exactly one session, got ");
        push_decimal(&mut m, session_count as u64);
        Err(m)
    }
}

/// The input of an evaluation of a physical capture: the capture and the
/// profile, each by its report-safe file name.
pub fn dataset_evaluation_input(dataset_path: &str, profile_path: &str) -> (r: EvaluationInput)
    ensures
        r.kind == InputKind::Dataset,
        r.identifier@ == safe_basename_of(dataset_path@),
        r.profile_identifier matches Some(p) && p@ == safe_basename_of(profile_path@),
        r.synthetic_fixtures@.len() == 0,
{
    EvaluationInput {
        kind: InputKind::Dataset,
        identifier: safe_basename(dataset_path),
        profile_identifier: Some(safe_basename(profile_path)),
        synthetic_fixtures: Vec::new(),
    }
}

/// The input of an evaluation of the synthetic suite.
pub fn synthetic_evaluation_input(fixtures: Vec<SyntheticFixtureSummary>) -> (r: EvaluationInput)
    ensures
        r.kind == InputKind::SyntheticSuite,
        r.identifier@ == "synthetic-suite-v1"@,
        r.profile_identifier is None,
        r.synthetic_fixtures@ == fixtures@,
{
    EvaluationInput {
        kind: InputKind::SyntheticSuite,
        identifier: string_of("synthetic-suite-v1"),
        profile_identifier: None,
        synthetic_fixtures: fixtures,
    }
}

pub open spec fn common_limitation_texts() -> Seq<Seq<char>> {
    seq![
        "Android TYPE_GRAVITY may already include vendor filtering or fusion; baseline means no additional Anchor filter"@,
        "MotionSampleV1 has no individual timestamps for linear acceleration, gravity and gyroscope"@,
        "no rigorous physical delay between gravity and gyro can be inferred from this payload"@,
        "yaw is unavailable because B2 yawCalibrated is false and no magnetometer is used"@,
        "complementary correction uses normalized vector mixing, not SLERP"@,
        "adaptive correction from linear acceleration is intentionally out of scope for B3a"@,
    ]
}

pub open spec fn proxy_limitation_text() -> Seq<char> {
    "physical capture metrics are behavioral proxies and must not be interpreted as angular accuracy"@
}

/// The limitations of an evaluation; without ground truth, the warning that
/// physical metrics are only behavioral proxies comes last.
pub fn common_limitations(ground_truth: bool) -> (r: Vec<String>)
    ensures
        strings_view(r@) == if ground_truth {
            common_limitation_texts()
        } else {
            common_limitation_texts().push(proxy_limitation_text())
        },
{
    let mut values: Vec<String> = Vec::new();
    values.push(
        string_of(
            "Android TYPE_GRAVITY may already include vendor filtering or fusion; baseline means no additional Anchor filter",
        ),
    );
    values.push(
        string_of(
            "MotionSampleV1 has no individual timestamps for linear acceleration, gravity and gyroscope",
        ),
    );
    values.push(
        string_of("no rigorous physical delay between gravity and gyro can be inferred from this payload"),
    );
    values.push(
        string_of("yaw is unavailable because B2 yawCalibrated is false and no magnetometer is used"),
    );
    values.push(string_of("complementary correction uses normalized vector mixing, not SLERP"));
    values.push(
        string_of("adaptive correction from linear acceleration is intentionally out of scope for B3a"),
    );
    assert(strings_view(values@) =~= common_limitation_texts());
    if !ground_truth {
        let ghost before = values@;
        values.push(
            string_of(
                "physical capture metrics are behavioral proxies and must not be interpreted as angular accuracy",
            ),
        );
        assert(strings_view(values@) =~= strings_view(before).push(proxy_limitation_text()));
    }
    values
}

} // verus!
