//! The decision rules of the offline tilt-estimator selection that do not
//! depend on metric values: input validation, candidate naming and ranking,
//! gates, and the Pareto dominance rule over per-objective comparisons.

use vstd::prelude::*;
use crate::calibration::{file_name_chars, path_file_name};
use crate::dataset::{scenario_name, RecordingScenario};
use crate::text::{decimal, push_char, push_decimal, push_str, str_eq, str_starts_with, string_of};

verus! {

pub const SELECTION_REPORT_VERSION: u8 = 1;
pub const POLICY_VERSION: u8 = 1;
pub const POLICY_SOURCE: &'static str = "b3b_offline_selection";

/// The estimator family a selection policy names.
#[derive(Debug, Clone, Copy, PartialEq, Eq, Structural)]
pub enum PolicyCandidate {
    GravityNoAdditionalAnchorFilter,
    LowPassGravity,
    ComplementaryGravityGyro,
}

#[derive(Debug, Clone, Copy, PartialEq, Eq, Structural)]
pub enum SelectionStatus {
    Selected,
    Inconclusive,
}

#[derive(Debug, Clone, Copy, PartialEq, Eq, Structural)]
pub enum SelectionMetricStatus {
    Available,
    Failed,
    Unavailable,
}

/// The outcome of one eligibility gate.
#[derive(Debug, Clone)]
pub struct GateResult {
    pub gate: String,
    pub passed: bool,
    pub detail: String,
}

pub fn gate(name: &str, passed: bool, detail: &str) -> (g: GateResult)
    ensures
        g.gate@ == name@,
        g.passed == passed,
        g.detail@ == detail@,
{
    GateResult { gate: string_of(name), passed, detail: string_of(detail) }
}

/// A physical capture given to the selection: its scenario label and file.
#[derive(Debug, Clone)]
pub struct PhysicalDatasetSelectionInput {
    pub scenario: RecordingScenario,
    pub path: String,
}

/// How a physical capture is named in the selection report.
#[derive(Debug, Clone)]
pub struct PhysicalDatasetInputReport {
    pub scenario: String,
    pub dataset: String,
}

/// Why no configuration was selected.
#[derive(Debug, Clone)]
pub struct InconclusiveExplanation {
    pub remaining_configurations: Vec<String>,
    pub equivalent_or_conflicting_dimensions: Vec<String>,
    pub minimum_additional_evidence: Vec<String>,
}

pub open spec fn strings_view(v: Seq<String>) -> Seq<Seq<char>> {
    v.map_values(|s: String| s@)
}

fn copy_strings(v: &Vec<String>) -> (r: Vec<String>)
    ensures
        strings_view(r@) == strings_view(v@),
{
    let mut out: Vec<String> = Vec::new();
    let mut i: usize = 0;
    while i < v.len()
        invariant
            i <= v@.len(),
            strings_view(out@) == strings_view(v@.take(i as int)),
        decreases v@.len() - i,
    {
        let ghost before = out@;
        out.push(v[i].clone());
        proof {
            assert(strings_view(out@) =~= strings_view(before).push(v@[i as int]@));
            assert(strings_view(v@.take(i + 1)) =~= strings_view(v@.take(i as int)).push(
                v@[i as int]@,
            ));
        }
        i = i + 1;
    }
    proof {
        assert(v@.take(v@.len() as int) =~= v@);
    }
    out
}

fn strings_of2(a: &str, b: &str) -> (r: Vec<String>)
    ensures
        strings_view(r@) == seq![a@, b@],
{
    let mut out: Vec<String> = Vec::new();
    out.push(string_of(a));
    out.push(string_of(b));
    assert(strings_view(out@) =~= seq![a@, b@]);
    out
}

pub open spec fn conflict_text() -> Seq<char> {
    "candidate evidence remained equivalent within declared tolerances or conflicted within the same priority group"@
}

pub open spec fn no_weighting_text() -> Seq<char> {
    "no weighted score or post-hoc threshold is invented to force a recommendation"@
}

pub open spec fn more_evidence_text() -> Seq<char> {
    "repeat or extend the evidence for the first conflicting priority dimension, especially gravity-contamination recovery when RMSE/max trade off against recovery failure"@
}

/// The explanation given when the Pareto front could not be narrowed to one configuration.
pub fn inconclusive_explanation(pareto_front: &Vec<String>) -> (r: InconclusiveExplanation)
    ensures
        strings_view(r.remaining_configurations@) == strings_view(pareto_front@),
        strings_view(r.equivalent_or_conflicting_dimensions@) == seq![
            conflict_text(),
            no_weighting_text(),
        ],
        strings_view(r.minimum_additional_evidence@) == seq![more_evidence_text()],
{
    let mut evidence: Vec<String> = Vec::new();
    evidence.push(
        string_of(
            "repeat or extend the evidence for the first conflicting priority dimension, especially gravity-contamination recovery when RMSE/max trade off against recovery failure",
        ),
    );
    assert(strings_view(evidence@) =~= seq![more_evidence_text()]);
    InconclusiveExplanation {
        remaining_configurations: copy_strings(pareto_front),
        equivalent_or_conflicting_dimensions: strings_of2(
            "candidate evidence remained equivalent within declared tolerances or conflicted within the same priority group",
            "no weighted score or post-hoc threshold is invented to force a recommendation",
        ),
        minimum_additional_evidence: evidence,
    }
}

/// The limitations stated in every selection report.
pub fn limitations() -> (r: Vec<String>)
    ensures
        strings_view(r@) == seq![
            "B3b does not apply the policy to the live receiver"@,
            "yaw remains unavailable"@,
            "no magnetometer, Kalman filter or adaptive linear-acceleration rejection"@,
            "physical captures assume materially preserved mounting from the B2 profile"@,
        ],
{
    let mut out: Vec<String> = Vec::new();
    out.push(string_of("B3b does not apply the policy to the live receiver"));
    out.push(string_of("yaw remains unavailable"));
    out.push(string_of("no magnetometer, Kalman filter or adaptive linear-acceleration rejection"));
    out.push(string_of("physical captures assume materially preserved mounting from the B2 profile"));
    assert(strings_view(out@) =~= seq![
        "B3b does not apply the policy to the live receiver"@,
        "yaw remains unavailable"@,
        "no magnetometer, Kalman filter or adaptive linear-acceleration rejection"@,
        "physical captures assume materially preserved mounting from the B2 profile"@,
    ]);
    out
}

// ---------------------------------------------------------------------------
// Scenarios of the physical captures
// ---------------------------------------------------------------------------

/// The position of a scenario in the required capture list (declaration order).
pub open spec fn scenario_index(s: RecordingScenario) -> nat {
    match s {
        RecordingScenario::Stationary => 0,
        RecordingScenario::RollRight => 1,
        RecordingScenario::RollLeft => 2,
        RecordingScenario::PitchFrontDown => 3,
        RecordingScenario::PitchFrontUp => 4,
        RecordingScenario::YawClockwise => 5,
        RecordingScenario::YawCounterclockwise => 6,
        RecordingScenario::LinearForward => 7,
        RecordingScenario::LinearBackward => 8,
    }
}

/// The nine scenarios every selection needs, in report order.
pub open spec fn required_scenarios() -> Seq<RecordingScenario> {
    seq![
        RecordingScenario::Stationary,
        RecordingScenario::RollRight,
        RecordingScenario::RollLeft,
        RecordingScenario::PitchFrontDown,
        RecordingScenario::PitchFrontUp,
        RecordingScenario::YawClockwise,
        RecordingScenario::YawCounterclockwise,
        RecordingScenario::LinearForward,
        RecordingScenario::LinearBackward,
    ]
}

fn required_scenario(i: usize) -> (s: RecordingScenario)
    requires
        i < 9,
    ensures
        s == required_scenarios()[i as int],
{
    match i {
        0 => RecordingScenario::Stationary,
        1 => RecordingScenario::RollRight,
        2 => RecordingScenario::RollLeft,
        3 => RecordingScenario::PitchFrontDown,
        4 => RecordingScenario::PitchFrontUp,
        5 => RecordingScenario::YawClockwise,
        6 => RecordingScenario::YawCounterclockwise,
        7 => RecordingScenario::LinearForward,
        _ => RecordingScenario::LinearBackward,
    }
}

/// The position of a scenario in the required capture list.
pub fn scenario_order(scenario: RecordingScenario) -> (r: usize)
    ensures
        r == scenario_index(scenario),
        required_scenarios()[r as int] == scenario,
{
    match scenario {
        RecordingScenario::Stationary => 0,
        RecordingScenario::RollRight => 1,
        RecordingScenario::RollLeft => 2,
        RecordingScenario::PitchFrontDown => 3,
        RecordingScenario::PitchFrontUp => 4,
        RecordingScenario::YawClockwise => 5,
        RecordingScenario::YawCounterclockwise => 6,
        RecordingScenario::LinearForward => 7,
        RecordingScenario::LinearBackward => 8,
    }
}

/// The first scenario, in input order, that was already given earlier.
pub open spec fn first_duplicate(ss: Seq<RecordingScenario>, n: int) -> Option<RecordingScenario>
    decreases n,
{
    if n <= 0 {
        None
    } else {
        match first_duplicate(ss, n - 1) {
            Some(x) => Some(x),
            None => if ss.take(n - 1).contains(ss[n - 1]) {
                Some(ss[n - 1])
            } else {
                None
            },
        }
    }
}

/// Scenario names separated by ", ".
pub open spec fn joined_names(ss: Seq<RecordingScenario>) -> Seq<char>
    decreases ss.len(),
{
    if ss.len() == 0 {
        Seq::empty()
    } else if ss.len() == 1 {
        scenario_name(ss[0])
    } else {
        joined_names(ss.drop_last()) + ", "@ + scenario_name(ss.last())
    }
}

/// The required scenarios that `ss` does not name, in report order.
pub open spec fn missing_scenarios(ss: Seq<RecordingScenario>) -> Seq<RecordingScenario> {
    required_scenarios().filter(|s: RecordingScenario| !ss.contains(s))
}

/// The check of the physical capture list: no scenario twice, and every
/// required scenario present.
pub open spec fn dataset_inputs_check(ss: Seq<RecordingScenario>) -> Result<(), Seq<char>> {
    match first_duplicate(ss, ss.len() as int) {
        Some(d) => Err("duplicate physical scenario: "@ + scenario_name(d)),
        None => if missing_scenarios(ss).len() > 0 {
            Err("missing physical scenarios: "@ + joined_names(missing_scenarios(ss)))
        } else {
            Ok(())
        },
    }
}

pub open spec fn input_scenarios(inputs: Seq<PhysicalDatasetSelectionInput>) -> Seq<RecordingScenario> {
    inputs.map_values(|i: PhysicalDatasetSelectionInput| i.scenario)
}

/// Checks the physical capture list of a selection.
pub fn validate_dataset_inputs(inputs: &Vec<PhysicalDatasetSelectionInput>) -> (r: Result<(), String>)
    ensures
        match dataset_inputs_check(input_scenarios(inputs@)) {
            Ok(_) => r is Ok,
            Err(m) => r matches Err(x) && x@ == m,
        },
{
    let ghost ss = input_scenarios(inputs@);
    let mut seen: Vec<bool> = vec![false, false, false, false, false, false, false, false, false];
    let mut j: usize = 0;
    while j < inputs.len()
        invariant
            j <= inputs@.len(),
            ss == input_scenarios(inputs@),
            seen@.len() == 9,
            first_duplicate(ss, j as int) is None,
            forall|k: int| 0 <= k < 9 ==> #[trigger] seen@[k] == ss.take(j as int).contains(required_scenarios()[k]),
        decreases inputs@.len() - j,
    {
        let s = inputs[j].scenario;
        let k = scenario_order(s);
        proof {
            assert(ss[j as int] == s);
            assert(ss.take(j + 1) =~= ss.take(j as int).push(s));
            assert(ss.take(j + 1).take(j as int) =~= ss.take(j as int));
        }
        if seen[k] {
            let mut m = string_of("duplicate physical scenario: ");
            push_str(&mut m, s.as_str());
            proof {
                assert(first_duplicate(ss, j + 1) == Some(s));
                lemma_first_duplicate_stays(ss, j + 1, ss.len() as int);
            }
            return Err(m);
        }
        seen.set(k, true);
        proof {
            assert forall|q: int| 0 <= q < 9 implies #[trigger] seen@[q] == ss.take(j + 1).contains(
                required_scenarios()[q],
            ) by {
                if q != k {
                    assert(required_scenarios()[q] != s);
                    if ss.take(j + 1).contains(required_scenarios()[q]) {
                        let w = choose|w: int| 0 <= w < j + 1 && #[trigger] ss.take(j + 1)[w] == required_scenarios()[q];
                        assert(w < j);
                        assert(ss.take(j as int)[w] == required_scenarios()[q]);
                    }
                } else {
                    assert(ss.take(j + 1)[j as int] == s);
                }
            }
        }
        j = j + 1;
    }
    proof {
        assert(ss.take(ss.len() as int) =~= ss);
    }
    let mut missing: Vec<RecordingScenario> = Vec::new();
    let mut k: usize = 0;
    while k < 9
        invariant
            k <= 9,
            seen@.len() == 9,
            forall|q: int| 0 <= q < 9 ==> #[trigger] seen@[q] == ss.contains(required_scenarios()[q]),
            missing@ == required_scenarios().take(k as int).filter(
                |s: RecordingScenario| !ss.contains(s),
            ),
        decreases 9 - k,
    {
        let ghost before = missing@;
        proof {
            assert(required_scenarios().take(k + 1) =~= required_scenarios().take(k as int).push(
                required_scenarios()[k as int],
            ));
            Seq::filter_distributes_over_add(
                required_scenarios().take(k as int),
                seq![required_scenarios()[k as int]],
                |s: RecordingScenario| !ss.contains(s),
            );
            reveal_with_fuel(Seq::filter, 2);
            assert(seq![required_scenarios()[k as int]].drop_last() =~= Seq::<RecordingScenario>::empty());
        }
        if !seen[k] {
            missing.push(required_scenario(k));
        }
        proof {
            assert(required_scenarios().take(k as int).push(required_scenarios()[k as int])
                =~= required_scenarios().take(k as int) + seq![required_scenarios()[k as int]]);
            assert(seq![required_scenarios()[k as int]].filter(|s: RecordingScenario| !ss.contains(s))
                =~= if !ss.contains(required_scenarios()[k as int]) {
                seq![required_scenarios()[k as int]]
            } else {
                Seq::empty()
            });
            assert(missing@ =~= required_scenarios().take(k + 1).filter(
                |s: RecordingScenario| !ss.contains(s),
            ));
        }
        k = k + 1;
    }
    proof {
        assert(required_scenarios().take(9) =~= required_scenarios());
    }
    if missing.len() > 0 {
        let mut m = string_of("missing physical scenarios: ");
        let mut i: usize = 0;
        while i < missing.len()
            invariant
                i <= missing@.len(),
                m@ == "missing physical scenarios: "@ + joined_names(missing@.take(i as int)),
            decreases missing@.len() - i,
        {
            proof {
                assert(missing@.take(i + 1).drop_last() =~= missing@.take(i as int));
                assert(missing@.take(i + 1).last() == missing@[i as int]);
                if i == 0 {
                    assert(missing@.take(0) =~= Seq::<RecordingScenario>::empty());
                }
            }
            if i > 0 {
                push_str(&mut m, ", ");
            }
            push_str(&mut m, missing[i].as_str());
            proof {
                if i == 0 {
                    assert(m@ =~= "missing physical scenarios: "@ + joined_names(missing@.take(1)));
                } else {
                    assert(m@ =~= "missing physical scenarios: "@ + joined_names(
                        missing@.take(i + 1),
                    ));
                }
            }
            i = i + 1;
        }
        proof {
            assert(missing@.take(missing@.len() as int) =~= missing@);
        }
        return Err(m);
    }
    Ok(())
}

proof fn lemma_first_duplicate_stays(ss: Seq<RecordingScenario>, n: int, m: int)
    requires
        0 <= n <= m,
        first_duplicate(ss, n) is Some,
    ensures
        first_duplicate(ss, m) == first_duplicate(ss, n),
    decreases m - n,
{
    if m > n {
        lemma_first_duplicate_stays(ss, n, m - 1);
    }
}

// ---------------------------------------------------------------------------
// Candidates
// ---------------------------------------------------------------------------

pub open spec fn gravity_id() -> Seq<char> {
    "gravity_no_additional_anchor_filter"@
}

pub open spec fn low_pass_prefix() -> Seq<char> {
    "low_pass_tau_ms_"@
}

pub open spec fn complementary_prefix() -> Seq<char> {
    "complementary_tau_ms_"@
}

pub open spec fn has_prefix(s: Seq<char>, p: Seq<char>) -> bool {
    p.len() <= s.len() && s.subrange(0, p.len() as int) == p
}

/// The estimator family a configuration id belongs to.
pub open spec fn candidate_family(id: Seq<char>) -> Option<PolicyCandidate> {
    if id == gravity_id() {
        Some(PolicyCandidate::GravityNoAdditionalAnchorFilter)
    } else if has_prefix(id, low_pass_prefix()) {
        Some(PolicyCandidate::LowPassGravity)
    } else if has_prefix(id, complementary_prefix()) {
        Some(PolicyCandidate::ComplementaryGravityGyro)
    } else {
        None
    }
}

/// The estimator family of a configuration id, if it names one.
pub fn policy_candidate_of(id: &str) -> (r: Option<PolicyCandidate>)
    ensures
        r == candidate_family(id@),
{
    if str_eq(id, "gravity_no_additional_anchor_filter") {
        Some(PolicyCandidate::GravityNoAdditionalAnchorFilter)
    } else if str_starts_with(id, "low_pass_tau_ms_") {
        Some(PolicyCandidate::LowPassGravity)
    } else if str_starts_with(id, "complementary_tau_ms_") {
        Some(PolicyCandidate::ComplementaryGravityGyro)
    } else {
        None
    }
}

/// How simple a configuration is: the plain gravity estimate first, then
/// low-pass, then complementary, then anything else.
pub open spec fn simplicity(id: Seq<char>) -> nat {
    match candidate_family(id) {
        Some(PolicyCandidate::GravityNoAdditionalAnchorFilter) => 0,
        Some(PolicyCandidate::LowPassGravity) => 1,
        Some(PolicyCandidate::ComplementaryGravityGyro) => 2,
        None => 3,
    }
}

pub fn simplicity_rank(id: &str) -> (r: usize)
    ensures
        r == simplicity(id@),
{
    match policy_candidate_of(id) {
        Some(PolicyCandidate::GravityNoAdditionalAnchorFilter) => 0,
        Some(PolicyCandidate::LowPassGravity) => 1,
        Some(PolicyCandidate::ComplementaryGravityGyro) => 2,
        None => 3,
    }
}

/// The family label shown for a configuration id.
pub open spec fn candidate_label(id: Seq<char>) -> Seq<char> {
    match candidate_family(id) {
        Some(PolicyCandidate::GravityNoAdditionalAnchorFilter) => gravity_id(),
        Some(PolicyCandidate::LowPassGravity) => "low_pass_gravity"@,
        Some(PolicyCandidate::ComplementaryGravityGyro) => "complementary_gravity_gyro"@,
        None => "unknown"@,
    }
}

pub fn policy_candidate_label(id: &str) -> (r: &'static str)
    ensures
        r@ == candidate_label(id@),
{
    match policy_candidate_of(id) {
        Some(PolicyCandidate::GravityNoAdditionalAnchorFilter) => "gravity_no_additional_anchor_filter",
        Some(PolicyCandidate::LowPassGravity) => "low_pass_gravity",
        Some(PolicyCandidate::ComplementaryGravityGyro) => "complementary_gravity_gyro",
        None => "unknown",
    }
}

/// Keeps only the simplest candidates (the last tie-breaker of the selection).
pub fn apply_simplicity_priority(candidates: &mut Vec<String>)
    ensures
        final(candidates)@.len() <= old(candidates)@.len(),
        old(candidates)@.len() <= 1 ==> final(candidates)@ == old(candidates)@,
        old(candidates)@.len() > 1 ==> ({
            let best = simplicity(final(candidates)@[0]@);
            &&& final(candidates)@.len() > 0
            &&& forall|i: int| 0 <= i < old(candidates)@.len() ==> best <= #[trigger] simplicity(old(candidates)@[i]@)
            &&& strings_view(final(candidates)@) == strings_view(old(candidates)@).filter(
                |id: Seq<char>| simplicity(id) == best,
            )
        }),
{
    if candidates.len() <= 1 {
        return;
    }
    let ghost orig = candidates@;
    let mut best: usize = 3;
    let mut i: usize = 0;
    let mut best_at: usize = 0;
    while i < candidates.len()
        invariant
            candidates@ == orig,
            orig.len() > 1,
            i <= orig.len(),
            best <= 3,
            best_at < orig.len(),
            i > 0 ==> best == simplicity(orig[best_at as int]@),
            i == 0 ==> best == 3,
            forall|k: int| 0 <= k < i ==> best <= #[trigger] simplicity(orig[k]@),
        decreases orig.len() - i,
    {
        let r = simplicity_rank(candidates[i].as_str());
        if i == 0 || r < best {
            best = r;
            best_at = i;
        }
        i = i + 1;
    }
    let mut kept: Vec<String> = Vec::new();
    let mut j: usize = 0;
    while j < candidates.len()
        invariant
            candidates@ == orig,
            j <= orig.len(),
            strings_view(kept@) == strings_view(orig.take(j as int)).filter(
                |id: Seq<char>| simplicity(id) == best as nat,
            ),
        decreases orig.len() - j,
    {
        let ghost before = kept@;
        proof {
            assert(strings_view(orig.take(j + 1)) =~= strings_view(orig.take(j as int)) + seq![
                orig[j as int]@,
            ]);
            Seq::filter_distributes_over_add(
                strings_view(orig.take(j as int)),
                seq![orig[j as int]@],
                |id: Seq<char>| simplicity(id) == best as nat,
            );
            reveal_with_fuel(Seq::filter, 2);
            assert(seq![orig[j as int]@].drop_last() =~= Seq::<Seq<char>>::empty());
        }
        if simplicity_rank(candidates[j].as_str()) == best {
            kept.push(candidates[j].clone());
            proof {
                assert(strings_view(kept@) =~= strings_view(before).push(orig[j as int]@));
            }
        }
        j = j + 1;
    }
    proof {
        assert(orig.take(orig.len() as int) =~= orig);
        let f = strings_view(orig).filter(|id: Seq<char>| simplicity(id) == best as nat);
        strings_view(orig).filter_lemma(|id: Seq<char>| simplicity(id) == best as nat);
        assert(strings_view(orig)[best_at as int] == orig[best_at as int]@);
        assert(f.contains(orig[best_at as int]@));
        assert(kept@.len() > 0);
        assert(strings_view(kept@)[0] == kept@[0]@);
        assert(f[0] == kept@[0]@);
    }
    *candidates = kept;
}

// ---------------------------------------------------------------------------
// Report helpers
// ---------------------------------------------------------------------------

/// Characters kept in a report's file names: ASCII letters and digits, '.', '_' and '-'.
pub open spec fn basename_char_kept(c: char) -> bool {
    let v = c as u32;
    (48 <= v && v <= 57) || (65 <= v && v <= 90) || (97 <= v && v <= 122) || c == '.' || c == '_'
        || c == '-'
}

/// The file name of a path as shown in a report: other characters become
/// '-', and a path without a file name shows as "input".
pub open spec fn safe_basename_of(path: Seq<char>) -> Seq<char> {
    let name = match path_file_name(path) {
        Some(n) => n,
        None => "input"@,
    };
    name.map_values(|c: char| if basename_char_kept(c) { c } else { '-' })
}

pub fn safe_basename(path: &str) -> (r: String)
    ensures
        r@ == safe_basename_of(path@),
{
    let name: Vec<char> = match file_name_chars(path) {
        Some(n) => n,
        None => {
            let mut v: Vec<char> = Vec::new();
            v.push('i');
            v.push('n');
            v.push('p');
            v.push('u');
            v.push('t');
            proof {
                reveal_strlit("input");
                assert(v@ =~= "input"@);
            }
            v
        },
    };
    let ghost mapped = name@.map_values(|c: char| if basename_char_kept(c) { c } else { '-' });
    let mut out = String::new();
    let mut i: usize = 0;
    while i < name.len()
        invariant
            i <= name@.len(),
            mapped == name@.map_values(|c: char| if basename_char_kept(c) { c } else { '-' }),
            out@ == mapped.take(i as int),
        decreases name@.len() - i,
    {
        let c = name[i];
        let v = c as u32;
        let kept = (48 <= v && v <= 57) || (65 <= v && v <= 90) || (97 <= v && v <= 122) || c == '.'
            || c == '_' || c == '-';
        if kept {
            push_char(&mut out, c);
        } else {
            push_char(&mut out, '-');
        }
        proof {
            assert(mapped.take(i + 1) =~= mapped.take(i as int).push(mapped[i as int]));
        }
        i = i + 1;
    }
    proof {
        assert(mapped.take(mapped.len() as int) =~= mapped);
    }
    out
}

/// Whether a candidate's report holds a result for the named fixture.
pub fn has_fixture(fixture_names: &Vec<String>, name: &str) -> (r: bool)
    ensures
        r == exists|i: int| 0 <= i < fixture_names@.len() && fixture_names@[i]@ == name@,
{
    let mut i: usize = 0;
    while i < fixture_names.len()
        invariant
            i <= fixture_names@.len(),
            forall|k: int| 0 <= k < i ==> fixture_names@[k]@ != name@,
        decreases fixture_names@.len() - i,
    {
        if str_eq(fixture_names[i].as_str(), name) {
            return true;
        }
        i = i + 1;
    }
    false
}

/// The kind of event a synthetic fixture declares.
#[derive(Debug, Clone, Copy, PartialEq, Eq, Structural)]
pub enum FixtureEventKind {
    Step,
    Sine,
    GravityContamination,
}

/// The kind of event a worst-case metric is taken over.
#[derive(Debug, Clone, Copy, PartialEq, Eq, Structural)]
pub enum EventMetricKind {
    Step,
    Sine,
    GravityContamination,
}

/// Whether a fixture with the given event contributes to a metric of the given kind.
pub fn fixture_matches_event(event: Option<FixtureEventKind>, kind: EventMetricKind) -> (r: bool)
    ensures
        r == match event {
            Some(FixtureEventKind::Step) => kind == EventMetricKind::Step,
            Some(FixtureEventKind::Sine) => kind == EventMetricKind::Sine,
            Some(FixtureEventKind::GravityContamination) => kind
                == EventMetricKind::GravityContamination,
            None => false,
        },
{
    match (event, kind) {
        (Some(FixtureEventKind::Step), EventMetricKind::Step) => true,
        (Some(FixtureEventKind::Sine), EventMetricKind::Sine) => true,
        (Some(FixtureEventKind::GravityContamination), EventMetricKind::GravityContamination) => true,
        _ => false,
    }
}

// ---------------------------------------------------------------------------
// Objectives and Pareto dominance
// ---------------------------------------------------------------------------

/// How one configuration compares with another on one objective.
#[derive(Debug, Clone, Copy, PartialEq, Eq, Structural)]
pub enum ObjectiveOrdering {
    Better,
    Equivalent,
    Worse,
    Incomparable,
}

/// What an objective of a configuration holds: an available value, a
/// failed metric, an unavailable metric, or an inconsistent record.
#[derive(Debug, Clone, Copy, PartialEq, Eq, Structural)]
pub enum ObjectivePresence {
    Value,
    Failed,
    Unavailable,
    Inconsistent,
}

/// The presence of a metric given its status and whether it carries a value.
pub open spec fn presence_of(status: SelectionMetricStatus, has_value: bool) -> ObjectivePresence {
    match status {
        SelectionMetricStatus::Available => if has_value {
            ObjectivePresence::Value
        } else {
            ObjectivePresence::Inconsistent
        },
        SelectionMetricStatus::Failed => if has_value {
            ObjectivePresence::Inconsistent
        } else {
            ObjectivePresence::Failed
        },
        SelectionMetricStatus::Unavailable => if has_value {
            ObjectivePresence::Inconsistent
        } else {
            ObjectivePresence::Unavailable
        },
    }
}

pub fn objective_presence(status: SelectionMetricStatus, has_value: bool) -> (r: ObjectivePresence)
    ensures
        r == presence_of(status, has_value),
{
    match status {
        SelectionMetricStatus::Available => if has_value {
            ObjectivePresence::Value
        } else {
            ObjectivePresence::Inconsistent
        },
        SelectionMetricStatus::Failed => if has_value {
            ObjectivePresence::Inconsistent
        } else {
            ObjectivePresence::Failed
        },
        SelectionMetricStatus::Unavailable => if has_value {
            ObjectivePresence::Inconsistent
        } else {
            ObjectivePresence::Unavailable
        },
    }
}

/// The comparison of two objectives: by value (compared within the
/// objective's tolerance, `value_order`) when both are available; an
/// available value beats a failed metric; two failed or two unavailable
/// metrics are equivalent; anything else cannot be compared.
pub open spec fn objective_order(
    a: ObjectivePresence,
    b: ObjectivePresence,
    value_order: ObjectiveOrdering,
) -> ObjectiveOrdering {
    match (a, b) {
        (ObjectivePresence::Value, ObjectivePresence::Value) => value_order,
        (ObjectivePresence::Value, ObjectivePresence::Failed) => ObjectiveOrdering::Better,
        (ObjectivePresence::Failed, ObjectivePresence::Value) => ObjectiveOrdering::Worse,
        (ObjectivePresence::Failed, ObjectivePresence::Failed) => ObjectiveOrdering::Equivalent,
        (ObjectivePresence::Unavailable, ObjectivePresence::Unavailable) => ObjectiveOrdering::Equivalent,
        _ => ObjectiveOrdering::Incomparable,
    }
}

pub fn compare_objective(a: ObjectivePresence, b: ObjectivePresence, value_order: ObjectiveOrdering) -> (r:
    ObjectiveOrdering)
    ensures
        r == objective_order(a, b, value_order),
{
    match (a, b) {
        (ObjectivePresence::Value, ObjectivePresence::Value) => value_order,
        (ObjectivePresence::Value, ObjectivePresence::Failed) => ObjectiveOrdering::Better,
        (ObjectivePresence::Failed, ObjectivePresence::Value) => ObjectiveOrdering::Worse,
        (ObjectivePresence::Failed, ObjectivePresence::Failed) => ObjectiveOrdering::Equivalent,
        (ObjectivePresence::Unavailable, ObjectivePresence::Unavailable) => ObjectiveOrdering::Equivalent,
        _ => ObjectiveOrdering::Incomparable,
    }
}

/// The same comparison seen from the other side.
pub open spec fn reversed(o: ObjectiveOrdering) -> ObjectiveOrdering {
    match o {
        ObjectiveOrdering::Better => ObjectiveOrdering::Worse,
        ObjectiveOrdering::Worse => ObjectiveOrdering::Better,
        other => other,
    }
}

pub open spec fn better_names(names: Seq<Seq<char>>, orders: Seq<ObjectiveOrdering>, k: int) -> Seq<Seq<char>>
    decreases k,
{
    if k <= 0 {
        Seq::empty()
    } else if orders[k - 1] == ObjectiveOrdering::Better {
        better_names(names, orders, k - 1).push(names[k - 1])
    } else {
        better_names(names, orders, k - 1)
    }
}

/// The Pareto rule over objective comparisons: `a` dominates `b` when, on
/// every objective, `a` is better or equivalent and on at least one it is
/// better; the evidence is the names of the objectives where it is better.
pub open spec fn dominance_of(names: Seq<Seq<char>>, orders: Seq<ObjectiveOrdering>) -> Option<Seq<Seq<char>>> {
    if exists|i: int|
        0 <= i < orders.len() && (#[trigger] orders[i] == ObjectiveOrdering::Worse || orders[i]
            == ObjectiveOrdering::Incomparable) {
        None
    } else if better_names(names, orders, orders.len() as int).len() == 0 {
        None
    } else {
        Some(better_names(names, orders, orders.len() as int))
    }
}

/// The names of the objectives on which one configuration dominates
/// another, or `None` when it does not dominate it.
pub fn dominance_evidence(names: &Vec<String>, orders: &Vec<ObjectiveOrdering>) -> (r: Option<Vec<String>>)
    requires
        names@.len() == orders@.len(),
    ensures
        match dominance_of(strings_view(names@), orders@) {
            Some(ev) => r matches Some(v) && strings_view(v@) == ev,
            None => r is None,
        },
{
    let ghost ns = strings_view(names@);
    let mut better: Vec<String> = Vec::new();
    let mut i: usize = 0;
    while i < orders.len()
        invariant
            names@.len() == orders@.len(),
            ns == strings_view(names@),
            i <= orders@.len(),
            forall|k: int| 0 <= k < i ==> !(#[trigger] orders@[k] == ObjectiveOrdering::Worse || orders@[k]
                == ObjectiveOrdering::Incomparable),
            strings_view(better@) == better_names(ns, orders@, i as int),
        decreases orders@.len() - i,
    {
        match orders[i] {
            ObjectiveOrdering::Better => {
                let ghost before = better@;
                better.push(names[i].clone());
                proof {
                    assert(strings_view(better@) =~= strings_view(before).push(ns[i as int]));
                }
            },
            ObjectiveOrdering::Equivalent => {},
            ObjectiveOrdering::Worse => {
                return None;
            },
            ObjectiveOrdering::Incomparable => {
                return None;
            },
        }
        i = i + 1;
    }
    if better.len() == 0 {
        None
    } else {
        Some(better)
    }
}

/// Whether one configuration dominates another, given the comparisons of
/// its objectives against the other's.
pub fn dominates(names: &Vec<String>, orders: &Vec<ObjectiveOrdering>) -> (r: bool)
    requires
        names@.len() == orders@.len(),
    ensures
        r == dominance_of(strings_view(names@), orders@) is Some,
{
    dominance_evidence(names, orders).is_some()
}

proof fn lemma_better_names_witness(names: Seq<Seq<char>>, orders: Seq<ObjectiveOrdering>, k: int)
    requires
        0 <= k <= orders.len(),
        better_names(names, orders, k).len() > 0,
    ensures
        exists|i: int| 0 <= i < k && orders[i] == ObjectiveOrdering::Better,
    decreases k,
{
    if orders[k - 1] != ObjectiveOrdering::Better {
        lemma_better_names_witness(names, orders, k - 1);
    }
}

/// Comparing two objectives the other way round reverses the outcome, as
/// long as the value comparison does.
pub proof fn lemma_objective_order_antisymmetric(
    a: ObjectivePresence,
    b: ObjectivePresence,
    value_order: ObjectiveOrdering,
)
    ensures
        objective_order(b, a, reversed(value_order)) == reversed(objective_order(a, b, value_order)),
{
}

/// A configuration dominates another only if it is better on some
/// objective and worse or incomparable on none; in particular a
/// configuration whose objectives all compare as equivalent (such as one
/// compared with itself) dominates nothing.
pub proof fn lemma_dominance_needs_strict_gain(names: Seq<Seq<char>>, orders: Seq<ObjectiveOrdering>)
    requires
        dominance_of(names, orders) is Some,
    ensures
        exists|i: int| 0 <= i < orders.len() && orders[i] == ObjectiveOrdering::Better,
        forall|i: int|
            0 <= i < orders.len() ==> #[trigger] orders[i] == ObjectiveOrdering::Better || orders[i]
                == ObjectiveOrdering::Equivalent,
{
    lemma_better_names_witness(names, orders, orders.len() as int);
    assert forall|i: int| 0 <= i < orders.len() implies #[trigger] orders[i] == ObjectiveOrdering::Better
        || orders[i] == ObjectiveOrdering::Equivalent by {
        if orders[i] == ObjectiveOrdering::Worse || orders[i] == ObjectiveOrdering::Incomparable {
            assert(!(dominance_of(names, orders) is Some));
        }
    }
}

/// Dominance is asymmetric: when every objective comparison of `b` against
/// `a` is the reverse of that of `a` against `b`, `a` and `b` cannot both
/// dominate each other.
pub proof fn lemma_dominance_asymmetric(
    names: Seq<Seq<char>>,
    a_vs_b: Seq<ObjectiveOrdering>,
    b_vs_a: Seq<ObjectiveOrdering>,
)
    requires
        a_vs_b.len() == b_vs_a.len(),
        forall|i: int| 0 <= i < a_vs_b.len() ==> #[trigger] b_vs_a[i] == reversed(a_vs_b[i]),
    ensures
        !(dominance_of(names, a_vs_b) is Some && dominance_of(names, b_vs_a) is Some),
{
    if dominance_of(names, a_vs_b) is Some && dominance_of(names, b_vs_a) is Some {
        lemma_dominance_needs_strict_gain(names, a_vs_b);
        lemma_dominance_needs_strict_gain(names, b_vs_a);
        let i = choose|i: int| 0 <= i < a_vs_b.len() && a_vs_b[i] == ObjectiveOrdering::Better;
        assert(b_vs_a[i] == ObjectiveOrdering::Worse);
    }
}

// ---------------------------------------------------------------------------
// The Pareto front
// ---------------------------------------------------------------------------

/// Names joined with ", ".
pub open spec fn joined(parts: Seq<Seq<char>>) -> Seq<char>
    decreases parts.len(),
{
    if parts.len() == 0 {
        Seq::empty()
    } else if parts.len() == 1 {
        parts[0]
    } else {
        joined(parts.drop_last()) + ", "@ + parts.last()
    }
}

/// `other` counts against `item`: it is eligible, named differently, and dominates it.
pub open spec fn dominates_item(
    ids: Seq<Seq<char>>,
    eligible: Seq<bool>,
    names: Seq<Seq<char>>,
    orders: Seq<Seq<Seq<ObjectiveOrdering>>>,
    other: int,
    item: int,
) -> bool {
    eligible[other] && ids[other] != ids[item] && dominance_of(names, orders[other][item]) is Some
}

/// The ids of the configurations among the first `k` that dominate `item`,
/// with the evidence line of each, in configuration order.
pub open spec fn dominators(
    ids: Seq<Seq<char>>,
    eligible: Seq<bool>,
    names: Seq<Seq<char>>,
    orders: Seq<Seq<Seq<ObjectiveOrdering>>>,
    item: int,
    k: int,
) -> (Seq<Seq<char>>, Seq<Seq<char>>)
    decreases k,
{
    if k <= 0 {
        (Seq::empty(), Seq::empty())
    } else {
        let prev = dominators(ids, eligible, names, orders, item, k - 1);
        if dominates_item(ids, eligible, names, orders, k - 1, item) {
            (
                prev.0.push(ids[k - 1]),
                prev.1.push(
                    ids[k - 1] + " dominates on "@ + joined(
                        dominance_of(names, orders[k - 1][item])->Some_0,
                    ),
                ),
            )
        } else {
            prev
        }
    }
}

/// The dominance marks of configuration `item`: empty for an ineligible one.
pub open spec fn dominance_marks(
    ids: Seq<Seq<char>>,
    eligible: Seq<bool>,
    names: Seq<Seq<char>>,
    orders: Seq<Seq<Seq<ObjectiveOrdering>>>,
    item: int,
) -> (Seq<Seq<char>>, Seq<Seq<char>>) {
    if eligible[item] {
        dominators(ids, eligible, names, orders, item, ids.len() as int)
    } else {
        (Seq::empty(), Seq::empty())
    }
}

pub open spec fn orders_view(orders: Seq<Vec<Vec<ObjectiveOrdering>>>) -> Seq<Seq<Seq<ObjectiveOrdering>>> {
    orders.map_values(|row: Vec<Vec<ObjectiveOrdering>>| row@.map_values(|o: Vec<ObjectiveOrdering>| o@))
}

/// The shape of a comparison table: one row per configuration, one
/// comparison list per pair, one comparison per objective.
pub open spec fn table_well_formed(n: nat, objectives: nat, orders: Seq<Seq<Seq<ObjectiveOrdering>>>) -> bool {
    &&& orders.len() == n
    &&& forall|a: int| 0 <= a < n ==> (#[trigger] orders[a]).len() == n
    &&& forall|a: int, b: int| 0 <= a < n && 0 <= b < n ==> (#[trigger] orders[a][b]).len() == objectives
}

fn join_names(parts: &Vec<String>) -> (r: String)
    ensures
        r@ == joined(strings_view(parts@)),
{
    let mut out = String::new();
    let mut i: usize = 0;
    while i < parts.len()
        invariant
            i <= parts@.len(),
            out@ == joined(strings_view(parts@).take(i as int)),
        decreases parts@.len() - i,
    {
        proof {
            let sv = strings_view(parts@);
            assert(sv.take(i + 1).drop_last() =~= sv.take(i as int));
            assert(sv.take(i + 1).last() == parts@[i as int]@);
            if i == 0 {
                assert(sv.take(0) =~= Seq::<Seq<char>>::empty());
                assert(sv.take(1).len() == 1);
            }
        }
        if i > 0 {
            push_str(&mut out, ", ");
        }
        push_str(&mut out, parts[i].as_str());
        proof {
            let sv = strings_view(parts@);
            if i == 0 {
                assert(out@ =~= joined(sv.take(1)));
            }
        }
        i = i + 1;
    }
    proof {
        assert(strings_view(parts@).take(parts@.len() as int) =~= strings_view(parts@));
    }
    out
}

/// For every configuration, the eligible configurations that dominate it
/// and one evidence line for each ("<id> dominates on <objectives>");
/// ineligible configurations get no marks. `orders[a][b]` holds the
/// objective comparisons of configuration `a` against configuration `b`.
pub fn mark_dominated(
    ids: &Vec<String>,
    eligible: &Vec<bool>,
    objective_names: &Vec<String>,
    orders: &Vec<Vec<Vec<ObjectiveOrdering>>>,
) -> (r: Vec<(Vec<String>, Vec<String>)>)
    requires
        eligible@.len() == ids@.len(),
        table_well_formed(ids@.len(), objective_names@.len(), orders_view(orders@)),
    ensures
        r@.len() == ids@.len(),
        forall|item: int|
            0 <= item < ids@.len() ==> (strings_view((#[trigger] r@[item]).0@), strings_view(r@[item].1@))
                == dominance_marks(
                strings_view(ids@),
                eligible@,
                strings_view(objective_names@),
                orders_view(orders@),
                item,
            ),
{
    let ghost iv = strings_view(ids@);
    let ghost nv = strings_view(objective_names@);
    let ghost ov = orders_view(orders@);
    let n = ids.len();
    let mut out: Vec<(Vec<String>, Vec<String>)> = Vec::new();
    let mut item: usize = 0;
    while item < n
        invariant
            n == ids@.len(),
            iv == strings_view(ids@),
            nv == strings_view(objective_names@),
            ov == orders_view(orders@),
            eligible@.len() == n,
            table_well_formed(n as nat, objective_names@.len(), ov),
            item <= n,
            out@.len() == item,
            forall|j: int|
                0 <= j < item ==> (strings_view((#[trigger] out@[j]).0@), strings_view(out@[j].1@))
                    == dominance_marks(iv, eligible@, nv, ov, j),
        decreases n - item,
    {
        let mut dominated_by: Vec<String> = Vec::new();
        let mut evidence: Vec<String> = Vec::new();
        if eligible[item] {
            let mut other: usize = 0;
            while other < n
                invariant
                    n == ids@.len(),
                    iv == strings_view(ids@),
                    nv == strings_view(objective_names@),
                    ov == orders_view(orders@),
                    eligible@.len() == n,
                    table_well_formed(n as nat, objective_names@.len(), ov),
                    item < n,
                    other <= n,
                    (strings_view(dominated_by@), strings_view(evidence@)) == dominators(
                        iv,
                        eligible@,
                        nv,
                        ov,
                        item as int,
                        other as int,
                    ),
                decreases n - other,
            {
                proof {
                    assert(ov[other as int] == orders@[other as int]@.map_values(
                        |o: Vec<ObjectiveOrdering>| o@,
                    ));
                    assert(ov[other as int][item as int] == orders@[other as int]@[item as int]@);
                    assert(iv[other as int] == ids@[other as int]@);
                    assert(iv[item as int] == ids@[item as int]@);
                }
                if eligible[other] && !str_eq(ids[other].as_str(), ids[item].as_str()) {
                    match dominance_evidence(objective_names, &orders[other][item]) {
                        Some(dims) => {
                            let ghost before_d = dominated_by@;
                            let ghost before_e = evidence@;
                            dominated_by.push(ids[other].clone());
                            let mut line = ids[other].clone();
                            push_str(&mut line, " dominates on ");
                            let j = join_names(&dims);
                            push_str(&mut line, j.as_str());
                            evidence.push(line);
                            proof {
                                assert(strings_view(dominated_by@) =~= strings_view(before_d).push(
                                    ids@[other as int]@,
                                ));
                                assert(strings_view(evidence@) =~= strings_view(before_e).push(
                                    line@,
                                ));
                            }
                        },
                        None => {},
                    }
                }
                other = other + 1;
            }
        } else {
            proof {
                assert(strings_view(dominated_by@) =~= Seq::<Seq<char>>::empty());
                assert(strings_view(evidence@) =~= Seq::<Seq<char>>::empty());
            }
        }
        proof {
            assert(iv.len() == n);
        }
        let ghost before = out@;
        out.push((dominated_by, evidence));
        proof {
            assert forall|j: int| 0 <= j < item + 1 implies (strings_view((#[trigger] out@[j]).0@),
                strings_view(out@[j].1@)) == dominance_marks(iv, eligible@, nv, ov, j) by {
                if j < item {
                    assert(out@[j] == before[j]);
                }
            }
        }
        item = item + 1;
    }
    out
}

/// The configurations on the Pareto front: eligible and dominated by none.
pub open spec fn pareto_front_of(
    ids: Seq<Seq<char>>,
    eligible: Seq<bool>,
    marks: Seq<Seq<Seq<char>>>,
) -> Seq<Seq<char>>
    decreases ids.len(),
{
    if ids.len() == 0 {
        Seq::empty()
    } else {
        let prev = pareto_front_of(ids.drop_last(), eligible.drop_last(), marks.drop_last());
        if eligible.last() && marks.last().len() == 0 {
            prev.push(ids.last())
        } else {
            prev
        }
    }
}

/// The ids of the eligible configurations that nothing dominates, in order;
/// `dominated_by[i]` lists what dominates configuration `i`.
pub fn pareto_front(ids: &Vec<String>, eligible: &Vec<bool>, dominated_by: &Vec<Vec<String>>) -> (r: Vec<String>)
    requires
        eligible@.len() == ids@.len(),
        dominated_by@.len() == ids@.len(),
    ensures
        strings_view(r@) == pareto_front_of(
            strings_view(ids@),
            eligible@,
            dominated_by@.map_values(|d: Vec<String>| strings_view(d@)),
        ),
{
    let ghost mv = dominated_by@.map_values(|d: Vec<String>| strings_view(d@));
    let mut out: Vec<String> = Vec::new();
    let mut i: usize = 0;
    while i < ids.len()
        invariant
            eligible@.len() == ids@.len(),
            dominated_by@.len() == ids@.len(),
            mv == dominated_by@.map_values(|d: Vec<String>| strings_view(d@)),
            i <= ids@.len(),
            strings_view(out@) == pareto_front_of(
                strings_view(ids@).take(i as int),
                eligible@.take(i as int),
                mv.take(i as int),
            ),
        decreases ids@.len() - i,
    {
        proof {
            assert(strings_view(ids@).take(i + 1).drop_last() =~= strings_view(ids@).take(i as int));
            assert(eligible@.take(i + 1).drop_last() =~= eligible@.take(i as int));
            assert(mv.take(i + 1).drop_last() =~= mv.take(i as int));
            assert(mv.take(i + 1).last() == strings_view(dominated_by@[i as int]@));
            assert(strings_view(ids@).take(i + 1).last() == ids@[i as int]@);
        }
        if eligible[i] && dominated_by[i].len() == 0 {
            let ghost before = out@;
            out.push(ids[i].clone());
            proof {
                assert(strings_view(out@) =~= strings_view(before).push(ids@[i as int]@));
            }
        }
        i = i + 1;
    }
    proof {
        assert(strings_view(ids@).take(ids@.len() as int) =~= strings_view(ids@));
        assert(eligible@.take(ids@.len() as int) =~= eligible@);
        assert(mv.take(ids@.len() as int) =~= mv);
    }
    out
}

/// The Pareto front lists, in input order, exactly the configurations that
/// are eligible and dominated by none: the returned positions `idx` are
/// strictly increasing, the front's `k`-th id is the id at `idx[k]`, every
/// listed configuration is eligible and undominated, and every eligible,
/// undominated configuration is listed.
pub proof fn lemma_pareto_front_exact(
    ids: Seq<Seq<char>>,
    eligible: Seq<bool>,
    marks: Seq<Seq<Seq<char>>>,
) -> (idx: Seq<int>)
    requires
        eligible.len() == ids.len(),
        marks.len() == ids.len(),
    ensures
        idx.len() == pareto_front_of(ids, eligible, marks).len(),
        forall|k: int|
            0 <= k < idx.len() ==> 0 <= #[trigger] idx[k] < ids.len() && eligible[idx[k]]
                && marks[idx[k]].len() == 0 && pareto_front_of(ids, eligible, marks)[k] == ids[idx[k]],
        forall|k: int, l: int| 0 <= k < l < idx.len() ==> #[trigger] idx[k] < #[trigger] idx[l],
        forall|i: int|
            0 <= i < ids.len() && eligible[i] && marks[i].len() == 0 ==> exists|k: int|
                0 <= k < idx.len() && #[trigger] idx[k] == i,
        forall|i: int|
            0 <= i < ids.len() && eligible[i] && marks[i].len() == 0 ==> pareto_front_of(
                ids,
                eligible,
                marks,
            ).contains(#[trigger] ids[i]),
    decreases ids.len(),
{
    if ids.len() == 0 {
        Seq::empty()
    } else {
        let n = ids.len() - 1;
        let prev_idx = lemma_pareto_front_exact(ids.drop_last(), eligible.drop_last(), marks.drop_last());
        let prev = pareto_front_of(ids.drop_last(), eligible.drop_last(), marks.drop_last());
        let front = pareto_front_of(ids, eligible, marks);
        let keep = eligible[n] && marks[n].len() == 0;
        let idx = if keep {
            prev_idx.push(n)
        } else {
            prev_idx
        };
        assert forall|k: int| 0 <= k < idx.len() implies 0 <= #[trigger] idx[k] < ids.len()
            && eligible[idx[k]] && marks[idx[k]].len() == 0 && front[k] == ids[idx[k]] by {
            if k < prev_idx.len() {
                assert(idx[k] == prev_idx[k]);
                assert(front[k] == prev[k]);
            }
        }
        assert forall|k: int, l: int| 0 <= k < l < idx.len() implies #[trigger] idx[k] < #[trigger] idx[l] by {
            if l < prev_idx.len() {
                assert(idx[k] == prev_idx[k] && idx[l] == prev_idx[l]);
            } else {
                assert(idx[k] == prev_idx[k]);
            }
        }
        assert forall|i: int| 0 <= i < ids.len() && eligible[i] && marks[i].len() == 0 implies exists|k: int|
            0 <= k < idx.len() && #[trigger] idx[k] == i by {
            if i < n {
                assert(eligible.drop_last()[i] == eligible[i] && marks.drop_last()[i] == marks[i]);
                let k = choose|k: int| 0 <= k < prev_idx.len() && #[trigger] prev_idx[k] == i;
                assert(idx[k] == i);
            } else {
                assert(idx[prev_idx.len() as int] == i);
            }
        }
        assert forall|i: int| 0 <= i < ids.len() && eligible[i] && marks[i].len() == 0 implies front.contains(
            #[trigger] ids[i],
        ) by {
            let k = choose|k: int| 0 <= k < idx.len() && #[trigger] idx[k] == i;
            assert(front[k] == ids[i]);
        }
        idx
    }
}

proof fn lemma_dominators_empty(
    ids: Seq<Seq<char>>,
    eligible: Seq<bool>,
    names: Seq<Seq<char>>,
    orders: Seq<Seq<Seq<ObjectiveOrdering>>>,
    item: int,
    k: int,
)
    requires
        0 <= k,
    ensures
        dominators(ids, eligible, names, orders, item, k).0.len() == 0 <==> forall|o: int|
            0 <= o < k ==> !#[trigger] dominates_item(ids, eligible, names, orders, o, item),
    decreases k,
{
    if k > 0 {
        lemma_dominators_empty(ids, eligible, names, orders, item, k - 1);
    }
}

/// A configuration is left undominated exactly when it is eligible and no
/// other eligible configuration (under another id) dominates it: being on
/// the Pareto front means that no eligible alternative is at least as good
/// on every objective and better on one.
pub proof fn lemma_undominated_means_no_dominator(
    ids: Seq<Seq<char>>,
    eligible: Seq<bool>,
    names: Seq<Seq<char>>,
    orders: Seq<Seq<Seq<ObjectiveOrdering>>>,
    item: int,
)
    requires
        eligible.len() == ids.len(),
        0 <= item < ids.len(),
        eligible[item],
    ensures
        dominance_marks(ids, eligible, names, orders, item).0.len() == 0 <==> forall|o: int|
            0 <= o < ids.len() ==> !(#[trigger] eligible[o] && ids[o] != ids[item] && dominance_of(
                names,
                orders[o][item],
            ) is Some),
{
    lemma_dominators_empty(ids, eligible, names, orders, item, ids.len() as int);
    assert forall|o: int| 0 <= o < ids.len() implies (dominates_item(ids, eligible, names, orders, o, item)
        == (eligible[o] && ids[o] != ids[item] && dominance_of(names, orders[o][item]) is Some)) by {
    }
}

// ---------------------------------------------------------------------------
// Gravity-contamination priority and the policy contract
// ---------------------------------------------------------------------------

/// One configuration beats another on gravity contamination when it is
/// better or equivalent on each of the comparisons and better on one.
pub open spec fn beats_on_all(c: Seq<ObjectiveOrdering>) -> bool {
    (forall|i: int|
        0 <= i < c.len() ==> #[trigger] c[i] == ObjectiveOrdering::Better || c[i]
            == ObjectiveOrdering::Equivalent) && (exists|i: int|
        0 <= i < c.len() && #[trigger] c[i] == ObjectiveOrdering::Better)
}

pub fn gravity_contamination_dominates(comparisons: &Vec<ObjectiveOrdering>) -> (r: bool)
    ensures
        r == beats_on_all(comparisons@),
{
    let mut any_better = false;
    let mut i: usize = 0;
    while i < comparisons.len()
        invariant
            i <= comparisons@.len(),
            forall|k: int|
                0 <= k < i ==> #[trigger] comparisons@[k] == ObjectiveOrdering::Better || comparisons@[k]
                    == ObjectiveOrdering::Equivalent,
            any_better == exists|k: int| 0 <= k < i && #[trigger] comparisons@[k] == ObjectiveOrdering::Better,
        decreases comparisons@.len() - i,
    {
        match comparisons[i] {
            ObjectiveOrdering::Better => {
                any_better = true;
            },
            ObjectiveOrdering::Equivalent => {},
            _ => {
                return false;
            },
        }
        i = i + 1;
    }
    any_better
}

/// Whether every comparison is an equivalence.
pub fn all_equivalent(comparisons: &Vec<ObjectiveOrdering>) -> (r: bool)
    ensures
        r == forall|i: int| 0 <= i < comparisons@.len() ==> #[trigger] comparisons@[i] == ObjectiveOrdering::Equivalent,
{
    let mut i: usize = 0;
    while i < comparisons.len()
        invariant
            i <= comparisons@.len(),
            forall|k: int| 0 <= k < i ==> #[trigger] comparisons@[k] == ObjectiveOrdering::Equivalent,
        decreases comparisons@.len() - i,
    {
        if comparisons[i] != ObjectiveOrdering::Equivalent {
            return false;
        }
        i = i + 1;
    }
    true
}

/// The parameter a policy of the given family carries, if any.
pub open spec fn policy_parameter(candidate: PolicyCandidate) -> Option<Seq<char>> {
    match candidate {
        PolicyCandidate::GravityNoAdditionalAnchorFilter => None,
        PolicyCandidate::LowPassGravity => Some("tauMs"@),
        PolicyCandidate::ComplementaryGravityGyro => Some("correctionTauMs"@),
    }
}

/// The contract of a tilt-estimator policy apart from its parameter value:
/// version 1, yaw unavailable, the selection as source, and exactly the
/// parameter of its family. On success, the name of that parameter, whose
/// value must then be positive and finite.
pub open spec fn policy_contract(
    version: u8,
    yaw_available: bool,
    source: Seq<char>,
    candidate: PolicyCandidate,
    parameter_names: Seq<Seq<char>>,
) -> Result<Option<Seq<char>>, Seq<char>> {
    if version != POLICY_VERSION {
        Err("unsupported policy version: "@ + decimal(version as nat))
    } else if yaw_available {
        Err("yawAvailable must remain false"@)
    } else if source != POLICY_SOURCE@ {
        Err("policy source must be "@ + POLICY_SOURCE@)
    } else {
        match policy_parameter(candidate) {
            None => if parameter_names.len() != 0 {
                Err("gravity policy must not contain parameters"@)
            } else {
                Ok(None)
            },
            Some(name) => if parameter_names.len() != 1 || parameter_names[0] != name {
                Err("policy parameters must contain only "@ + name)
            } else {
                Ok(Some(name))
            },
        }
    }
}

/// Checks a policy's contract; `parameter_names` are the distinct names of
/// its parameters.
pub fn validate_policy_contract(
    version: u8,
    yaw_available: bool,
    source: &str,
    candidate: PolicyCandidate,
    parameter_names: &Vec<String>,
) -> (r: Result<Option<&'static str>, String>)
    ensures
        match policy_contract(version, yaw_available, source@, candidate, strings_view(parameter_names@)) {
            Ok(None) => r == Ok::<Option<&'static str>, String>(None),
            Ok(Some(name)) => r matches Ok(Some(n)) && n@ == name,
            Err(m) => r matches Err(x) && x@ == m,
        },
{
    if version != POLICY_VERSION {
        let mut m = string_of("unsupported policy version: ");
        push_decimal(&mut m, version as u64);
        return Err(m);
    }
    if yaw_available {
        return Err(string_of("yawAvailable must remain false"));
    }
    if !str_eq(source, POLICY_SOURCE) {
        let mut m = string_of("policy source must be ");
        push_str(&mut m, POLICY_SOURCE);
        return Err(m);
    }
    let name: &'static str = match candidate {
        PolicyCandidate::GravityNoAdditionalAnchorFilter => {
            if parameter_names.len() != 0 {
                return Err(string_of("gravity policy must not contain parameters"));
            }
            return Ok(None);
        },
        PolicyCandidate::LowPassGravity => "tauMs",
        PolicyCandidate::ComplementaryGravityGyro => "correctionTauMs",
    };
    proof {
        assert(strings_view(parameter_names@).len() == parameter_names@.len());
        if parameter_names@.len() == 1 {
            assert(strings_view(parameter_names@)[0] == parameter_names@[0]@);
        }
    }
    if parameter_names.len() != 1 || !str_eq(parameter_names[0].as_str(), name) {
        let mut m = string_of("policy parameters must contain only ");
        push_str(&mut m, name);
        return Err(m);
    }
    Ok(Some(name))
}

} // verus!
