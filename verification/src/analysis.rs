//! The integer part of the offline analysis of a validated motion dataset:
//! the summary cross-checks, the grouping of samples by session, the
//! per-session source/receive intervals and the sequence gaps.

use vstd::prelude::*;
use crate::dataset::{
    final_summary, lemma_well_formed_dataset_validates, pending_samples, sample_line_count,
    summary_record_of, well_formed_dataset, DatasetRecorderSnapshot, clocks_ordered, lemma_validated_clocks_ordered, spec_validate_dataset, validate_dataset_lines, DatasetAnalysisError, DatasetError, DatasetLine,
    DatasetMetadataRecord, DatasetSampleRecord, DatasetSummaryRecord, RecordingScenario,
    ValidatedDataset,
};
use crate::text::{decimal, push_decimal, push_str, string_of};

verus! {

/// A run of missing sequence numbers between two consecutive samples of a session.
#[derive(Debug, Clone, Copy, PartialEq, Eq, Structural)]
pub struct SequenceGap {
    pub after_sequence: u32,
    pub before_sequence: u32,
    pub missing_count: u64,
}

/// The sequence accounting of one session.
#[derive(Debug, Clone)]
pub struct SessionAnalysis {
    pub session_id: String,
    pub sample_count: usize,
    pub first_sequence: u32,
    pub last_sequence: u32,
    pub gap_count: usize,
    pub missing_sequence_total: u64,
    pub gaps: Vec<SequenceGap>,
}

/// The abstract value of a `SessionAnalysis`.
pub struct SessionSummary {
    pub session_id: Seq<char>,
    pub sample_count: nat,
    pub first_sequence: u32,
    pub last_sequence: u32,
    pub gap_count: nat,
    pub missing_sequence_total: nat,
    pub gaps: Seq<SequenceGap>,
}

impl View for SessionAnalysis {
    type V = SessionSummary;

    open spec fn view(&self) -> SessionSummary {
        SessionSummary {
            session_id: self.session_id@,
            sample_count: self.sample_count as nat,
            first_sequence: self.first_sequence,
            last_sequence: self.last_sequence,
            gap_count: self.gap_count as nat,
            missing_sequence_total: self.missing_sequence_total as nat,
            gaps: self.gaps@,
        }
    }
}

/// The source interval, the receive interval and their difference between
/// two consecutive samples of one session.
#[derive(Debug, Clone, Copy, PartialEq, Eq, Structural)]
pub struct SampleInterval {
    pub source_us: u64,
    pub receive_us: u64,
    pub relative_delay_variation_us: i64,
}

/// Everything the analysis of a dataset computes with integers; the float
/// statistics are derived from `intervals` and the sample payloads.
#[derive(Debug, Clone)]
pub struct DatasetStructureAnalysis {
    pub dataset_format_version: u8,
    pub protocol_version: u8,
    pub scenario: RecordingScenario,
    pub mounting_convention: String,
    pub is_complete: bool,
    pub sample_count: usize,
    pub session_count: usize,
    pub observed_duration_us: u64,
    pub intervals: Vec<SampleInterval>,
    pub recorder_dropped_samples: u64,
    pub sessions: Vec<SessionAnalysis>,
    pub warnings: Vec<String>,
}

/// The abstract value of a `DatasetStructureAnalysis`.
pub struct StructureSummary {
    pub dataset_format_version: u8,
    pub protocol_version: u8,
    pub scenario: RecordingScenario,
    pub mounting_convention: Seq<char>,
    pub is_complete: bool,
    pub sample_count: nat,
    pub session_count: nat,
    pub observed_duration_us: u64,
    pub intervals: Seq<SampleInterval>,
    pub recorder_dropped_samples: u64,
    pub sessions: Seq<SessionSummary>,
    pub warnings: Seq<Seq<char>>,
}

impl View for DatasetStructureAnalysis {
    type V = StructureSummary;

    open spec fn view(&self) -> StructureSummary {
        StructureSummary {
            dataset_format_version: self.dataset_format_version,
            protocol_version: self.protocol_version,
            scenario: self.scenario,
            mounting_convention: self.mounting_convention@,
            is_complete: self.is_complete,
            sample_count: self.sample_count as nat,
            session_count: self.session_count as nat,
            observed_duration_us: self.observed_duration_us,
            intervals: self.intervals@,
            recorder_dropped_samples: self.recorder_dropped_samples,
            sessions: self.sessions@.map_values(|s: SessionAnalysis| s@),
            warnings: self.warnings@.map_values(|w: String| w@),
        }
    }
}

// ---------------------------------------------------------------------------
// Summary cross-checks
// ---------------------------------------------------------------------------

pub open spec fn invalid_summary(line: usize, message: Seq<char>) -> Result<(), DatasetError> {
    Err(DatasetError::InvalidSummary { line, message })
}

/// The checks of a summary record against the samples actually present:
/// `writtenSamples` equals the sample count, and `receivedAcceptedSamples`
/// equals `writtenSamples + recorderDroppedSamples`.
pub open spec fn summary_check(summary: Option<(usize, DatasetSummaryRecord)>, count: nat) -> Result<
    (),
    DatasetError,
> {
    match summary {
        None => Ok(()),
        Some((line, s)) => if s.written_samples != count {
            invalid_summary(
                line,
                "writtenSamples="@ + decimal(s.written_samples as nat) + " but dataset contains "@
                    + decimal(count as nat) + " sample records"@,
            )
        } else if s.written_samples + s.recorder_dropped_samples > u64::MAX {
            invalid_summary(line, "receivedAcceptedSamples overflowed while validating summary"@)
        } else if s.received_accepted_samples != s.written_samples + s.recorder_dropped_samples {
            invalid_summary(
                line,
                "receivedAcceptedSamples="@ + decimal(s.received_accepted_samples as nat)
                    + " but writtenSamples + recorderDroppedSamples = "@ + decimal(
                    (s.written_samples + s.recorder_dropped_samples) as nat,
                ),
            )
        } else {
            Ok(())
        },
    }
}

/// The summary cross-check accepts a summary exactly when its
/// `writtenSamples` equals the number of sample records and its
/// `receivedAcceptedSamples` equals `writtenSamples + recorderDroppedSamples`;
/// a summary that fails is refused with an `InvalidSummary` error at the
/// summary's own line, which, when `writtenSamples` is off, names both
/// counts. A dataset without a summary passes the check.
pub proof fn lemma_summary_check_exact(line: usize, s: DatasetSummaryRecord, count: nat)
    ensures
        summary_check(Some((line, s)), count) is Ok <==> (s.written_samples == count
            && s.received_accepted_samples == s.written_samples + s.recorder_dropped_samples),
        summary_check(Some((line, s)), count) is Err ==> (summary_check(
            Some((line, s)),
            count,
        )->Err_0 matches DatasetError::InvalidSummary { line: l, .. } && l == line),
        s.written_samples != count ==> summary_check(Some((line, s)), count) == invalid_summary(
            line,
            "writtenSamples="@ + decimal(s.written_samples as nat) + " but dataset contains "@
                + decimal(count) + " sample records"@,
        ),
        summary_check(None, count) is Ok,
{
}

/// Checks a summary record, when there is one, against the number of sample records.
pub fn validate_summary(summary: Option<&(usize, DatasetSummaryRecord)>, actual_sample_count: usize) -> (r:
    Result<(), DatasetAnalysisError>)
    ensures
        match summary_check(
            match summary {
                Some(p) => Some(*p),
                None => None,
            },
            actual_sample_count as nat,
        ) {
            Ok(_) => r is Ok,
            Err(e) => r matches Err(x) && x@ == e,
        },
{
    let (line_number, record) = match summary {
        None => {
            return Ok(());
        },
        Some(p) => *p,
    };
    let count = actual_sample_count as u64;
    if record.written_samples != count {
        let mut message = string_of("writtenSamples=");
        push_decimal(&mut message, record.written_samples);
        push_str(&mut message, " but dataset contains ");
        push_decimal(&mut message, count);
        push_str(&mut message, " sample records");
        return Err(DatasetAnalysisError::InvalidSummary { line: line_number, message });
    }
    let expected = match record.written_samples.checked_add(record.recorder_dropped_samples) {
        None => {
            return Err(
                DatasetAnalysisError::InvalidSummary {
                    line: line_number,
                    message: string_of("receivedAcceptedSamples overflowed while validating summary"),
                },
            );
        },
        Some(v) => v,
    };
    if record.received_accepted_samples != expected {
        let mut message = string_of("receivedAcceptedSamples=");
        push_decimal(&mut message, record.received_accepted_samples);
        push_str(&mut message, " but writtenSamples + recorderDroppedSamples = ");
        push_decimal(&mut message, expected);
        return Err(DatasetAnalysisError::InvalidSummary { line: line_number, message });
    }
    Ok(())
}

// ---------------------------------------------------------------------------
// Grouping by session
// ---------------------------------------------------------------------------

/// The sessions of the first `n` samples in order of first appearance, each
/// with the positions of its samples in file order.
pub open spec fn session_groups<S>(ss: Seq<DatasetSampleRecord<S>>, n: int) -> Seq<
    (Seq<char>, Seq<int>),
>
    decreases n,
{
    if n <= 0 {
        Seq::empty()
    } else {
        let gs = session_groups(ss, n - 1);
        let id = ss[n - 1].header.session_id@;
        if exists|k: int| 0 <= k < gs.len() && gs[k].0 == id {
            let k = choose|k: int| 0 <= k < gs.len() && gs[k].0 == id;
            gs.update(k, (id, gs[k].1.push(n - 1)))
        } else {
            gs.push((id, seq![n - 1]))
        }
    }
}

/// The groups are well formed: distinct session ids, and each group lists,
/// in increasing order, positions below `n` of samples of its session.
pub open spec fn groups_well_formed<S>(
    ss: Seq<DatasetSampleRecord<S>>,
    gs: Seq<(Seq<char>, Seq<int>)>,
    n: int,
) -> bool {
    &&& forall|a: int, b: int| 0 <= a < gs.len() && 0 <= b < gs.len() && a != b ==> gs[a].0 != gs[b].0
    &&& forall|a: int| 0 <= a < gs.len() ==> gs[a].1.len() > 0
    &&& forall|a: int, j: int|
        0 <= a < gs.len() && 0 <= j < gs[a].1.len() ==> 0 <= #[trigger] gs[a].1[j] < n
            && ss[gs[a].1[j]].header.session_id@ == gs[a].0
    &&& forall|a: int, i: int, j: int|
        0 <= a < gs.len() && 0 <= i < j < gs[a].1.len() ==> #[trigger] gs[a].1[i] < #[trigger] gs[a].1[j]
}

proof fn lemma_session_groups_well_formed<S>(ss: Seq<DatasetSampleRecord<S>>, n: int)
    requires
        0 <= n <= ss.len(),
    ensures
        groups_well_formed(ss, session_groups(ss, n), n),
    decreases n,
{
    if n > 0 {
        lemma_session_groups_well_formed(ss, n - 1);
        let gs = session_groups(ss, n - 1);
        let id = ss[n - 1].header.session_id@;
        let r = session_groups(ss, n);
        if exists|k: int| 0 <= k < gs.len() && gs[k].0 == id {
            let k = choose|k: int| 0 <= k < gs.len() && gs[k].0 == id;
            assert(r == gs.update(k, (id, gs[k].1.push(n - 1))));
            assert forall|a: int, i: int, j: int|
                0 <= a < r.len() && 0 <= i < j < r[a].1.len() implies #[trigger] r[a].1[i]
                < #[trigger] r[a].1[j] by {
                if a == k && j == r[a].1.len() - 1 {
                    assert(r[a].1[i] == gs[k].1[i]);
                    assert(gs[k].1[i] < n - 1);
                }
            }
            assert forall|a: int, j: int|
                0 <= a < r.len() && 0 <= j < r[a].1.len() implies 0 <= #[trigger] r[a].1[j] < n
                && ss[r[a].1[j]].header.session_id@ == r[a].0 by {
                if a == k && j < r[a].1.len() - 1 {
                    assert(r[a].1[j] == gs[k].1[j]);
                }
            }
        } else {
            assert(r == gs.push((id, seq![n - 1])));
            assert forall|a: int, j: int|
                0 <= a < r.len() && 0 <= j < r[a].1.len() implies 0 <= #[trigger] r[a].1[j] < n
                && ss[r[a].1[j]].header.session_id@ == r[a].0 by {
                if a < gs.len() {
                    assert(r[a] == gs[a]);
                }
            }
        }
    }
}

/// The working form of a session group.
struct SessionGroup {
    session_id: String,
    positions: Vec<usize>,
}

spec fn group_view(g: SessionGroup) -> (Seq<char>, Seq<int>) {
    (g.session_id@, g.positions@.map_values(|p: usize| p as int))
}

spec fn groups_view(gs: Seq<SessionGroup>) -> Seq<(Seq<char>, Seq<int>)> {
    gs.map_values(|g: SessionGroup| group_view(g))
}

fn find_group(groups: &Vec<SessionGroup>, session_id: &String) -> (r: Option<usize>)
    ensures
        match r {
            Some(k) => k < groups@.len() && groups@[k as int].session_id@ == session_id@,
            None => forall|k: int| 0 <= k < groups@.len() ==> groups@[k].session_id@ != session_id@,
        },
{
    let mut k: usize = 0;
    while k < groups.len()
        invariant
            k <= groups@.len(),
            forall|j: int| 0 <= j < k ==> groups@[j].session_id@ != session_id@,
        decreases groups@.len() - k,
    {
        if groups[k].session_id == *session_id {
            return Some(k);
        }
        k = k + 1;
    }
    None
}

fn group_by_session<S>(samples: &Vec<DatasetSampleRecord<S>>) -> (groups: Vec<SessionGroup>)
    ensures
        groups_view(groups@) == session_groups(samples@, samples@.len() as int),
{
    let ghost ss = samples@;
    let mut groups: Vec<SessionGroup> = Vec::new();
    let mut i: usize = 0;
    while i < samples.len()
        invariant
            ss == samples@,
            i <= ss.len(),
            groups_view(groups@) == session_groups(ss, i as int),
        decreases ss.len() - i,
    {
        proof {
            lemma_session_groups_well_formed(ss, i as int);
        }
        let ghost gs = session_groups(ss, i as int);
        let ghost id = ss[i as int].header.session_id@;
        assert(session_groups(ss, i + 1) == (if exists|k: int| 0 <= k < gs.len() && gs[k].0 == id {
            let k = choose|k: int| 0 <= k < gs.len() && gs[k].0 == id;
            gs.update(k, (id, gs[k].1.push(i as int)))
        } else {
            gs.push((id, seq![i as int]))
        }));
        match find_group(&groups, &samples[i].header.session_id) {
            Some(k) => {
                proof {
                    assert(groups_view(groups@)[k as int] == group_view(groups@[k as int]));
                    assert(gs[k as int].0 == id);
                    let c = choose|c: int| 0 <= c < gs.len() && gs[c].0 == id;
                    assert(c == k);
                }
                let ghost old_groups = groups@;
                let mut g = groups.remove(k);
                g.positions.push(i);
                groups.insert(k, g);
                proof {
                    assert(groups_view(groups@) =~= gs.update(
                        k as int,
                        (id, gs[k as int].1.push(i as int)),
                    )) by {
                        assert forall|j: int| 0 <= j < groups@.len() implies #[trigger] groups_view(
                            groups@,
                        )[j] == gs.update(k as int, (id, gs[k as int].1.push(i as int)))[j] by {
                            if j == k {
                                assert(groups@[j].positions@.map_values(|p: usize| p as int)
                                    =~= old_groups[j].positions@.map_values(|p: usize| p as int).push(
                                    i as int,
                                ));
                            } else {
                                assert(groups@[j] == old_groups[j]);
                                assert(groups_view(old_groups)[j] == group_view(old_groups[j]));
                            }
                        }
                    }
                }
            },
            None => {
                proof {
                    assert(!exists|k: int| 0 <= k < gs.len() && gs[k].0 == id) by {
                        assert forall|k: int| 0 <= k < gs.len() implies gs[k].0 != id by {
                            assert(groups_view(groups@)[k] == group_view(groups@[k]));
                        }
                    }
                }
                let ghost old_groups = groups@;
                let mut positions: Vec<usize> = Vec::new();
                positions.push(i);
                groups.push(SessionGroup { session_id: samples[i].header.session_id.clone(), positions });
                proof {
                    assert(groups_view(groups@) =~= gs.push((id, seq![i as int]))) by {
                        assert forall|j: int| 0 <= j < groups@.len() implies #[trigger] groups_view(
                            groups@,
                        )[j] == gs.push((id, seq![i as int]))[j] by {
                            if j == old_groups.len() {
                                assert(groups@[j].positions@.map_values(|p: usize| p as int)
                                    =~= seq![i as int]);
                            } else {
                                assert(groups@[j] == old_groups[j]);
                                assert(groups_view(old_groups)[j] == group_view(old_groups[j]));
                            }
                        }
                    }
                }
            },
        }
        i = i + 1;
    }
    groups
}

// ---------------------------------------------------------------------------
// Intervals between consecutive samples of a session
// ---------------------------------------------------------------------------

pub open spec fn numeric_overflow(line: usize, message: Seq<char>) -> DatasetError {
    DatasetError::NumericOverflow { line, message }
}

/// The intervals from `first` to `second`, two consecutive samples of one
/// session, or why they cannot be computed.
pub open spec fn pair_interval<S>(first: DatasetSampleRecord<S>, second: DatasetSampleRecord<S>) -> Result<
    SampleInterval,
    DatasetError,
> {
    let s1 = first.header.session_elapsed_us;
    let s2 = second.header.session_elapsed_us;
    let r1 = first.received_elapsed_us;
    let r2 = second.received_elapsed_us;
    if s2 < s1 {
        Err(
            DatasetError::SessionElapsedRegression {
                line: second.line_number,
                previous_line: first.line_number,
                session_id: second.header.session_id@,
                previous_session_elapsed_us: s1,
                current_session_elapsed_us: s2,
            },
        )
    } else if r2 < r1 {
        Err(
            DatasetError::ReceivedElapsedRegression {
                line: second.line_number,
                previous_line: first.line_number,
                previous_received_elapsed_us: r1,
                current_received_elapsed_us: r2,
            },
        )
    } else if r2 - r1 > i64::MAX {
        Err(
            numeric_overflow(
                second.line_number,
                "receive delta "@ + decimal((r2 - r1) as nat) + " cannot be represented as i64"@,
            ),
        )
    } else if s2 - s1 > i64::MAX {
        Err(
            numeric_overflow(
                second.line_number,
                "source delta "@ + decimal((s2 - s1) as nat) + " cannot be represented as i64"@,
            ),
        )
    } else {
        Ok(
            SampleInterval {
                source_us: (s2 - s1) as u64,
                receive_us: (r2 - r1) as u64,
                relative_delay_variation_us: ((r2 - r1) - (s2 - s1)) as i64,
            },
        )
    }
}

/// The intervals of the first `k` consecutive pairs of the samples at
/// positions `ps`, stopping at the first pair that fails.
pub open spec fn interval_scan<S>(ss: Seq<DatasetSampleRecord<S>>, ps: Seq<int>, k: int) -> Result<
    Seq<SampleInterval>,
    DatasetError,
>
    decreases k,
{
    if k <= 0 {
        Ok(Seq::empty())
    } else {
        match interval_scan(ss, ps, k - 1) {
            Err(e) => Err(e),
            Ok(v) => match pair_interval(ss[ps[k - 1]], ss[ps[k]]) {
                Err(e) => Err(e),
                Ok(iv) => Ok(v.push(iv)),
            },
        }
    }
}

/// The intervals of the first `g` session groups, group after group.
pub open spec fn all_intervals<S>(
    ss: Seq<DatasetSampleRecord<S>>,
    gs: Seq<(Seq<char>, Seq<int>)>,
    g: int,
) -> Result<Seq<SampleInterval>, DatasetError>
    decreases g,
{
    if g <= 0 {
        Ok(Seq::empty())
    } else {
        match all_intervals(ss, gs, g - 1) {
            Err(e) => Err(e),
            Ok(v) => match interval_scan(ss, gs[g - 1].1, gs[g - 1].1.len() - 1) {
                Err(e) => Err(e),
                Ok(w) => Ok(v + w),
            },
        }
    }
}

proof fn lemma_interval_scan_error_stays<S>(
    ss: Seq<DatasetSampleRecord<S>>,
    ps: Seq<int>,
    k: int,
    m: int,
)
    requires
        0 <= k <= m,
        interval_scan(ss, ps, k) is Err,
    ensures
        interval_scan(ss, ps, m) == interval_scan(ss, ps, k),
    decreases m - k,
{
    if m > k {
        lemma_interval_scan_error_stays(ss, ps, k, m - 1);
    }
}

fn pair_interval_exec<S>(first: &DatasetSampleRecord<S>, second: &DatasetSampleRecord<S>) -> (r:
    Result<SampleInterval, DatasetAnalysisError>)
    ensures
        match pair_interval(*first, *second) {
            Ok(iv) => r == Ok::<SampleInterval, DatasetAnalysisError>(iv),
            Err(e) => r matches Err(x) && x@ == e,
        },
{
    let s1 = first.header.session_elapsed_us;
    let s2 = second.header.session_elapsed_us;
    let r1 = first.received_elapsed_us;
    let r2 = second.received_elapsed_us;
    if s2 < s1 {
        return Err(
            DatasetAnalysisError::SessionElapsedRegression {
                line: second.line_number,
                previous_line: first.line_number,
                session_id: second.header.session_id.clone(),
                previous_session_elapsed_us: s1,
                current_session_elapsed_us: s2,
            },
        );
    }
    if r2 < r1 {
        return Err(
            DatasetAnalysisError::ReceivedElapsedRegression {
                line: second.line_number,
                previous_line: first.line_number,
                previous_received_elapsed_us: r1,
                current_received_elapsed_us: r2,
            },
        );
    }
    let receive_delta = r2 - r1;
    let source_delta = s2 - s1;
    if receive_delta > 9_223_372_036_854_775_807u64 {
        let mut message = string_of("receive delta ");
        push_decimal(&mut message, receive_delta);
        push_str(&mut message, " cannot be represented as i64");
        return Err(DatasetAnalysisError::NumericOverflow { line: second.line_number, message });
    }
    if source_delta > 9_223_372_036_854_775_807u64 {
        let mut message = string_of("source delta ");
        push_decimal(&mut message, source_delta);
        push_str(&mut message, " cannot be represented as i64");
        return Err(DatasetAnalysisError::NumericOverflow { line: second.line_number, message });
    }
    let receive_signed = receive_delta as i64;
    let source_signed = source_delta as i64;
    Ok(
        SampleInterval {
            source_us: source_delta,
            receive_us: receive_delta,
            relative_delay_variation_us: receive_signed - source_signed,
        },
    )
}

/// Appends the intervals of one session group to `out`.
fn push_group_intervals<S>(
    samples: &Vec<DatasetSampleRecord<S>>,
    positions: &Vec<usize>,
    out: &mut Vec<SampleInterval>,
) -> (r: Result<(), DatasetAnalysisError>)
    requires
        positions@.len() > 0,
        forall|j: int| 0 <= j < positions@.len() ==> positions@[j] < samples@.len(),
    ensures
        match interval_scan(
            samples@,
            positions@.map_values(|p: usize| p as int),
            positions@.len() - 1,
        ) {
            Ok(v) => r is Ok && final(out)@ == old(out)@ + v,
            Err(e) => r matches Err(x) && x@ == e,
        },
{
    let ghost ps = positions@.map_values(|p: usize| p as int);
    let ghost start = out@;
    let mut k: usize = 1;
    while k < positions.len()
        invariant
            1 <= k <= positions@.len(),
            ps == positions@.map_values(|p: usize| p as int),
            forall|j: int| 0 <= j < positions@.len() ==> positions@[j] < samples@.len(),
            interval_scan(samples@, ps, k - 1) matches Ok(v) && out@ == start + v,
        decreases positions@.len() - k,
    {
        let ghost before = out@;
        let first = &samples[positions[k - 1]];
        let second = &samples[positions[k]];
        match pair_interval_exec(first, second) {
            Err(e) => {
                proof {
                    assert(ps[k - 1] == positions@[k - 1] as int);
                    assert(ps[k as int] == positions@[k as int] as int);
                    assert(interval_scan(samples@, ps, k as int) is Err);
                    lemma_interval_scan_error_stays(
                        samples@,
                        ps,
                        k as int,
                        positions@.len() - 1,
                    );
                }
                return Err(e);
            },
            Ok(iv) => {
                out.push(iv);
                proof {
                    assert(ps[k - 1] == positions@[k - 1] as int);
                    assert(ps[k as int] == positions@[k as int] as int);
                    let v = interval_scan(samples@, ps, k - 1)->Ok_0;
                    assert(out@ =~= start + v.push(iv));
                }
            },
        }
        k = k + 1;
    }
    Ok(())
}

// ---------------------------------------------------------------------------
// Sequence gaps of a session
// ---------------------------------------------------------------------------

pub open spec fn gap_overflow_text(current: u32, next: u32) -> Seq<char> {
    "missing sequence total overflowed while accumulating gap after "@ + decimal(current as nat)
        + " before "@ + decimal(next as nat)
}

/// The gaps found in the first `k` consecutive pairs of the samples at
/// positions `ps`, with the running total of missing sequence numbers; a
/// pair whose sequence goes backwards or repeats is no gap.
pub open spec fn gap_scan<S>(ss: Seq<DatasetSampleRecord<S>>, ps: Seq<int>, k: int) -> Result<
    (Seq<SequenceGap>, nat),
    DatasetError,
>
    decreases k,
{
    if k <= 0 {
        Ok((Seq::empty(), 0))
    } else {
        match gap_scan(ss, ps, k - 1) {
            Err(e) => Err(e),
            Ok(acc) => {
                let current = ss[ps[k - 1]].header.sequence;
                let next = ss[ps[k]].header.sequence;
                if next >= current && next - current > 1 {
                    let missing = (next - current - 1) as nat;
                    if acc.1 + missing > u64::MAX {
                        Err(numeric_overflow(ss[ps[k]].line_number, gap_overflow_text(current, next)))
                    } else {
                        Ok(
                            (
                                acc.0.push(
                                    SequenceGap {
                                        after_sequence: current,
                                        before_sequence: next,
                                        missing_count: missing as u64,
                                    },
                                ),
                                acc.1 + missing,
                            ),
                        )
                    }
                } else {
                    Ok(acc)
                }
            },
        }
    }
}

/// The sequence accounting of the session `id` whose samples are at positions `ps`.
pub open spec fn session_summary<S>(ss: Seq<DatasetSampleRecord<S>>, id: Seq<char>, ps: Seq<int>) -> Result<
    SessionSummary,
    DatasetError,
> {
    match gap_scan(ss, ps, ps.len() - 1) {
        Err(e) => Err(e),
        Ok(acc) => Ok(
            SessionSummary {
                session_id: id,
                sample_count: ps.len(),
                first_sequence: if ps.len() > 0 {
                    ss[ps[0]].header.sequence
                } else {
                    0
                },
                last_sequence: if ps.len() > 0 {
                    ss[ps.last()].header.sequence
                } else {
                    0
                },
                gap_count: acc.0.len(),
                missing_sequence_total: acc.1,
                gaps: acc.0,
            },
        ),
    }
}

/// The accounting of the first `g` session groups.
pub open spec fn all_sessions<S>(
    ss: Seq<DatasetSampleRecord<S>>,
    gs: Seq<(Seq<char>, Seq<int>)>,
    g: int,
) -> Result<Seq<SessionSummary>, DatasetError>
    decreases g,
{
    if g <= 0 {
        Ok(Seq::empty())
    } else {
        match all_sessions(ss, gs, g - 1) {
            Err(e) => Err(e),
            Ok(v) => match session_summary(ss, gs[g - 1].0, gs[g - 1].1) {
                Err(e) => Err(e),
                Ok(x) => Ok(v.push(x)),
            },
        }
    }
}

proof fn lemma_gap_scan_error_stays<S>(ss: Seq<DatasetSampleRecord<S>>, ps: Seq<int>, k: int, m: int)
    requires
        0 <= k <= m,
        gap_scan(ss, ps, k) is Err,
    ensures
        gap_scan(ss, ps, m) == gap_scan(ss, ps, k),
    decreases m - k,
{
    if m > k {
        lemma_gap_scan_error_stays(ss, ps, k, m - 1);
    }
}

proof fn lemma_all_intervals_error_stays<S>(
    ss: Seq<DatasetSampleRecord<S>>,
    gs: Seq<(Seq<char>, Seq<int>)>,
    g: int,
    m: int,
)
    requires
        0 <= g <= m,
        all_intervals(ss, gs, g) is Err,
    ensures
        all_intervals(ss, gs, m) == all_intervals(ss, gs, g),
    decreases m - g,
{
    if m > g {
        lemma_all_intervals_error_stays(ss, gs, g, m - 1);
    }
}

proof fn lemma_all_sessions_error_stays<S>(
    ss: Seq<DatasetSampleRecord<S>>,
    gs: Seq<(Seq<char>, Seq<int>)>,
    g: int,
    m: int,
)
    requires
        0 <= g <= m,
        all_sessions(ss, gs, g) is Err,
    ensures
        all_sessions(ss, gs, m) == all_sessions(ss, gs, g),
    decreases m - g,
{
    if m > g {
        lemma_all_sessions_error_stays(ss, gs, g, m - 1);
    }
}

fn finish_group<S>(samples: &Vec<DatasetSampleRecord<S>>, group: &SessionGroup) -> (r: Result<
    SessionAnalysis,
    DatasetAnalysisError,
>)
    requires
        group.positions@.len() > 0,
        forall|j: int| 0 <= j < group.positions@.len() ==> group.positions@[j] < samples@.len(),
    ensures
        match session_summary(samples@, group.session_id@, group_view(*group).1) {
            Ok(x) => r matches Ok(a) && a@ == x,
            Err(e) => r matches Err(x) && x@ == e,
        },
{
    let ghost ss = samples@;
    let ghost ps = group_view(*group).1;
    let positions = &group.positions;
    let n = positions.len();
    let first_sequence = samples[positions[0]].header.sequence;
    let last_sequence = samples[positions[n - 1]].header.sequence;
    let mut gaps: Vec<SequenceGap> = Vec::new();
    let mut total: u64 = 0;
    let mut k: usize = 1;
    while k < n
        invariant
            1 <= k <= n,
            n == positions@.len(),
            positions == &group.positions,
            ss == samples@,
            ps == positions@.map_values(|p: usize| p as int),
            forall|j: int| 0 <= j < positions@.len() ==> positions@[j] < samples@.len(),
            gap_scan(ss, ps, k - 1) == Ok::<(Seq<SequenceGap>, nat), DatasetError>(
                (gaps@, total as nat),
            ),
        decreases n - k,
    {
        let current = samples[positions[k - 1]].header.sequence;
        let next = samples[positions[k]].header.sequence;
        proof {
            assert(ps[k - 1] == positions@[k - 1] as int);
            assert(ps[k as int] == positions@[k as int] as int);
        }
        if next >= current && next - current > 1 {
            let missing = (next - current - 1) as u64;
            match total.checked_add(missing) {
                None => {
                    let mut message = string_of(
                        "missing sequence total overflowed while accumulating gap after ",
                    );
                    push_decimal(&mut message, current as u64);
                    push_str(&mut message, " before ");
                    push_decimal(&mut message, next as u64);
                    proof {
                        lemma_gap_scan_error_stays(ss, ps, k as int, ps.len() - 1);
                    }
                    return Err(
                        DatasetAnalysisError::NumericOverflow {
                            line: samples[positions[k]].line_number,
                            message,
                        },
                    );
                },
                Some(t) => {
                    total = t;
                    gaps.push(
                        SequenceGap {
                            after_sequence: current,
                            before_sequence: next,
                            missing_count: missing,
                        },
                    );
                },
            }
        }
        k = k + 1;
    }
    proof {
        assert(ps[0] == positions@[0] as int);
        assert(ps.last() == positions@[n - 1] as int);
    }
    let gap_count = gaps.len();
    Ok(
        SessionAnalysis {
            session_id: group.session_id.clone(),
            sample_count: n,
            first_sequence,
            last_sequence,
            gap_count,
            missing_sequence_total: total,
            gaps,
        },
    )
}

// ---------------------------------------------------------------------------
// The whole analysis
// ---------------------------------------------------------------------------

pub open spec fn missing_summary_warning() -> Seq<char> {
    "dataset summary record is missing; file may be interrupted"@
}

pub open spec fn incomplete_summary_warning() -> Seq<char> {
    "dataset summary indicates the recording ended early with completed=false"@
}

/// The warnings of an analysis: a missing summary, or one that says the
/// recording ended early.
pub open spec fn dataset_warnings(summary: Option<(usize, DatasetSummaryRecord)>) -> Seq<Seq<char>> {
    match summary {
        None => seq![missing_summary_warning()],
        Some(p) => if !p.1.completed {
            seq![incomplete_summary_warning()]
        } else {
            Seq::empty()
        },
    }
}

/// The time from the first to the last received sample, 0 when it would be negative.
pub open spec fn observed_duration<S>(ss: Seq<DatasetSampleRecord<S>>) -> u64 {
    if ss.len() > 0 && ss.last().received_elapsed_us >= ss[0].received_elapsed_us {
        (ss.last().received_elapsed_us - ss[0].received_elapsed_us) as u64
    } else {
        0
    }
}

/// The integer analysis of a dataset with the given metadata, samples in
/// file order and optional summary (with its line).
pub open spec fn structure_analysis<S>(
    metadata: DatasetMetadataRecord,
    ss: Seq<DatasetSampleRecord<S>>,
    summary: Option<(usize, DatasetSummaryRecord)>,
) -> Result<StructureSummary, DatasetError> {
    match summary_check(summary, ss.len()) {
        Err(e) => Err(e),
        Ok(_) => {
            let gs = session_groups(ss, ss.len() as int);
            match all_intervals(ss, gs, gs.len() as int) {
                Err(e) => Err(e),
                Ok(intervals) => match all_sessions(ss, gs, gs.len() as int) {
                    Err(e) => Err(e),
                    Ok(sessions) => Ok(
                        StructureSummary {
                            dataset_format_version: metadata.dataset_format_version,
                            protocol_version: metadata.protocol_version,
                            scenario: metadata.scenario,
                            mounting_convention: metadata.mounting_convention@,
                            is_complete: match summary {
                                Some(p) => p.1.completed,
                                None => false,
                            },
                            sample_count: ss.len(),
                            session_count: sessions.len(),
                            observed_duration_us: observed_duration(ss),
                            intervals,
                            recorder_dropped_samples: match summary {
                                Some(p) => p.1.recorder_dropped_samples,
                                None => 0,
                            },
                            sessions,
                            warnings: dataset_warnings(summary),
                        },
                    ),
                },
            }
        },
    }
}

/// Cross-checks the summary of a validated dataset and computes its session
/// accounting and intervals.
#[verifier::loop_isolation(false)]
pub fn analyze_validated_dataset<S>(dataset: &ValidatedDataset<S>) -> (r: Result<
    DatasetStructureAnalysis,
    DatasetAnalysisError,
>)
    ensures
        match structure_analysis(dataset.metadata, dataset.samples@, dataset.summary) {
            Ok(a) => r matches Ok(x) && x@ == a,
            Err(e) => r matches Err(x) && x@ == e,
        },
{
    let samples = &dataset.samples;
    let ghost ss = samples@;
    let summary_ref = match &dataset.summary {
        Some(p) => Some(p),
        None => None,
    };
    match validate_summary(summary_ref, samples.len()) {
        Err(e) => {
            return Err(e);
        },
        Ok(()) => {},
    }
    let groups = group_by_session(samples);
    let ghost gs = session_groups(ss, ss.len() as int);
    proof {
        lemma_session_groups_well_formed(ss, ss.len() as int);
    }
    let mut intervals: Vec<SampleInterval> = Vec::new();
    let mut g: usize = 0;
    while g < groups.len()
        invariant
            g <= groups@.len(),
            ss == samples@,
            groups_view(groups@) == gs,
            groups_well_formed(ss, gs, ss.len() as int),
            all_intervals(ss, gs, g as int) == Ok::<Seq<SampleInterval>, DatasetError>(intervals@),
        decreases groups@.len() - g,
    {
        proof {
            assert(gs[g as int] == group_view(groups@[g as int]));
            assert forall|j: int| 0 <= j < groups@[g as int].positions@.len() implies groups@[g as int].positions@[j]
                < samples@.len() by {
                assert(gs[g as int].1[j] == groups@[g as int].positions@[j] as int);
            }
        }
        let ghost before = intervals@;
        match push_group_intervals(samples, &groups[g].positions, &mut intervals) {
            Err(e) => {
                proof {
                    lemma_all_intervals_error_stays(ss, gs, g + 1, gs.len() as int);
                }
                return Err(e);
            },
            Ok(()) => {},
        }
        g = g + 1;
    }
    let mut sessions: Vec<SessionAnalysis> = Vec::new();
    let mut g: usize = 0;
    while g < groups.len()
        invariant
            g <= groups@.len(),
            ss == samples@,
            groups_view(groups@) == gs,
            groups_well_formed(ss, gs, ss.len() as int),
            all_sessions(ss, gs, g as int) matches Ok(v) && v == sessions@.map_values(
                |x: SessionAnalysis| x@,
            ),
        decreases groups@.len() - g,
    {
        proof {
            assert(gs[g as int] == group_view(groups@[g as int]));
            assert forall|j: int| 0 <= j < groups@[g as int].positions@.len() implies groups@[g as int].positions@[j]
                < samples@.len() by {
                assert(gs[g as int].1[j] == groups@[g as int].positions@[j] as int);
            }
        }
        let ghost before = sessions@;
        match finish_group(samples, &groups[g]) {
            Err(e) => {
                proof {
                    lemma_all_sessions_error_stays(ss, gs, g + 1, gs.len() as int);
                }
                return Err(e);
            },
            Ok(a) => {
                sessions.push(a);
                proof {
                    assert(sessions@.map_values(|x: SessionAnalysis| x@) =~= before.map_values(
                        |x: SessionAnalysis| x@,
                    ).push(a@));
                }
            },
        }
        g = g + 1;
    }
    let n = samples.len();
    let observed_duration_us = if n > 0 && samples[n - 1].received_elapsed_us
        >= samples[0].received_elapsed_us {
        samples[n - 1].received_elapsed_us - samples[0].received_elapsed_us
    } else {
        0
    };
    let mut warnings: Vec<String> = Vec::new();
    let (is_complete, recorder_dropped_samples) = match &dataset.summary {
        None => {
            warnings.push(string_of("dataset summary record is missing; file may be interrupted"));
            (false, 0)
        },
        Some(p) => {
            if !p.1.completed {
                warnings.push(
                    string_of(
                        "dataset summary indicates the recording ended early with completed=false",
                    ),
                );
            }
            (p.1.completed, p.1.recorder_dropped_samples)
        },
    };
    proof {
        assert(warnings@.map_values(|w: String| w@) =~= dataset_warnings(dataset.summary));
    }
    let session_count = sessions.len();
    Ok(
        DatasetStructureAnalysis {
            dataset_format_version: dataset.metadata.dataset_format_version,
            protocol_version: dataset.metadata.protocol_version,
            scenario: dataset.metadata.scenario,
            mounting_convention: dataset.metadata.mounting_convention.clone(),
            is_complete,
            sample_count: n,
            session_count,
            observed_duration_us,
            intervals,
            recorder_dropped_samples,
            sessions,
            warnings,
        },
    )
}

/// Validates the decoded non-blank lines of a dataset and analyzes it: the
/// first error in file order, else the summary cross-check, else the
/// analysis. The validated dataset is handed back for the float statistics.
pub fn analyze_dataset_lines<S>(lines: Vec<DatasetLine<S>>) -> (r: Result<
    (ValidatedDataset<S>, DatasetStructureAnalysis),
    DatasetAnalysisError,
>)
    ensures
        match spec_validate_dataset(lines@) {
            Err(e) => r matches Err(x) && x@ == e,
            Ok(st) => match structure_analysis(st.metadata->0, st.samples, st.summary) {
                Ok(a) => r matches Ok(p) && Some(p.0.metadata) == st.metadata && p.0.samples@
                    == st.samples && p.0.summary == st.summary && p.1@ == a,
                Err(e) => r matches Err(x) && x@ == e,
            },
        },
{
    let dataset = match validate_dataset_lines(lines) {
        Err(e) => {
            return Err(e);
        },
        Ok(d) => d,
    };
    match analyze_validated_dataset(&dataset) {
        Err(e) => Err(e),
        Ok(a) => Ok((dataset, a)),
    }
}

// ---------------------------------------------------------------------------
// Laws
// ---------------------------------------------------------------------------

proof fn lemma_ordered_scan_defined<S>(ss: Seq<DatasetSampleRecord<S>>, ps: Seq<int>, id: Seq<char>, k: int)
    requires
        clocks_ordered(ss),
        0 <= k < ps.len(),
        forall|j: int| 0 <= j < ps.len() ==> 0 <= #[trigger] ps[j] < ss.len() && ss[ps[j]].header.session_id@ == id,
        forall|i: int, j: int| 0 <= i < j < ps.len() ==> #[trigger] ps[i] < #[trigger] ps[j],
    ensures
        interval_scan(ss, ps, k) is Ok,
    decreases k,
{
    if k > 0 {
        lemma_ordered_scan_defined(ss, ps, id, k - 1);
        let a = ps[k - 1];
        let b = ps[k];
        assert(a < b);
        assert(ss[a].received_elapsed_us <= ss[b].received_elapsed_us);
        assert(ss[a].header.session_id@ == ss[b].header.session_id@);
        assert(ss[a].header.session_elapsed_us <= ss[b].header.session_elapsed_us);
        assert(ss[b].received_elapsed_us <= i64::MAX);
        assert(ss[b].header.session_elapsed_us <= i64::MAX);
    }
}

proof fn lemma_ordered_intervals_defined<S>(ss: Seq<DatasetSampleRecord<S>>, g: int)
    requires
        clocks_ordered(ss),
        0 <= g <= session_groups(ss, ss.len() as int).len(),
    ensures
        all_intervals(ss, session_groups(ss, ss.len() as int), g) is Ok,
    decreases g,
{
    if g > 0 {
        let gs = session_groups(ss, ss.len() as int);
        lemma_session_groups_well_formed(ss, ss.len() as int);
        lemma_ordered_intervals_defined(ss, g - 1);
        let ps = gs[g - 1].1;
        assert forall|j: int| 0 <= j < ps.len() implies 0 <= #[trigger] ps[j] < ss.len()
            && ss[ps[j]].header.session_id@ == gs[g - 1].0 by {
            assert(gs[g - 1].1[j] == ps[j]);
        }
        assert forall|i: int, j: int| 0 <= i < j < ps.len() implies #[trigger] ps[i] < #[trigger] ps[j] by {
            assert(gs[g - 1].1[i] == ps[i] && gs[g - 1].1[j] == ps[j]);
        }
        lemma_ordered_scan_defined(ss, ps, gs[g - 1].0, ps.len() - 1);
    }
}

/// The intervals of a dataset that the validator accepted are always
/// defined: within a session neither clock goes back, and no interval
/// leaves the range of `i64`.
pub proof fn lemma_validated_intervals_defined<S>(lines: Seq<DatasetLine<S>>)
    requires
        spec_validate_dataset(lines) is Ok,
    ensures
        ({
            let ss = spec_validate_dataset(lines)->Ok_0.samples;
            let gs = session_groups(ss, ss.len() as int);
            all_intervals(ss, gs, gs.len() as int) is Ok
        }),
{
    lemma_validated_clocks_ordered(lines);
    let ss = spec_validate_dataset(lines)->Ok_0.samples;
    lemma_ordered_intervals_defined(ss, session_groups(ss, ss.len() as int).len() as int);
}

/// Position `i` is listed in one of the groups `gs`.
pub open spec fn is_listed(gs: Seq<(Seq<char>, Seq<int>)>, i: int) -> bool {
    exists|a: int, j: int| 0 <= a < gs.len() && 0 <= j < gs[a].1.len() && #[trigger] gs[a].1[j] == i
}

proof fn lemma_session_groups_cover<S>(ss: Seq<DatasetSampleRecord<S>>, n: int)
    requires
        0 <= n <= ss.len(),
    ensures
        forall|i: int| 0 <= i < n ==> #[trigger] is_listed(session_groups(ss, n), i),
    decreases n,
{
    if n > 0 {
        lemma_session_groups_cover(ss, n - 1);
        let gs = session_groups(ss, n - 1);
        let r = session_groups(ss, n);
        let id = ss[n - 1].header.session_id@;
        if exists|k: int| 0 <= k < gs.len() && gs[k].0 == id {
            let k = choose|k: int| 0 <= k < gs.len() && gs[k].0 == id;
            assert(r == gs.update(k, (id, gs[k].1.push(n - 1))));
            assert forall|i: int| 0 <= i < n implies #[trigger] is_listed(r, i) by {
                if i == n - 1 {
                    assert(r[k].1[r[k].1.len() - 1] == i);
                } else {
                    assert(is_listed(gs, i));
                    let (a, j) = choose|a: int, j: int|
                        0 <= a < gs.len() && 0 <= j < gs[a].1.len() && #[trigger] gs[a].1[j] == i;
                    assert(r[a].1[j] == i);
                }
            }
        } else {
            assert(r == gs.push((id, seq![n - 1])));
            assert forall|i: int| 0 <= i < n implies #[trigger] is_listed(r, i) by {
                if i == n - 1 {
                    assert(r[gs.len() as int].1[0] == i);
                } else {
                    assert(is_listed(gs, i));
                    let (a, j) = choose|a: int, j: int|
                        0 <= a < gs.len() && 0 <= j < gs[a].1.len() && #[trigger] gs[a].1[j] == i;
                    assert(r[a].1[j] == i);
                }
            }
        }
    }
}

/// The session groups of a dataset partition its samples: each sample is
/// listed, in the group of its own session, and only once, since the groups
/// have distinct session ids and list strictly increasing positions.
pub proof fn lemma_sessions_partition_samples<S>(ss: Seq<DatasetSampleRecord<S>>)
    ensures
        groups_well_formed(ss, session_groups(ss, ss.len() as int), ss.len() as int),
        forall|i: int|
            0 <= i < ss.len() ==> #[trigger] is_listed(session_groups(ss, ss.len() as int), i),
{
    lemma_session_groups_well_formed(ss, ss.len() as int);
    lemma_session_groups_cover(ss, ss.len() as int);
}

/// The total of the missing counts of a list of gaps.
pub open spec fn missing_sum(gaps: Seq<SequenceGap>) -> nat
    decreases gaps.len(),
{
    if gaps.len() == 0 {
        0
    } else {
        missing_sum(gaps.drop_last()) + gaps.last().missing_count as nat
    }
}

/// Each gap of a session lies strictly between two sequence numbers that are
/// at least two apart and counts the numbers between them, and the session's
/// missing total is the sum of its gaps.
pub proof fn lemma_gap_accounting<S>(ss: Seq<DatasetSampleRecord<S>>, ps: Seq<int>, k: int)
    requires
        gap_scan(ss, ps, k) is Ok,
    ensures
        ({
            let acc = gap_scan(ss, ps, k)->Ok_0;
            &&& acc.1 == missing_sum(acc.0)
            &&& forall|i: int|
                0 <= i < acc.0.len() ==> #[trigger] acc.0[i].before_sequence > acc.0[i].after_sequence + 1
                    && acc.0[i].missing_count == acc.0[i].before_sequence - acc.0[i].after_sequence - 1
        }),
    decreases k,
{
    if k > 0 {
        lemma_gap_accounting(ss, ps, k - 1);
        let prev = gap_scan(ss, ps, k - 1)->Ok_0;
        let acc = gap_scan(ss, ps, k)->Ok_0;
        if acc.0.len() > prev.0.len() {
            assert(acc.0.drop_last() =~= prev.0);
        }
    }
}

proof fn lemma_increasing_positions_lower(ps: Seq<int>, j: int)
    requires
        0 <= j < ps.len(),
        forall|a: int| 0 <= a < ps.len() ==> 0 <= #[trigger] ps[a],
        forall|a: int, b: int| 0 <= a < b < ps.len() ==> #[trigger] ps[a] < #[trigger] ps[b],
    ensures
        ps[j] >= j,
    decreases j,
{
    if j > 0 {
        lemma_increasing_positions_lower(ps, j - 1);
        assert(ps[j - 1] < ps[j]);
    }
}

/// A gap scan over fewer than 2^32 pairs never overflows: each gap counts
/// fewer than 2^32 missing numbers.
proof fn lemma_gap_scan_bounded<S>(ss: Seq<DatasetSampleRecord<S>>, ps: Seq<int>, k: int)
    requires
        0 <= k < ps.len(),
        k <= 0xFFFF_FFFF,
        forall|j: int| 0 <= j < ps.len() ==> 0 <= #[trigger] ps[j] < ss.len(),
    ensures
        gap_scan(ss, ps, k) is Ok,
        gap_scan(ss, ps, k)->Ok_0.1 <= k * 0xFFFF_FFFF,
    decreases k,
{
    if k > 0 {
        lemma_gap_scan_bounded(ss, ps, k - 1);
        assert((k - 1) * 0xFFFF_FFFF + 0xFFFF_FFFF == k * 0xFFFF_FFFF) by (nonlinear_arith);
        assert(k * 0xFFFF_FFFF <= 0xFFFF_FFFF * 0xFFFF_FFFF) by (nonlinear_arith)
            requires
                k <= 0xFFFF_FFFF,
        ;
    }
}

proof fn lemma_all_sessions_defined<S>(ss: Seq<DatasetSampleRecord<S>>, g: int)
    requires
        ss.len() <= 0xFFFF_FFFF,
        0 <= g <= session_groups(ss, ss.len() as int).len(),
    ensures
        all_sessions(ss, session_groups(ss, ss.len() as int), g) is Ok,
    decreases g,
{
    if g > 0 {
        let gs = session_groups(ss, ss.len() as int);
        lemma_session_groups_well_formed(ss, ss.len() as int);
        lemma_all_sessions_defined(ss, g - 1);
        let ps = gs[g - 1].1;
        assert forall|j: int| 0 <= j < ps.len() implies 0 <= #[trigger] ps[j] < ss.len() by {
            assert(gs[g - 1].1[j] == ps[j]);
        }
        assert forall|a: int, b: int| 0 <= a < b < ps.len() implies #[trigger] ps[a] < #[trigger] ps[b] by {
            assert(gs[g - 1].1[a] == ps[a] && gs[g - 1].1[b] == ps[b]);
        }
        lemma_increasing_positions_lower(ps, ps.len() - 1);
        lemma_gap_scan_bounded(ss, ps, ps.len() - 1);
    }
}

proof fn lemma_gap_scan_error_is_overflow<S>(ss: Seq<DatasetSampleRecord<S>>, ps: Seq<int>, k: int)
    ensures
        gap_scan(ss, ps, k) is Err ==> gap_scan(ss, ps, k)->Err_0 is NumericOverflow,
    decreases k,
{
    if k > 0 {
        lemma_gap_scan_error_is_overflow(ss, ps, k - 1);
    }
}

proof fn lemma_all_sessions_error_is_overflow<S>(
    ss: Seq<DatasetSampleRecord<S>>,
    gs: Seq<(Seq<char>, Seq<int>)>,
    g: int,
)
    ensures
        all_sessions(ss, gs, g) is Err ==> all_sessions(ss, gs, g)->Err_0 is NumericOverflow,
    decreases g,
{
    if g > 0 {
        lemma_all_sessions_error_is_overflow(ss, gs, g - 1);
        lemma_gap_scan_error_is_overflow(ss, gs[g - 1].1, gs[g - 1].1.len() - 1);
    }
}

/// Every well-formed dataset v1 (see `well_formed_dataset`) is accepted and
/// analyzed: its analysis counts all its sample lines; it is complete
/// exactly when it ends with a summary that says `completed`; its warnings
/// are the interrupted-file warning when there is no summary, the
/// ended-early warning when the summary says `completed=false`, and none
/// otherwise; and its dropped count is the summary's
/// `recorderDroppedSamples`, or 0 without a summary. The one way the
/// analysis can still fail is a missing-sequence total that overflows
/// `u64`, which takes at least 2^32 samples.
pub proof fn lemma_well_formed_dataset_analyzed<S>(lines: Seq<DatasetLine<S>>)
    requires
        well_formed_dataset(lines),
    ensures
        spec_validate_dataset(lines) is Ok,
        ({
            let st = spec_validate_dataset(lines)->Ok_0;
            let summary = final_summary(lines);
            let analysis = structure_analysis(st.metadata->0, st.samples, st.summary);
            &&& st.samples.len() == sample_line_count(lines)
            &&& st.summary == summary
            &&& analysis is Err ==> analysis->Err_0 is NumericOverflow && sample_line_count(lines)
                > 0xFFFF_FFFF
            &&& analysis is Ok ==> {
                &&& analysis->Ok_0.sample_count == sample_line_count(lines)
                &&& analysis->Ok_0.is_complete == (summary is Some && summary.unwrap().1.completed)
                &&& analysis->Ok_0.recorder_dropped_samples == (if summary is Some {
                    summary.unwrap().1.recorder_dropped_samples
                } else {
                    0
                })
                &&& analysis->Ok_0.warnings == (if summary is None {
                    seq![missing_summary_warning()]
                } else if !summary.unwrap().1.completed {
                    seq![incomplete_summary_warning()]
                } else {
                    Seq::<Seq<char>>::empty()
                })
            }
        }),
{
    lemma_well_formed_dataset_validates(lines);
    lemma_validated_intervals_defined(lines);
    let st = spec_validate_dataset(lines)->Ok_0;
    let ss = st.samples;
    let gs = session_groups(ss, ss.len() as int);
    if ss.len() <= 0xFFFF_FFFF {
        lemma_all_sessions_defined(ss, gs.len() as int);
    }
    lemma_all_sessions_error_is_overflow(ss, gs, gs.len() as int);
    assert(summary_check(st.summary, ss.len()) is Ok);
}

/// What the recorder writes the analyzer accepts: a recorder stopped with
/// no sample pending writes a summary that passes the summary cross-check
/// for the samples it wrote, whatever the outcome and duration.
pub proof fn lemma_drained_recorder_summary_accepted(
    counters: DatasetRecorderSnapshot,
    line: usize,
    completed: bool,
    elapsed_micros: u128,
)
    requires
        pending_samples(counters) == 0,
    ensures
        summary_check(
            Some((line, summary_record_of(completed, elapsed_micros, counters))),
            counters.written_samples as nat,
        ) is Ok,
{
}

} // verus!
