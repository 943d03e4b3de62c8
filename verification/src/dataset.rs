//! Motion dataset v1 (NDJSON): record types, the structural validator that
//! walks the decoded lines of a dataset, and the integer part of the offline
//! analysis (sessions, sequence gaps, source/receive intervals).

use vstd::prelude::*;
use crate::protocol::{
    protocol_error_text, spec_validate_header, ProtocolValidationError, SampleHeader,
    MAX_SESSION_ELAPSED_US, PROTOCOL_VERSION,
};
use crate::text::{
    decimal, push_char, push_decimal, push_str, push_zero_padded, str_eq, string_of, trimmed,
    trimmed_string, zero_padded,
};
use crate::timefmt::{
    format_rfc3339, parse_rfc3339, rfc3339_format_result, rfc3339_parse_result, utc_fields, utc_fields_of_unix_seconds,
    MAX_REPRESENTABLE_UNIX_SECONDS, MIN_REPRESENTABLE_UNIX_SECONDS,
};

verus! {

pub const DATASET_FORMAT_VERSION: u8 = 1;
pub const DEFAULT_DATASET_DIRECTORY: &'static str = "artifacts/motion-datasets";
pub const DEFAULT_MOUNTING_CONVENTION: &'static str = "flat_screen_up_portrait_top_toward_vehicle_front";
pub const DEFAULT_RECORDER_QUEUE_CAPACITY: usize = 256;
pub const MAX_ANALYZABLE_RECEIVED_ELAPSED_US: u64 = 9_223_372_036_854_775_807;

/// The controlled capture scenarios of the dataset v1 checklist.
#[derive(Debug, Clone, Copy, PartialEq, Eq, Structural)]
pub enum RecordingScenario {
    Stationary,
    RollRight,
    RollLeft,
    PitchFrontDown,
    PitchFrontUp,
    YawClockwise,
    YawCounterclockwise,
    LinearForward,
    LinearBackward,
}

/// The file-name-safe name of a scenario.
pub open spec fn scenario_name(s: RecordingScenario) -> Seq<char> {
    match s {
        RecordingScenario::Stationary => "stationary"@,
        RecordingScenario::RollRight => "roll_right"@,
        RecordingScenario::RollLeft => "roll_left"@,
        RecordingScenario::PitchFrontDown => "pitch_front_down"@,
        RecordingScenario::PitchFrontUp => "pitch_front_up"@,
        RecordingScenario::YawClockwise => "yaw_clockwise"@,
        RecordingScenario::YawCounterclockwise => "yaw_counterclockwise"@,
        RecordingScenario::LinearForward => "linear_forward"@,
        RecordingScenario::LinearBackward => "linear_backward"@,
    }
}

/// The message given for a scenario name that is not one of the nine.
pub open spec fn unknown_scenario_text() -> Seq<char> {
    "scenario must be one of: stationary, roll_right, roll_left, pitch_front_down, pitch_front_up, yaw_clockwise, yaw_counterclockwise, linear_forward, linear_backward"@
}

impl RecordingScenario {
    pub fn as_str(self) -> (r: &'static str)
        ensures
            r@ == scenario_name(self),
    {
        match self {
            RecordingScenario::Stationary => "stationary",
            RecordingScenario::RollRight => "roll_right",
            RecordingScenario::RollLeft => "roll_left",
            RecordingScenario::PitchFrontDown => "pitch_front_down",
            RecordingScenario::PitchFrontUp => "pitch_front_up",
            RecordingScenario::YawClockwise => "yaw_clockwise",
            RecordingScenario::YawCounterclockwise => "yaw_counterclockwise",
            RecordingScenario::LinearForward => "linear_forward",
            RecordingScenario::LinearBackward => "linear_backward",
        }
    }
}

/// The scenario a name denotes, if any.
pub open spec fn scenario_of_name(name: Seq<char>) -> Option<RecordingScenario> {
    if name == "stationary"@ {
        Some(RecordingScenario::Stationary)
    } else if name == "roll_right"@ {
        Some(RecordingScenario::RollRight)
    } else if name == "roll_left"@ {
        Some(RecordingScenario::RollLeft)
    } else if name == "pitch_front_down"@ {
        Some(RecordingScenario::PitchFrontDown)
    } else if name == "pitch_front_up"@ {
        Some(RecordingScenario::PitchFrontUp)
    } else if name == "yaw_clockwise"@ {
        Some(RecordingScenario::YawClockwise)
    } else if name == "yaw_counterclockwise"@ {
        Some(RecordingScenario::YawCounterclockwise)
    } else if name == "linear_forward"@ {
        Some(RecordingScenario::LinearForward)
    } else if name == "linear_backward"@ {
        Some(RecordingScenario::LinearBackward)
    } else {
        None
    }
}

/// Reads a scenario from its name.
pub fn parse_scenario(text: &str) -> (r: Result<RecordingScenario, String>)
    ensures
        match scenario_of_name(text@) {
            Some(s) => r == Ok::<RecordingScenario, String>(s) && scenario_name(s) == text@,
            None => r matches Err(m) && m@ == unknown_scenario_text() && (forall|s: RecordingScenario|
                scenario_name(s) != text@),
        },
{
    if str_eq(text, "stationary") {
        Ok(RecordingScenario::Stationary)
    } else if str_eq(text, "roll_right") {
        Ok(RecordingScenario::RollRight)
    } else if str_eq(text, "roll_left") {
        Ok(RecordingScenario::RollLeft)
    } else if str_eq(text, "pitch_front_down") {
        Ok(RecordingScenario::PitchFrontDown)
    } else if str_eq(text, "pitch_front_up") {
        Ok(RecordingScenario::PitchFrontUp)
    } else if str_eq(text, "yaw_clockwise") {
        Ok(RecordingScenario::YawClockwise)
    } else if str_eq(text, "yaw_counterclockwise") {
        Ok(RecordingScenario::YawCounterclockwise)
    } else if str_eq(text, "linear_forward") {
        Ok(RecordingScenario::LinearForward)
    } else if str_eq(text, "linear_backward") {
        Ok(RecordingScenario::LinearBackward)
    } else {
        Err(string_of(
            "scenario must be one of: stationary, roll_right, roll_left, pitch_front_down, pitch_front_up, yaw_clockwise, yaw_counterclockwise, linear_forward, linear_backward",
        ))
    }
}

impl std::str::FromStr for RecordingScenario {
    type Err = String;

    fn from_str(value: &str) -> (r: Result<RecordingScenario, String>)
        ensures
            match scenario_of_name(value@) {
                Some(s) => r == Ok::<RecordingScenario, String>(s),
                None => r matches Err(m) && m@ == unknown_scenario_text(),
            },
    {
        parse_scenario(value)
    }
}

#[derive(Debug, Clone, Copy, PartialEq, Eq, Structural)]
pub enum DatasetRecordType {
    Metadata,
    Sample,
    Summary,
}

/// The first line of a dataset.
#[derive(Debug, Clone)]
pub struct DatasetMetadataRecord {
    pub record_type: DatasetRecordType,
    pub dataset_format_version: u8,
    pub protocol_version: u8,
    pub scenario: RecordingScenario,
    pub started_at_utc: String,
    pub expected_sample_rate_hz: u16,
    pub mounting_convention: String,
    pub notes: Option<String>,
}

/// The closing line written by a clean finalization of the recorder.
#[derive(Debug, Clone, Copy, PartialEq, Eq, Structural)]
pub struct DatasetSummaryRecord {
    pub record_type: DatasetRecordType,
    pub completed: bool,
    pub duration_us: u64,
    pub received_accepted_samples: u64,
    pub written_samples: u64,
    pub recorder_dropped_samples: u64,
}

/// One accepted sample of a dataset: its receive clock, the fields the
/// analyzer reads, the full sample payload and the line it came from.
#[derive(Debug, Clone)]
pub struct DatasetSampleRecord<S> {
    pub record_type: DatasetRecordType,
    pub received_elapsed_us: u64,
    pub header: SampleHeader,
    pub sample: S,
    pub line_number: usize,
}

#[verifier::external_type_specification]
#[verifier::external_body]
pub struct ExIoError(std::io::Error);

/// Why a dataset could not be validated or analyzed.
#[derive(Debug)]
pub enum DatasetAnalysisError {
    Io(std::io::Error),
    MissingMetadata,
    InvalidMetadata { line: usize, message: String },
    UnsupportedDatasetVersion(u8),
    InvalidDatasetStructure { line: usize, message: String },
    InvalidJsonLine { line: usize, message: String },
    InvalidReceivedElapsedUs { line: usize },
    ReceivedElapsedUsOutOfRange { line: usize, value: u64, max_supported: u64 },
    InvalidMotionSample { line: usize, message: String },
    ReceivedElapsedRegression {
        line: usize,
        previous_line: usize,
        previous_received_elapsed_us: u64,
        current_received_elapsed_us: u64,
    },
    SessionElapsedRegression {
        line: usize,
        previous_line: usize,
        session_id: String,
        previous_session_elapsed_us: u64,
        current_session_elapsed_us: u64,
    },
    InvalidSummary { line: usize, message: String },
    NumericOverflow { line: usize, message: String },
    NoSamples,
}

/// The abstract value of a `DatasetAnalysisError`, with texts as character sequences.
pub enum DatasetError {
    Io,
    MissingMetadata,
    InvalidMetadata { line: usize, message: Seq<char> },
    UnsupportedDatasetVersion(u8),
    InvalidDatasetStructure { line: usize, message: Seq<char> },
    InvalidJsonLine { line: usize, message: Seq<char> },
    InvalidReceivedElapsedUs { line: usize },
    ReceivedElapsedUsOutOfRange { line: usize, value: u64, max_supported: u64 },
    InvalidMotionSample { line: usize, message: Seq<char> },
    ReceivedElapsedRegression {
        line: usize,
        previous_line: usize,
        previous_received_elapsed_us: u64,
        current_received_elapsed_us: u64,
    },
    SessionElapsedRegression {
        line: usize,
        previous_line: usize,
        session_id: Seq<char>,
        previous_session_elapsed_us: u64,
        current_session_elapsed_us: u64,
    },
    InvalidSummary { line: usize, message: Seq<char> },
    NumericOverflow { line: usize, message: Seq<char> },
    NoSamples,
}

impl View for DatasetAnalysisError {
    type V = DatasetError;

    open spec fn view(&self) -> DatasetError {
        match self {
            DatasetAnalysisError::Io(_) => DatasetError::Io,
            DatasetAnalysisError::MissingMetadata => DatasetError::MissingMetadata,
            DatasetAnalysisError::InvalidMetadata { line, message } => DatasetError::InvalidMetadata {
                line: *line,
                message: message@,
            },
            DatasetAnalysisError::UnsupportedDatasetVersion(v) => DatasetError::UnsupportedDatasetVersion(*v),
            DatasetAnalysisError::InvalidDatasetStructure { line, message } =>
                DatasetError::InvalidDatasetStructure { line: *line, message: message@ },
            DatasetAnalysisError::InvalidJsonLine { line, message } => DatasetError::InvalidJsonLine {
                line: *line,
                message: message@,
            },
            DatasetAnalysisError::InvalidReceivedElapsedUs { line } =>
                DatasetError::InvalidReceivedElapsedUs { line: *line },
            DatasetAnalysisError::ReceivedElapsedUsOutOfRange { line, value, max_supported } =>
                DatasetError::ReceivedElapsedUsOutOfRange {
                line: *line,
                value: *value,
                max_supported: *max_supported,
            },
            DatasetAnalysisError::InvalidMotionSample { line, message } =>
                DatasetError::InvalidMotionSample { line: *line, message: message@ },
            DatasetAnalysisError::ReceivedElapsedRegression {
                line,
                previous_line,
                previous_received_elapsed_us,
                current_received_elapsed_us,
            } => DatasetError::ReceivedElapsedRegression {
                line: *line,
                previous_line: *previous_line,
                previous_received_elapsed_us: *previous_received_elapsed_us,
                current_received_elapsed_us: *current_received_elapsed_us,
            },
            DatasetAnalysisError::SessionElapsedRegression {
                line,
                previous_line,
                session_id,
                previous_session_elapsed_us,
                current_session_elapsed_us,
            } => DatasetError::SessionElapsedRegression {
                line: *line,
                previous_line: *previous_line,
                session_id: session_id@,
                previous_session_elapsed_us: *previous_session_elapsed_us,
                current_session_elapsed_us: *current_session_elapsed_us,
            },
            DatasetAnalysisError::InvalidSummary { line, message } => DatasetError::InvalidSummary {
                line: *line,
                message: message@,
            },
            DatasetAnalysisError::NumericOverflow { line, message } => DatasetError::NumericOverflow {
                line: *line,
                message: message@,
            },
            DatasetAnalysisError::NoSamples => DatasetError::NoSamples,
        }
    }
}

/// A decoded sample line: the fields the validator reads, the outcome of
/// the payload checks done by the decoder (vector ranges), and the payload.
#[derive(Debug)]
pub struct DecodedSample<S> {
    pub header: SampleHeader,
    pub payload_check: Result<(), String>,
    pub sample: S,
}

/// What one non-blank line of a dataset holds once decoded from JSON.
#[derive(Debug)]
pub enum DatasetLineContent<S> {
    /// Not JSON, or no string `recordType`; carries the decoder's message.
    Malformed { message: String },
    /// A `recordType` other than metadata, sample or summary.
    UnsupportedRecordType { record_type: String },
    /// A metadata line, or the decoder's message when its fields are invalid.
    Metadata { record: Result<DatasetMetadataRecord, String> },
    /// A sample line: `receivedElapsedUs` when it is an unsigned integer, and
    /// the decoded sample or the decoder's message.
    Sample { received_elapsed_us: Option<u64>, sample: Result<DecodedSample<S>, String> },
    /// A summary line, or the decoder's message when its fields are invalid.
    Summary { record: Result<DatasetSummaryRecord, String> },
}

/// A non-blank line of a dataset with its 1-based line number.
#[derive(Debug)]
pub struct DatasetLine<S> {
    pub line_number: usize,
    pub content: DatasetLineContent<S>,
}

/// A dataset whose structure has been validated.
#[derive(Debug, Clone)]
pub struct ValidatedDataset<S> {
    pub metadata: DatasetMetadataRecord,
    pub samples: Vec<DatasetSampleRecord<S>>,
    pub summary: Option<(usize, DatasetSummaryRecord)>,
}

/// The state of the validator between lines.
pub struct ValidationState<S> {
    pub metadata: Option<DatasetMetadataRecord>,
    pub samples: Seq<DatasetSampleRecord<S>>,
    pub summary: Option<(usize, DatasetSummaryRecord)>,
    pub previous_received: Option<(usize, u64)>,
    pub session_last: Map<Seq<char>, (usize, u64)>,
}

pub open spec fn initial_validation_state<S>() -> ValidationState<S> {
    ValidationState {
        metadata: None,
        samples: Seq::empty(),
        summary: None,
        previous_received: None,
        session_last: Map::empty(),
    }
}

pub open spec fn structure_error<S>(line: usize, message: Seq<char>) -> Result<
    ValidationState<S>,
    DatasetError,
> {
    Err(DatasetError::InvalidDatasetStructure { line, message })
}

/// The validator's step on a metadata line.
pub open spec fn step_metadata<S>(
    st: ValidationState<S>,
    n: usize,
    record: Result<DatasetMetadataRecord, String>,
) -> Result<ValidationState<S>, DatasetError> {
    if st.summary.is_some() {
        structure_error(n, "no records are allowed after summary"@)
    } else if st.metadata.is_some() {
        structure_error(n, "metadata record must appear exactly once"@)
    } else if n != 1 {
        Err(DatasetError::MissingMetadata)
    } else {
        match record {
            Err(m) => Err(DatasetError::InvalidMetadata { line: n, message: m@ }),
            Ok(r) => if r.dataset_format_version != DATASET_FORMAT_VERSION {
                Err(DatasetError::UnsupportedDatasetVersion(r.dataset_format_version))
            } else if r.protocol_version != PROTOCOL_VERSION {
                Err(
                    DatasetError::InvalidMetadata {
                        line: n,
                        message: "protocolVersion must be 1, got "@ + decimal(
                            r.protocol_version as nat,
                        ),
                    },
                )
            } else {
                match rfc3339_parse_result(r.started_at_utc@) {
                    Err(e) => Err(
                        DatasetError::InvalidMetadata {
                            line: n,
                            message: "startedAtUtc must be RFC 3339: "@ + e,
                        },
                    ),
                    Ok(_) => Ok(ValidationState { metadata: Some(r), ..st }),
                }
            },
        }
    }
}

/// The validator's step on a sample line.
pub open spec fn step_sample<S>(
    st: ValidationState<S>,
    n: usize,
    received: Option<u64>,
    decoded: Result<DecodedSample<S>, String>,
) -> Result<ValidationState<S>, DatasetError> {
    if st.metadata.is_none() {
        Err(DatasetError::MissingMetadata)
    } else if st.summary.is_some() {
        structure_error(n, "sample record is not allowed after summary"@)
    } else {
        match received {
            None => Err(DatasetError::InvalidReceivedElapsedUs { line: n }),
            Some(v) => if v > MAX_ANALYZABLE_RECEIVED_ELAPSED_US {
                Err(
                    DatasetError::ReceivedElapsedUsOutOfRange {
                        line: n,
                        value: v,
                        max_supported: MAX_ANALYZABLE_RECEIVED_ELAPSED_US,
                    },
                )
            } else if st.previous_received is Some && v < st.previous_received.unwrap().1 {
                Err(
                    DatasetError::ReceivedElapsedRegression {
                        line: n,
                        previous_line: st.previous_received.unwrap().0,
                        previous_received_elapsed_us: st.previous_received.unwrap().1,
                        current_received_elapsed_us: v,
                    },
                )
            } else {
                match decoded {
                    Err(m) => Err(DatasetError::InvalidMotionSample { line: n, message: m@ }),
                    Ok(d) => {
                        let h = d.header;
                        let sid = h.session_id@;
                        match spec_validate_header(sid.len(), h.session_elapsed_us) {
                            Err(e) => Err(
                                DatasetError::InvalidMotionSample {
                                    line: n,
                                    message: protocol_error_text(e),
                                },
                            ),
                            Ok(_) => match d.payload_check {
                                Err(m) => Err(
                                    DatasetError::InvalidMotionSample { line: n, message: m@ },
                                ),
                                Ok(_) => if st.session_last.contains_key(sid)
                                    && h.session_elapsed_us < st.session_last[sid].1 {
                                    Err(
                                        DatasetError::SessionElapsedRegression {
                                            line: n,
                                            previous_line: st.session_last[sid].0,
                                            session_id: sid,
                                            previous_session_elapsed_us: st.session_last[sid].1,
                                            current_session_elapsed_us: h.session_elapsed_us,
                                        },
                                    )
                                } else {
                                    Ok(
                                        ValidationState {
                                            samples: st.samples.push(
                                                DatasetSampleRecord {
                                                    record_type: DatasetRecordType::Sample,
                                                    received_elapsed_us: v,
                                                    header: h,
                                                    sample: d.sample,
                                                    line_number: n,
                                                },
                                            ),
                                            previous_received: Some((n, v)),
                                            session_last: st.session_last.insert(
                                                sid,
                                                (n, h.session_elapsed_us),
                                            ),
                                            ..st
                                        },
                                    )
                                },
                            },
                        }
                    },
                }
            },
        }
    }
}

/// The validator's step on a summary line.
pub open spec fn step_summary<S>(
    st: ValidationState<S>,
    n: usize,
    record: Result<DatasetSummaryRecord, String>,
) -> Result<ValidationState<S>, DatasetError> {
    if st.metadata.is_none() {
        Err(DatasetError::MissingMetadata)
    } else if st.summary.is_some() {
        structure_error(n, "summary record must appear at most once"@)
    } else if st.samples.len() == 0 {
        structure_error(n, "summary requires at least one preceding sample record"@)
    } else {
        match record {
            Err(m) => Err(DatasetError::InvalidJsonLine { line: n, message: m@ }),
            Ok(r) => Ok(ValidationState { summary: Some((n, r)), ..st }),
        }
    }
}

/// The validator's step on one decoded line.
pub open spec fn validation_step<S>(st: ValidationState<S>, line: DatasetLine<S>) -> Result<
    ValidationState<S>,
    DatasetError,
> {
    let n = line.line_number;
    match line.content {
        DatasetLineContent::Malformed { message } => Err(
            DatasetError::InvalidJsonLine { line: n, message: message@ },
        ),
        DatasetLineContent::UnsupportedRecordType { record_type } => Err(
            DatasetError::InvalidJsonLine {
                line: n,
                message: "unsupported recordType: "@ + record_type@,
            },
        ),
        DatasetLineContent::Metadata { record } => step_metadata(st, n, record),
        DatasetLineContent::Sample { received_elapsed_us, sample } => step_sample(
            st,
            n,
            received_elapsed_us,
            sample,
        ),
        DatasetLineContent::Summary { record } => step_summary(st, n, record),
    }
}

/// The validator run over the lines in order from state `st`; it stops at the first error.
pub open spec fn validation_run<S>(st: ValidationState<S>, lines: Seq<DatasetLine<S>>) -> Result<
    ValidationState<S>,
    DatasetError,
>
    decreases lines.len(),
{
    if lines.len() == 0 {
        Ok(st)
    } else {
        match validation_step(st, lines[0]) {
            Err(e) => Err(e),
            Ok(next) => validation_run(next, lines.drop_first()),
        }
    }
}

/// The outcome of validating a whole dataset.
pub open spec fn spec_validate_dataset<S>(lines: Seq<DatasetLine<S>>) -> Result<
    ValidationState<S>,
    DatasetError,
> {
    match validation_run(initial_validation_state(), lines) {
        Err(e) => Err(e),
        Ok(st) => if st.metadata.is_none() {
            Err(DatasetError::MissingMetadata)
        } else if st.samples.len() == 0 {
            Err(DatasetError::NoSamples)
        } else {
            Ok(st)
        },
    }
}


/// The last (line, sessionElapsedUs) seen for one session.
struct SessionClock {
    session_id: String,
    line: usize,
    elapsed_us: u64,
}

/// The executable state of the validator.
struct Validator<S> {
    metadata: Option<DatasetMetadataRecord>,
    samples: Vec<DatasetSampleRecord<S>>,
    summary: Option<(usize, DatasetSummaryRecord)>,
    previous_received: Option<(usize, u64)>,
    clocks: Vec<SessionClock>,
    session_last: Ghost<Map<Seq<char>, (usize, u64)>>,
}

impl<S> Validator<S> {
    spec fn view(&self) -> ValidationState<S> {
        ValidationState {
            metadata: self.metadata,
            samples: self.samples@,
            summary: self.summary,
            previous_received: self.previous_received,
            session_last: self.session_last@,
        }
    }

    spec fn wf(&self) -> bool {
        let m = self.session_last@;
        &&& forall|i: int|
            0 <= i < self.clocks@.len() ==> #[trigger] m.contains_key(self.clocks@[i].session_id@)
                && m[self.clocks@[i].session_id@] == (
                self.clocks@[i].line,
                self.clocks@[i].elapsed_us,
            )
        &&& forall|k: Seq<char>|
            #[trigger] m.contains_key(k) ==> exists|i: int|
                0 <= i < self.clocks@.len() && self.clocks@[i].session_id@ == k
        &&& forall|i: int, j: int|
            0 <= i < self.clocks@.len() && 0 <= j < self.clocks@.len() && i != j
                ==> self.clocks@[i].session_id@ != self.clocks@[j].session_id@
    }

    fn new() -> (v: Validator<S>)
        ensures
            v.view() == initial_validation_state::<S>(),
            v.wf(),
    {
        Validator {
            metadata: None,
            samples: Vec::new(),
            summary: None,
            previous_received: None,
            clocks: Vec::new(),
            session_last: Ghost(Map::empty()),
        }
    }

    /// The index of the clock of `session_id`, if the session was seen.
    fn find_clock(&self, session_id: &String) -> (r: Option<usize>)
        requires
            self.wf(),
        ensures
            match r {
                Some(i) => i < self.clocks@.len() && self.clocks@[i as int].session_id@
                    == session_id@,
                None => !self.session_last@.contains_key(session_id@),
            },
    {
        let mut i: usize = 0;
        while i < self.clocks.len()
            invariant
                self.wf(),
                i <= self.clocks@.len(),
                forall|k: int| 0 <= k < i ==> self.clocks@[k].session_id@ != session_id@,
            decreases self.clocks@.len() - i,
        {
            if self.clocks[i].session_id == *session_id {
                return Some(i);
            }
            i = i + 1;
        }
        None
    }

    fn step_metadata(self, n: usize, record: Result<DatasetMetadataRecord, String>) -> (r: Result<
        Validator<S>,
        DatasetAnalysisError,
    >)
        requires
            self.wf(),
        ensures
            match step_metadata(self.view(), n, record) {
                Ok(st) => r matches Ok(w) && w.wf() && w.view() == st,
                Err(e) => r matches Err(x) && x@ == e,
            },
    {
        let mut s = self;
        if s.summary.is_some() {
            return Err(
                DatasetAnalysisError::InvalidDatasetStructure {
                    line: n,
                    message: string_of("no records are allowed after summary"),
                },
            );
        }
        if s.metadata.is_some() {
            return Err(
                DatasetAnalysisError::InvalidDatasetStructure {
                    line: n,
                    message: string_of("metadata record must appear exactly once"),
                },
            );
        }
        if n != 1 {
            return Err(DatasetAnalysisError::MissingMetadata);
        }
        let parsed = match record {
            Err(m) => {
                return Err(DatasetAnalysisError::InvalidMetadata { line: n, message: m });
            },
            Ok(p) => p,
        };
        if parsed.dataset_format_version != DATASET_FORMAT_VERSION {
            return Err(DatasetAnalysisError::UnsupportedDatasetVersion(parsed.dataset_format_version));
        }
        if parsed.protocol_version != PROTOCOL_VERSION {
            let mut message = string_of("protocolVersion must be 1, got ");
            push_decimal(&mut message, parsed.protocol_version as u64);
            return Err(DatasetAnalysisError::InvalidMetadata { line: n, message });
        }
        match parse_rfc3339(parsed.started_at_utc.as_str()) {
            Err(e) => {
                let mut message = string_of("startedAtUtc must be RFC 3339: ");
                push_str(&mut message, e.as_str());
                return Err(DatasetAnalysisError::InvalidMetadata { line: n, message });
            },
            Ok(_) => {},
        }
        s.metadata = Some(parsed);
        Ok(s)
    }

    fn step_sample(
        self,
        n: usize,
        received: Option<u64>,
        decoded: Result<DecodedSample<S>, String>,
    ) -> (r: Result<Validator<S>, DatasetAnalysisError>)
        requires
            self.wf(),
        ensures
            match step_sample(self.view(), n, received, decoded) {
                Ok(st) => r matches Ok(w) && w.wf() && w.view() == st,
                Err(e) => r matches Err(x) && x@ == e,
            },
    {
        let mut s = self;
        if s.metadata.is_none() {
            return Err(DatasetAnalysisError::MissingMetadata);
        }
        if s.summary.is_some() {
            return Err(
                DatasetAnalysisError::InvalidDatasetStructure {
                    line: n,
                    message: string_of("sample record is not allowed after summary"),
                },
            );
        }
        let v = match received {
            None => {
                return Err(DatasetAnalysisError::InvalidReceivedElapsedUs { line: n });
            },
            Some(v) => v,
        };
        if v > MAX_ANALYZABLE_RECEIVED_ELAPSED_US {
            return Err(
                DatasetAnalysisError::ReceivedElapsedUsOutOfRange {
                    line: n,
                    value: v,
                    max_supported: MAX_ANALYZABLE_RECEIVED_ELAPSED_US,
                },
            );
        }
        if let Some((previous_line, previous_value)) = s.previous_received {
            if v < previous_value {
                return Err(
                    DatasetAnalysisError::ReceivedElapsedRegression {
                        line: n,
                        previous_line,
                        previous_received_elapsed_us: previous_value,
                        current_received_elapsed_us: v,
                    },
                );
            }
        }
        let d = match decoded {
            Err(m) => {
                return Err(DatasetAnalysisError::InvalidMotionSample { line: n, message: m });
            },
            Ok(d) => d,
        };
        match d.header.validate() {
            Err(e) => {
                return Err(DatasetAnalysisError::InvalidMotionSample { line: n, message: e.message() });
            },
            Ok(()) => {},
        }
        match d.payload_check {
            Err(m) => {
                return Err(DatasetAnalysisError::InvalidMotionSample { line: n, message: m });
            },
            Ok(()) => {},
        }
        let found = s.find_clock(&d.header.session_id);
        let elapsed = d.header.session_elapsed_us;
        match found {
            Some(i) => {
                let previous_line = s.clocks[i].line;
                let previous_elapsed = s.clocks[i].elapsed_us;
                if elapsed < previous_elapsed {
                    return Err(
                        DatasetAnalysisError::SessionElapsedRegression {
                            line: n,
                            previous_line,
                            session_id: d.header.session_id.clone(),
                            previous_session_elapsed_us: previous_elapsed,
                            current_session_elapsed_us: elapsed,
                        },
                    );
                }
                let ghost old_clocks = s.clocks@;
                s.clocks.set(
                    i,
                    SessionClock { session_id: d.header.session_id.clone(), line: n, elapsed_us: elapsed },
                );
                proof {
                    s.session_last@ = s.session_last@.insert(d.header.session_id@, (n, elapsed));
                    assert forall|k: Seq<char>| #[trigger]
                        s.session_last@.contains_key(k) implies exists|j: int|
                        0 <= j < s.clocks@.len() && s.clocks@[j].session_id@ == k by {
                        if k == d.header.session_id@ {
                            assert(s.clocks@[i as int].session_id@ == k);
                        } else {
                            let j = choose|j: int|
                                0 <= j < old_clocks.len() && old_clocks[j].session_id@ == k;
                            assert(s.clocks@[j].session_id@ == k);
                        }
                    }
                }
            },
            None => {
                let ghost old_clocks = s.clocks@;
                s.clocks.push(
                    SessionClock { session_id: d.header.session_id.clone(), line: n, elapsed_us: elapsed },
                );
                proof {
                    s.session_last@ = s.session_last@.insert(d.header.session_id@, (n, elapsed));
                    assert forall|k: Seq<char>| #[trigger]
                        s.session_last@.contains_key(k) implies exists|j: int|
                        0 <= j < s.clocks@.len() && s.clocks@[j].session_id@ == k by {
                        if k == d.header.session_id@ {
                            assert(s.clocks@[old_clocks.len() as int].session_id@ == k);
                        } else {
                            let j = choose|j: int|
                                0 <= j < old_clocks.len() && old_clocks[j].session_id@ == k;
                            assert(s.clocks@[j].session_id@ == k);
                        }
                    }
                }
            },
        }
        s.previous_received = Some((n, v));
        s.samples.push(
            DatasetSampleRecord {
                record_type: DatasetRecordType::Sample,
                received_elapsed_us: v,
                header: d.header,
                sample: d.sample,
                line_number: n,
            },
        );
        Ok(s)
    }

    fn step_summary(self, n: usize, record: Result<DatasetSummaryRecord, String>) -> (r: Result<
        Validator<S>,
        DatasetAnalysisError,
    >)
        requires
            self.wf(),
        ensures
            match step_summary(self.view(), n, record) {
                Ok(st) => r matches Ok(w) && w.wf() && w.view() == st,
                Err(e) => r matches Err(x) && x@ == e,
            },
    {
        let mut s = self;
        if s.metadata.is_none() {
            return Err(DatasetAnalysisError::MissingMetadata);
        }
        if s.summary.is_some() {
            return Err(
                DatasetAnalysisError::InvalidDatasetStructure {
                    line: n,
                    message: string_of("summary record must appear at most once"),
                },
            );
        }
        if s.samples.len() == 0 {
            return Err(
                DatasetAnalysisError::InvalidDatasetStructure {
                    line: n,
                    message: string_of("summary requires at least one preceding sample record"),
                },
            );
        }
        match record {
            Err(m) => Err(DatasetAnalysisError::InvalidJsonLine { line: n, message: m }),
            Ok(r) => {
                s.summary = Some((n, r));
                Ok(s)
            },
        }
    }

    fn step(self, line: DatasetLine<S>) -> (r: Result<Validator<S>, DatasetAnalysisError>)
        requires
            self.wf(),
        ensures
            match validation_step(self.view(), line) {
                Ok(st) => r matches Ok(w) && w.wf() && w.view() == st,
                Err(e) => r matches Err(x) && x@ == e,
            },
    {
        let n = line.line_number;
        match line.content {
            DatasetLineContent::Malformed { message } => Err(
                DatasetAnalysisError::InvalidJsonLine { line: n, message },
            ),
            DatasetLineContent::UnsupportedRecordType { record_type } => {
                let mut message = string_of("unsupported recordType: ");
                push_str(&mut message, record_type.as_str());
                Err(DatasetAnalysisError::InvalidJsonLine { line: n, message })
            },
            DatasetLineContent::Metadata { record } => self.step_metadata(n, record),
            DatasetLineContent::Sample { received_elapsed_us, sample } => self.step_sample(
                n,
                received_elapsed_us,
                sample,
            ),
            DatasetLineContent::Summary { record } => self.step_summary(n, record),
        }
    }
}

/// Validates the structure of a dataset given its decoded non-blank lines in
/// file order: metadata first and exactly once, samples with a valid header
/// and non-decreasing receive clock and per-session clock, at most one summary
/// after at least one sample, nothing after the summary.
#[verifier::loop_isolation(false)]
pub fn validate_dataset_lines<S>(lines: Vec<DatasetLine<S>>) -> (r: Result<
    ValidatedDataset<S>,
    DatasetAnalysisError,
>)
    ensures
        match spec_validate_dataset(lines@) {
            Ok(st) => r matches Ok(d) && Some(d.metadata) == st.metadata && d.samples@
                == st.samples && d.summary == st.summary,
            Err(e) => r matches Err(x) && x@ == e,
        },
{
    let ghost all = lines@;
    let mut v: Validator<S> = Validator::new();
    let mut lines = lines;
    while lines.len() > 0
        invariant
            v.wf(),
            validation_run(initial_validation_state(), all) == validation_run(v.view(), lines@),
        decreases lines@.len(),
    {
        let ghost remaining = lines@;
        let line = lines.remove(0);
        proof {
            assert(remaining[0] == line);
            assert(lines@ =~= remaining.drop_first());
        }
        let ghost before = v.view();
        v = match v.step(line) {
            Err(e) => {
                proof {
                    assert(validation_run(before, remaining) == Err::<ValidationState<S>, _>(e@));
                }
                return Err(e);
            },
            Ok(w) => w,
        };
    }
    let metadata = match v.metadata {
        None => {
            return Err(DatasetAnalysisError::MissingMetadata);
        },
        Some(m) => m,
    };
    if v.samples.len() == 0 {
        return Err(DatasetAnalysisError::NoSamples);
    }
    Ok(ValidatedDataset { metadata, samples: v.samples, summary: v.summary })
}

/// The line scanner after the prefix `s` of a text: the non-blank lines
/// completed so far (trimmed, with their 1-based numbers), the number of the
/// current line and the characters of the current line.
pub open spec fn scan_lines(s: Seq<char>) -> (Seq<(int, Seq<char>)>, int, Seq<char>)
    decreases s.len(),
{
    if s.len() == 0 {
        (Seq::empty(), 1, Seq::empty())
    } else {
        let prev = scan_lines(s.drop_last());
        if s.last() == '\n' {
            (emit_line(prev.0, prev.1, prev.2), prev.1 + 1, Seq::empty())
        } else {
            (prev.0, prev.1, prev.2.push(s.last()))
        }
    }
}

/// `out` with line `n` appended, trimmed, unless it is blank.
pub open spec fn emit_line(out: Seq<(int, Seq<char>)>, n: int, line: Seq<char>) -> Seq<
    (int, Seq<char>),
> {
    if trimmed(line).len() > 0 {
        out.push((n, trimmed(line)))
    } else {
        out
    }
}

/// The non-blank lines of a text split at '\n', trimmed, each with its
/// 1-based line number.
pub open spec fn nonblank_lines(s: Seq<char>) -> Seq<(int, Seq<char>)> {
    let st = scan_lines(s);
    emit_line(st.0, st.1, st.2)
}

/// Splits the contents of a dataset file into its non-blank lines, trimmed,
/// with their 1-based line numbers.
pub fn nonblank_lines_of(contents: &str) -> (r: Vec<(usize, String)>)
    requires
        contents@.len() < usize::MAX,
    ensures
        r@.map_values(|p: (usize, String)| (p.0 as int, p.1@)) == nonblank_lines(contents@),
{
    broadcast use vstd::string::axiom_spec_iter;

    let mut out: Vec<(usize, String)> = Vec::new();
    let mut current: Vec<char> = Vec::new();
    let mut line_number: usize = 1;
    for c in it: contents.chars()
        invariant
            contents@.len() < usize::MAX,
            it.seq() == contents@,
            line_number <= it.index() + 1,
            out@.map_values(|p: (usize, String)| (p.0 as int, p.1@)) == scan_lines(
                contents@.take(it.index() as int),
            ).0,
            line_number as int == scan_lines(contents@.take(it.index() as int)).1,
            current@ == scan_lines(contents@.take(it.index() as int)).2,
    {
        let ghost i = it.index() as int;
        proof {
            assert(contents@.take(i + 1).drop_last() =~= contents@.take(i));
            assert(contents@.take(i + 1).last() == c);
        }
        if c == '\n' {
            let text = trimmed_string(&current);
            if !text.as_str().is_empty() {
                let ghost before = out@;
                out.push((line_number, text));
                proof {
                    assert(out@.map_values(|p: (usize, String)| (p.0 as int, p.1@)) =~= before.map_values(
                        |p: (usize, String)| (p.0 as int, p.1@),
                    ).push((line_number as int, text@)));
                }
            } else {
                proof {
                    assert(text@.len() == 0);
                }
            }
            current = Vec::new();
            line_number = line_number + 1;
        } else {
            current.push(c);
        }
    }
    let text = trimmed_string(&current);
    if !text.as_str().is_empty() {
        let ghost before = out@;
        out.push((line_number, text));
        proof {
            assert(out@.map_values(|p: (usize, String)| (p.0 as int, p.1@)) =~= before.map_values(
                |p: (usize, String)| (p.0 as int, p.1@),
            ).push((line_number as int, text@)));
        }
    }
    proof {
        assert(contents@.take(contents@.len() as int) =~= contents@);
    }
    out
}

/// The message of an error, except for `Io`, whose text comes from the operating system.
pub open spec fn dataset_error_text(e: DatasetError) -> Seq<char> {
    match e {
        DatasetError::Io => Seq::empty(),
        DatasetError::MissingMetadata => "dataset metadata record is missing or is not the first line"@,
        DatasetError::InvalidMetadata { line, message } => "invalid metadata at line "@ + decimal(
            line as nat,
        ) + ": "@ + message,
        DatasetError::UnsupportedDatasetVersion(v) => "unsupported datasetFormatVersion: "@
            + decimal(v as nat),
        DatasetError::InvalidDatasetStructure { line, message } =>
            "invalid dataset structure at line "@ + decimal(line as nat) + ": "@ + message,
        DatasetError::InvalidJsonLine { line, message } => "invalid JSON at line "@ + decimal(
            line as nat,
        ) + ": "@ + message,
        DatasetError::InvalidReceivedElapsedUs { line } => "invalid receivedElapsedUs at line "@
            + decimal(line as nat),
        DatasetError::ReceivedElapsedUsOutOfRange { line, value, max_supported } =>
            "receivedElapsedUs at line "@ + decimal(line as nat)
            + " exceeds supported analysis range: value="@ + decimal(value as nat)
            + ", maxSupported="@ + decimal(max_supported as nat),
        DatasetError::InvalidMotionSample { line, message } => "invalid MotionSampleV1 at line "@
            + decimal(line as nat) + ": "@ + message,
        DatasetError::ReceivedElapsedRegression {
            line,
            previous_line,
            previous_received_elapsed_us,
            current_received_elapsed_us,
        } => "receivedElapsedUs regressed at line "@ + decimal(line as nat) + ": previous line "@
            + decimal(previous_line as nat) + " had "@ + decimal(
            previous_received_elapsed_us as nat,
        ) + ", current value is "@ + decimal(current_received_elapsed_us as nat),
        DatasetError::SessionElapsedRegression {
            line,
            previous_line,
            session_id,
            previous_session_elapsed_us,
            current_session_elapsed_us,
        } => "sessionElapsedUs regressed for session "@ + session_id + " at line "@ + decimal(
            line as nat,
        ) + ": previous line "@ + decimal(previous_line as nat) + " had "@ + decimal(
            previous_session_elapsed_us as nat,
        ) + ", current value is "@ + decimal(current_session_elapsed_us as nat),
        DatasetError::InvalidSummary { line, message } => "invalid summary at line "@ + decimal(
            line as nat,
        ) + ": "@ + message,
        DatasetError::NumericOverflow { line, message } =>
            "numeric overflow while analyzing line "@ + decimal(line as nat) + ": "@ + message,
        DatasetError::NoSamples => "dataset does not contain any valid sample records"@,
    }
}

/// The operating system's text for an I/O error (`Display` of `std::io::Error`).
#[verifier::external_body]
fn io_error_text(e: &std::io::Error) -> String {
    e.to_string()
}

fn line_message(prefix: &str, line: usize, rest: &str) -> (r: String)
    ensures
        r@ == prefix@ + decimal(line as nat) + rest@,
{
    let mut m = string_of(prefix);
    push_decimal(&mut m, line as u64);
    push_str(&mut m, rest);
    m
}

impl DatasetAnalysisError {
    /// The human-readable message of the error.
    pub fn message(&self) -> (r: String)
        ensures
            !(self@ is Io) ==> r@ == dataset_error_text(self@),
    {
        match self {
            DatasetAnalysisError::Io(err) => io_error_text(err),
            DatasetAnalysisError::MissingMetadata => string_of(
                "dataset metadata record is missing or is not the first line",
            ),
            DatasetAnalysisError::InvalidMetadata { line, message } => {
                let mut m = line_message("invalid metadata at line ", *line, ": ");
                push_str(&mut m, message.as_str());
                m
            },
            DatasetAnalysisError::UnsupportedDatasetVersion(v) => {
                let mut m = string_of("unsupported datasetFormatVersion: ");
                push_decimal(&mut m, *v as u64);
                m
            },
            DatasetAnalysisError::InvalidDatasetStructure { line, message } => {
                let mut m = line_message("invalid dataset structure at line ", *line, ": ");
                push_str(&mut m, message.as_str());
                m
            },
            DatasetAnalysisError::InvalidJsonLine { line, message } => {
                let mut m = line_message("invalid JSON at line ", *line, ": ");
                push_str(&mut m, message.as_str());
                m
            },
            DatasetAnalysisError::InvalidReceivedElapsedUs { line } => {
                let mut m = string_of("invalid receivedElapsedUs at line ");
                push_decimal(&mut m, *line as u64);
                m
            },
            DatasetAnalysisError::ReceivedElapsedUsOutOfRange { line, value, max_supported } => {
                let mut m = line_message(
                    "receivedElapsedUs at line ",
                    *line,
                    " exceeds supported analysis range: value=",
                );
                push_decimal(&mut m, *value);
                push_str(&mut m, ", maxSupported=");
                push_decimal(&mut m, *max_supported);
                m
            },
            DatasetAnalysisError::InvalidMotionSample { line, message } => {
                let mut m = line_message("invalid MotionSampleV1 at line ", *line, ": ");
                push_str(&mut m, message.as_str());
                m
            },
            DatasetAnalysisError::ReceivedElapsedRegression {
                line,
                previous_line,
                previous_received_elapsed_us,
                current_received_elapsed_us,
            } => {
                let mut m = line_message("receivedElapsedUs regressed at line ", *line, ": previous line ");
                push_decimal(&mut m, *previous_line as u64);
                push_str(&mut m, " had ");
                push_decimal(&mut m, *previous_received_elapsed_us);
                push_str(&mut m, ", current value is ");
                push_decimal(&mut m, *current_received_elapsed_us);
                m
            },
            DatasetAnalysisError::SessionElapsedRegression {
                line,
                previous_line,
                session_id,
                previous_session_elapsed_us,
                current_session_elapsed_us,
            } => {
                let mut m = string_of("sessionElapsedUs regressed for session ");
                push_str(&mut m, session_id.as_str());
                push_str(&mut m, " at line ");
                push_decimal(&mut m, *line as u64);
                push_str(&mut m, ": previous line ");
                push_decimal(&mut m, *previous_line as u64);
                push_str(&mut m, " had ");
                push_decimal(&mut m, *previous_session_elapsed_us);
                push_str(&mut m, ", current value is ");
                push_decimal(&mut m, *current_session_elapsed_us);
                m
            },
            DatasetAnalysisError::InvalidSummary { line, message } => {
                let mut m = line_message("invalid summary at line ", *line, ": ");
                push_str(&mut m, message.as_str());
                m
            },
            DatasetAnalysisError::NumericOverflow { line, message } => {
                let mut m = line_message("numeric overflow while analyzing line ", *line, ": ");
                push_str(&mut m, message.as_str());
                m
            },
            DatasetAnalysisError::NoSamples => string_of(
                "dataset does not contain any valid sample records",
            ),
        }
    }
}

/// The facts about the accepted samples that every state of the validator
/// keeps: both clocks are in range, the receive clock never goes back, and
/// the session clock never goes back within a session.
pub open spec fn clocks_ordered<S>(ss: Seq<DatasetSampleRecord<S>>) -> bool {
    &&& forall|i: int|
        0 <= i < ss.len() ==> #[trigger] ss[i].received_elapsed_us <= MAX_ANALYZABLE_RECEIVED_ELAPSED_US
            && ss[i].header.session_elapsed_us <= MAX_SESSION_ELAPSED_US
    &&& forall|i: int, j: int|
        0 <= i < j < ss.len() ==> #[trigger] ss[i].received_elapsed_us
            <= #[trigger] ss[j].received_elapsed_us
    &&& forall|i: int, j: int|
        0 <= i < j < ss.len() && #[trigger] ss[i].header.session_id@ == #[trigger] ss[j].header.session_id@
            ==> ss[i].header.session_elapsed_us <= ss[j].header.session_elapsed_us
}

/// `clocks_ordered`, and the bookkeeping that lets the next step keep it.
pub open spec fn validation_invariant<S>(st: ValidationState<S>) -> bool {
    let ss = st.samples;
    &&& clocks_ordered(ss)
    &&& ss.len() > 0 ==> st.previous_received is Some
    &&& forall|i: int|
        0 <= i < ss.len() ==> #[trigger] ss[i].received_elapsed_us <= st.previous_received.unwrap().1
    &&& forall|i: int|
        0 <= i < ss.len() ==> st.session_last.contains_key(#[trigger] ss[i].header.session_id@)
            && ss[i].header.session_elapsed_us <= st.session_last[ss[i].header.session_id@].1
}

proof fn lemma_step_keeps_invariant<S>(st: ValidationState<S>, line: DatasetLine<S>)
    requires
        validation_invariant(st),
        validation_step(st, line) is Ok,
    ensures
        validation_invariant(validation_step(st, line)->Ok_0),
{
    let next = validation_step(st, line)->Ok_0;
    if next.samples != st.samples {
        let ss = st.samples;
        let n = ss.len();
        let ns = next.samples;
        assert(ns.len() == n + 1);
        assert(ns.drop_last() =~= ss);
        let new = ns[n as int];
        assert(next.previous_received == Some((new.line_number, new.received_elapsed_us)));
        assert(next.session_last == st.session_last.insert(
            new.header.session_id@,
            (new.line_number, new.header.session_elapsed_us),
        ));
        assert forall|i: int, j: int| 0 <= i < j < ns.len() implies #[trigger] ns[i].received_elapsed_us
            <= #[trigger] ns[j].received_elapsed_us by {
            if j == n {
                assert(ns[i] == ss[i]);
            } else {
                assert(ns[i] == ss[i] && ns[j] == ss[j]);
            }
        }
        assert forall|i: int, j: int|
            0 <= i < j < ns.len() && #[trigger] ns[i].header.session_id@
                == #[trigger] ns[j].header.session_id@ implies ns[i].header.session_elapsed_us
            <= ns[j].header.session_elapsed_us by {
            if j == n {
                assert(ns[i] == ss[i]);
                assert(st.session_last.contains_key(ss[i].header.session_id@));
            } else {
                assert(ns[i] == ss[i] && ns[j] == ss[j]);
            }
        }
        assert forall|i: int| 0 <= i < ns.len() implies #[trigger] ns[i].received_elapsed_us
            <= MAX_ANALYZABLE_RECEIVED_ELAPSED_US && ns[i].header.session_elapsed_us
            <= MAX_SESSION_ELAPSED_US by {
            if i < n {
                assert(ns[i] == ss[i]);
            }
        }
        assert forall|i: int| 0 <= i < ns.len() implies #[trigger] ns[i].received_elapsed_us
            <= next.previous_received.unwrap().1 by {
            if i < n {
                assert(ns[i] == ss[i]);
            }
        }
        assert forall|i: int| 0 <= i < ns.len() implies next.session_last.contains_key(
            #[trigger] ns[i].header.session_id@,
        ) && ns[i].header.session_elapsed_us
            <= next.session_last[ns[i].header.session_id@].1 by {
            if i < n {
                assert(ns[i] == ss[i]);
                assert(st.session_last.contains_key(ss[i].header.session_id@));
            }
        }
    }
}

proof fn lemma_run_keeps_invariant<S>(st: ValidationState<S>, lines: Seq<DatasetLine<S>>)
    requires
        validation_invariant(st),
        validation_run(st, lines) is Ok,
    ensures
        validation_invariant(validation_run(st, lines)->Ok_0),
    decreases lines.len(),
{
    if lines.len() > 0 {
        lemma_step_keeps_invariant(st, lines[0]);
        lemma_run_keeps_invariant(validation_step(st, lines[0])->Ok_0, lines.drop_first());
    }
}

/// In every dataset the validator accepts, both clocks are in range, the
/// receive clock never goes back from one sample to the next, and the
/// session clock never goes back within a session.
pub proof fn lemma_validated_clocks_ordered<S>(lines: Seq<DatasetLine<S>>)
    requires
        spec_validate_dataset(lines) is Ok,
    ensures
        clocks_ordered(spec_validate_dataset(lines)->Ok_0.samples),
{
    lemma_run_keeps_invariant(initial_validation_state(), lines);
}

/// The position of the last sample of session `sid` among `ss`, if any.
pub open spec fn last_of_session<S>(ss: Seq<DatasetSampleRecord<S>>, sid: Seq<char>) -> Option<int>
    decreases ss.len(),
{
    if ss.len() == 0 {
        None
    } else if ss.last().header.session_id@ == sid {
        Some(ss.len() - 1)
    } else {
        last_of_session(ss.drop_last(), sid)
    }
}

proof fn lemma_last_of_session_in_range<S>(ss: Seq<DatasetSampleRecord<S>>, sid: Seq<char>)
    ensures
        last_of_session(ss, sid) matches Some(i) ==> 0 <= i < ss.len()
            && ss[i].header.session_id@ == sid,
    decreases ss.len(),
{
    if ss.len() > 0 && ss.last().header.session_id@ != sid {
        lemma_last_of_session_in_range(ss.drop_last(), sid);
    }
}

/// The validator's memory of the previous sample and of the last sample of
/// each session is that of the samples it accepted.
spec fn validation_bookkeeping<S>(st: ValidationState<S>) -> bool {
    let ss = st.samples;
    &&& st.previous_received == (if ss.len() > 0 {
        Some((ss.last().line_number, ss.last().received_elapsed_us))
    } else {
        None
    })
    &&& forall|sid: Seq<char>|
        #[trigger] st.session_last.contains_key(sid) == (last_of_session(ss, sid) is Some)
    &&& forall|sid: Seq<char>|
        #[trigger] st.session_last.contains_key(sid) ==> st.session_last[sid] == (
            ss[last_of_session(ss, sid)->0].line_number,
            ss[last_of_session(ss, sid)->0].header.session_elapsed_us,
        )
}

proof fn lemma_step_keeps_bookkeeping<S>(st: ValidationState<S>, line: DatasetLine<S>)
    requires
        validation_bookkeeping(st),
        validation_step(st, line) is Ok,
    ensures
        validation_bookkeeping(validation_step(st, line)->Ok_0),
{
    let next = validation_step(st, line)->Ok_0;
    if next.samples != st.samples {
        let ss = st.samples;
        let ns = next.samples;
        let n = ss.len();
        assert(ns.len() == n + 1);
        assert(ns.drop_last() =~= ss);
        let new = ns[n as int];
        let sid0 = new.header.session_id@;
        assert(next.session_last == st.session_last.insert(
            sid0,
            (new.line_number, new.header.session_elapsed_us),
        ));
        assert forall|sid: Seq<char>| #[trigger] next.session_last.contains_key(sid) == (last_of_session(
            ns,
            sid,
        ) is Some) by {
            assert(last_of_session(ns, sid) == if sid == sid0 {
                Some(n as int)
            } else {
                last_of_session(ss, sid)
            });
        }
        assert forall|sid: Seq<char>| #[trigger] next.session_last.contains_key(sid) implies next.session_last[sid]
            == (
            ns[last_of_session(ns, sid)->0].line_number,
            ns[last_of_session(ns, sid)->0].header.session_elapsed_us,
        ) by {
            assert(last_of_session(ns, sid) == if sid == sid0 {
                Some(n as int)
            } else {
                last_of_session(ss, sid)
            });
            if sid != sid0 {
                assert(st.session_last.contains_key(sid));
                lemma_last_of_session_in_range(ss, sid);
                assert(ns[last_of_session(ss, sid)->0] == ss[last_of_session(ss, sid)->0]);
            }
        }
    }
}

proof fn lemma_run_keeps_bookkeeping<S>(st: ValidationState<S>, lines: Seq<DatasetLine<S>>)
    requires
        validation_bookkeeping(st),
        validation_run(st, lines) is Ok,
    ensures
        validation_bookkeeping(validation_run(st, lines)->Ok_0),
    decreases lines.len(),
{
    if lines.len() > 0 {
        lemma_step_keeps_bookkeeping(st, lines[0]);
        lemma_run_keeps_bookkeeping(validation_step(st, lines[0])->Ok_0, lines.drop_first());
    }
}

/// Running the validator over a sequence of lines is running it over its
/// first `k` lines and then over the rest.
proof fn lemma_run_split<S>(st: ValidationState<S>, lines: Seq<DatasetLine<S>>, k: int)
    requires
        0 <= k <= lines.len(),
    ensures
        validation_run(st, lines) == match validation_run(st, lines.take(k)) {
            Err(e) => Err(e),
            Ok(mid) => validation_run(mid, lines.skip(k)),
        },
    decreases k,
{
    if k == 0 {
        assert(lines.take(0) =~= Seq::<DatasetLine<S>>::empty());
        assert(lines.skip(0) =~= lines);
    } else {
        assert(lines.take(k)[0] == lines[0]);
        assert(lines.take(k).drop_first() =~= lines.drop_first().take(k - 1));
        assert(lines.skip(k) =~= lines.drop_first().skip(k - 1));
        if validation_step(st, lines[0]) is Ok {
            lemma_run_split(validation_step(st, lines[0])->Ok_0, lines.drop_first(), k - 1);
        }
    }
}

/// The `receivedElapsedUs` of a sample line, when it is an unsigned integer.
pub open spec fn line_received_elapsed<S>(c: DatasetLineContent<S>) -> Option<u64> {
    match c {
        DatasetLineContent::Sample { received_elapsed_us, .. } => received_elapsed_us,
        _ => None,
    }
}

/// The decoded sample of a sample line, when it decoded and both its header
/// and its payload are valid.
pub open spec fn line_valid_sample<S>(c: DatasetLineContent<S>) -> Option<DecodedSample<S>> {
    match c {
        DatasetLineContent::Sample { sample: Ok(d), .. } => if spec_validate_header(
            d.header.session_id@.len(),
            d.header.session_elapsed_us,
        ) is Ok && d.payload_check is Ok {
            Some(d)
        } else {
            None
        },
        _ => None,
    }
}

/// A clock regression is reported at the first line where it occurs.
/// Suppose the validator accepted every line before line `k`, with the
/// samples `ss`, which are then in clock order. If line `k` is a sample
/// whose `receivedElapsedUs` is below that of the last accepted sample, the
/// dataset is refused with `ReceivedElapsedRegression` naming line `k` and
/// that sample's line; if instead its receive clock is in order, its sample
/// valid, and its `sessionElapsedUs` is below that of the last accepted
/// sample of the same session, it is refused with `SessionElapsedRegression`
/// naming line `k` and that sample's line. A dataset that is accepted has
/// both clocks in order.
pub proof fn lemma_first_clock_regression_reported<S>(lines: Seq<DatasetLine<S>>, k: int)
    requires
        0 <= k < lines.len(),
        validation_run(initial_validation_state(), lines.take(k)) is Ok,
    ensures
        ({
            let st = validation_run(initial_validation_state(), lines.take(k))->Ok_0;
            let ss = st.samples;
            let n = lines[k].line_number;
            let rv = line_received_elapsed(lines[k].content);
            let vd = line_valid_sample(lines[k].content);
            let sid = vd->0.header.session_id@;
            let receivable = st.metadata is Some && st.summary is None && rv is Some && rv->0
                <= MAX_ANALYZABLE_RECEIVED_ELAPSED_US;
            &&& clocks_ordered(ss)
            &&& receivable && ss.len() > 0 && rv->0 < ss.last().received_elapsed_us
                ==> spec_validate_dataset(lines) == Err::<ValidationState<S>, DatasetError>(
                DatasetError::ReceivedElapsedRegression {
                    line: n,
                    previous_line: ss.last().line_number,
                    previous_received_elapsed_us: ss.last().received_elapsed_us,
                    current_received_elapsed_us: rv->0,
                },
            )
            &&& receivable && (ss.len() > 0 ==> ss.last().received_elapsed_us <= rv->0) && vd is Some
                && last_of_session(ss, sid) is Some && vd->0.header.session_elapsed_us
                < ss[last_of_session(ss, sid)->0].header.session_elapsed_us
                ==> spec_validate_dataset(lines) == Err::<ValidationState<S>, DatasetError>(
                DatasetError::SessionElapsedRegression {
                    line: n,
                    previous_line: ss[last_of_session(ss, sid)->0].line_number,
                    session_id: sid,
                    previous_session_elapsed_us: ss[last_of_session(
                        ss,
                        sid,
                    )->0].header.session_elapsed_us,
                    current_session_elapsed_us: vd->0.header.session_elapsed_us,
                },
            )
        }),
        spec_validate_dataset(lines) is Ok ==> clocks_ordered(
            spec_validate_dataset(lines)->Ok_0.samples,
        ),
{
    let init = initial_validation_state::<S>();
    assert(validation_bookkeeping(init));
    lemma_run_keeps_invariant(init, lines.take(k));
    lemma_run_keeps_bookkeeping(init, lines.take(k));
    lemma_run_split(init, lines, k);
    let st = validation_run(init, lines.take(k))->Ok_0;
    assert(lines.skip(k)[0] == lines[k]);
    assert(validation_run(st, lines.skip(k)) == match validation_step(st, lines[k]) {
        Err(e) => Err(e),
        Ok(next) => validation_run(next, lines.skip(k).drop_first()),
    });
    match lines[k].content {
        DatasetLineContent::Sample { received_elapsed_us: Some(v), sample: Ok(d) } => {
            lemma_last_of_session_in_range(st.samples, d.header.session_id@);
        },
        _ => {},
    }
    if spec_validate_dataset(lines) is Ok {
        lemma_validated_clocks_ordered(lines);
    }
}

/// A metadata line as a dataset v1 opens: line 1, a decoded record of
/// dataset format 1 and protocol 1, started at an RFC 3339 instant.
pub open spec fn well_formed_metadata_line<S>(line: DatasetLine<S>) -> bool {
    &&& line.line_number == 1
    &&& match line.content {
        DatasetLineContent::Metadata { record: Ok(r) } => r.dataset_format_version
            == DATASET_FORMAT_VERSION && r.protocol_version == PROTOCOL_VERSION
            && rfc3339_parse_result(r.started_at_utc@) is Ok,
        _ => false,
    }
}

/// A sample line with a receive clock in the analyzable range and a valid sample.
pub open spec fn well_formed_sample_line<S>(line: DatasetLine<S>) -> bool {
    &&& line_received_elapsed(line.content) is Some
    &&& line_received_elapsed(line.content)->0 <= MAX_ANALYZABLE_RECEIVED_ELAPSED_US
    &&& line_valid_sample(line.content) is Some
}

/// The receive clock of line `i`.
pub open spec fn line_rx<S>(lines: Seq<DatasetLine<S>>, i: int) -> u64 {
    line_received_elapsed(lines[i].content)->0
}

/// The session of the sample of line `i`.
pub open spec fn line_session<S>(lines: Seq<DatasetLine<S>>, i: int) -> Seq<char> {
    line_valid_sample(lines[i].content)->0.header.session_id@
}

/// The session clock of the sample of line `i`.
pub open spec fn line_session_elapsed<S>(lines: Seq<DatasetLine<S>>, i: int) -> u64 {
    line_valid_sample(lines[i].content)->0.header.session_elapsed_us
}

/// The last line is a summary line.
pub open spec fn has_summary_line<S>(lines: Seq<DatasetLine<S>>) -> bool {
    lines.len() > 1 && lines.last().content is Summary
}

/// The number of lines between the metadata line and the summary line (or the end).
pub open spec fn sample_line_count<S>(lines: Seq<DatasetLine<S>>) -> int {
    lines.len() - 1 - if has_summary_line(lines) {
        1int
    } else {
        0int
    }
}

/// The summary of a dataset whose last line is a decoded summary, with its line.
pub open spec fn final_summary<S>(lines: Seq<DatasetLine<S>>) -> Option<(usize, DatasetSummaryRecord)> {
    if has_summary_line(lines) {
        Some((lines.last().line_number, lines.last().content->Summary_record->Ok_0))
    } else {
        None
    }
}

/// A well-formed dataset v1, as the format describes it: the metadata line
/// first; then at least one sample line, each with its receive clock in
/// range and a valid sample, the receive clock never going back and the
/// session clock never going back within a session; then either nothing
/// or one decoded summary line with `writtenSamples` equal to the number of
/// samples and `receivedAcceptedSamples == writtenSamples +
/// recorderDroppedSamples`.
pub open spec fn well_formed_dataset<S>(lines: Seq<DatasetLine<S>>) -> bool {
    let m = sample_line_count(lines);
    &&& lines.len() >= 2
    &&& well_formed_metadata_line(lines[0])
    &&& m >= 1
    &&& forall|i: int| 1 <= i <= m ==> well_formed_sample_line(#[trigger] lines[i])
    &&& forall|i: int, j: int|
        1 <= i < j <= m ==> #[trigger] line_rx(lines, i) <= #[trigger] line_rx(lines, j)
    &&& forall|i: int, j: int|
        1 <= i < j <= m && #[trigger] line_session(lines, i) == #[trigger] line_session(lines, j)
            ==> line_session_elapsed(lines, i) <= line_session_elapsed(lines, j)
    &&& has_summary_line(lines) ==> (lines.last().content->Summary_record is Ok && {
        let s = lines.last().content->Summary_record->Ok_0;
        s.written_samples == m && s.received_accepted_samples == s.written_samples
            + s.recorder_dropped_samples
    })
}

/// The validator's state after the metadata line and the sample lines before line `k`.
spec fn well_formed_prefix_state<S>(lines: Seq<DatasetLine<S>>, st: ValidationState<S>, k: int) -> bool {
    let m = sample_line_count(lines);
    &&& st.metadata is Some
    &&& st.summary is None
    &&& st.samples.len() == k - 1
    &&& st.previous_received is Some ==> forall|j: int|
        k <= j <= m ==> st.previous_received.unwrap().1 <= #[trigger] line_rx(lines, j)
    &&& forall|j: int|
        k <= j <= m && st.session_last.contains_key(#[trigger] line_session(lines, j))
            ==> st.session_last[line_session(lines, j)].1 <= line_session_elapsed(lines, j)
}

proof fn lemma_well_formed_sample_step<S>(lines: Seq<DatasetLine<S>>, st: ValidationState<S>, k: int)
    requires
        well_formed_dataset(lines),
        1 <= k <= sample_line_count(lines),
        well_formed_prefix_state(lines, st, k),
    ensures
        validation_step(st, lines[k]) is Ok,
        well_formed_prefix_state(lines, validation_step(st, lines[k])->Ok_0, k + 1),
{
    let m = sample_line_count(lines);
    assert(well_formed_sample_line(lines[k]));
    let v = line_rx(lines, k);
    let d = line_valid_sample(lines[k].content)->0;
    let sid = d.header.session_id@;
    assert(line_session(lines, k) == sid);
    let next = validation_step(st, lines[k])->Ok_0;
    if st.previous_received is Some {
        assert(st.previous_received.unwrap().1 <= line_rx(lines, k));
    }
    if st.session_last.contains_key(sid) {
        assert(st.session_last[sid].1 <= line_session_elapsed(lines, k));
    }
    assert(next.previous_received == Some((lines[k].line_number, v)));
    assert(next.session_last == st.session_last.insert(sid, (lines[k].line_number, d.header.session_elapsed_us)));
    assert forall|j: int| k + 1 <= j <= m implies next.previous_received.unwrap().1 <= #[trigger] line_rx(lines, j) by {
        assert(line_rx(lines, k) <= line_rx(lines, j));
    }
    assert forall|j: int|
        k + 1 <= j <= m && next.session_last.contains_key(#[trigger] line_session(lines, j))
            implies next.session_last[line_session(lines, j)].1 <= line_session_elapsed(lines, j) by {
        if line_session(lines, j) == sid {
            assert(line_session(lines, k) == line_session(lines, j));
        }
    }
}

proof fn lemma_well_formed_run<S>(lines: Seq<DatasetLine<S>>, st: ValidationState<S>, k: int)
    requires
        well_formed_dataset(lines),
        1 <= k <= sample_line_count(lines) + 1,
        well_formed_prefix_state(lines, st, k),
    ensures
        validation_run(st, lines.skip(k)) is Ok,
        ({
            let fin = validation_run(st, lines.skip(k))->Ok_0;
            &&& fin.metadata is Some
            &&& fin.samples.len() == sample_line_count(lines)
            &&& fin.summary == final_summary(lines)
        }),
    decreases lines.len() - k,
{
    let m = sample_line_count(lines);
    if k <= m {
        lemma_well_formed_sample_step(lines, st, k);
        assert(lines.skip(k)[0] == lines[k]);
        assert(lines.skip(k).drop_first() =~= lines.skip(k + 1));
        let next = validation_step(st, lines[k])->Ok_0;
        lemma_well_formed_run(lines, next, k + 1);
        assert(validation_run(st, lines.skip(k)) == validation_run(next, lines.skip(k + 1)));
    } else if has_summary_line(lines) {
        let sk = lines.skip(k);
        assert(sk =~= seq![lines.last()]);
        assert(sk.drop_first() =~= Seq::<DatasetLine<S>>::empty());
        assert(sk[0] == lines.last());
        let next = validation_step(st, sk[0]);
        assert(next is Ok);
        assert(next->Ok_0.summary == final_summary(lines));
        assert(validation_run(next->Ok_0, sk.drop_first()) == next);
        assert(validation_run(st, sk) == next);
    } else {
        assert(lines.skip(k) =~= Seq::<DatasetLine<S>>::empty());
    }
}

/// The validator accepts a well-formed dataset, with all its sample lines
/// as samples and its summary line, if any, as summary.
pub(crate) proof fn lemma_well_formed_dataset_validates<S>(lines: Seq<DatasetLine<S>>)
    requires
        well_formed_dataset(lines),
    ensures
        spec_validate_dataset(lines) is Ok,
        spec_validate_dataset(lines)->Ok_0.metadata is Some,
        spec_validate_dataset(lines)->Ok_0.samples.len() == sample_line_count(lines),
        spec_validate_dataset(lines)->Ok_0.summary == final_summary(lines),
{
    let init = initial_validation_state::<S>();
    let st1 = validation_step(init, lines[0]);
    assert(st1 is Ok);
    assert(well_formed_prefix_state(lines, st1->Ok_0, 1));
    assert(lines.drop_first() =~= lines.skip(1));
    lemma_well_formed_run(lines, st1->Ok_0, 1);
}

/// A year rendered as `{:04}` does: zero-padded to four characters, the
/// sign counted among them.
pub open spec fn year_text(year: i32) -> Seq<char> {
    if year < 0 {
        seq!['-'] + zero_padded((-year) as nat, 3)
    } else {
        zero_padded(year as nat, 4)
    }
}

/// The compact UTC timestamp `YYYYMMDDThhmmssZ` of the given calendar fields.
pub open spec fn compact_timestamp(f: (i32, u8, u8, u8, u8, u8)) -> Seq<char> {
    year_text(f.0) + zero_padded(f.1 as nat, 2) + zero_padded(f.2 as nat, 2) + seq!['T']
        + zero_padded(f.3 as nat, 2) + zero_padded(f.4 as nat, 2) + zero_padded(f.5 as nat, 2) + seq![
        'Z',
    ]
}

fn push_compact_timestamp(path: &mut String, f: (i32, u8, u8, u8, u8, u8))
    ensures
        final(path)@ == old(path)@ + compact_timestamp(f),
{
    let ghost start = path@;
    if f.0 < 0 {
        push_char(path, '-');
        let magnitude = (0i64 - f.0 as i64) as u64;
        push_zero_padded(path, magnitude, 3);
    } else {
        push_zero_padded(path, f.0 as u64, 4);
    }
    let ghost after_year = path@;
    assert(after_year == start + year_text(f.0));
    push_zero_padded(path, f.1 as u64, 2);
    push_zero_padded(path, f.2 as u64, 2);
    push_char(path, 'T');
    push_zero_padded(path, f.3 as u64, 2);
    push_zero_padded(path, f.4 as u64, 2);
    push_zero_padded(path, f.5 as u64, 2);
    push_char(path, 'Z');
    assert(path@ =~= start + compact_timestamp(f));
}

/// The default file of a recording started at `unix_seconds`:
/// `artifacts/motion-datasets/<YYYYMMDDThhmmssZ>-<scenario>.ndjson`.
pub fn default_dataset_output_path(scenario: RecordingScenario, unix_seconds: i64) -> (r: String)
    requires
        MIN_REPRESENTABLE_UNIX_SECONDS <= unix_seconds <= MAX_REPRESENTABLE_UNIX_SECONDS,
    ensures
        r@ == DEFAULT_DATASET_DIRECTORY@ + "/"@ + compact_timestamp(
            utc_fields_of_unix_seconds(unix_seconds)->0,
        ) + "-"@ + scenario_name(scenario) + ".ndjson"@,
{
    let f = match utc_fields(unix_seconds) {
        Some(f) => f,
        None => {
            proof {
                assert(false);
            }
            (0, 0, 0, 0, 0, 0)
        },
    };
    let mut path = string_of(DEFAULT_DATASET_DIRECTORY);
    push_str(&mut path, "/");
    push_compact_timestamp(&mut path, f);
    push_str(&mut path, "-");
    push_str(&mut path, scenario.as_str());
    push_str(&mut path, ".ndjson");
    path
}

// ---------------------------------------------------------------------------
// Recorder bookkeeping
// ---------------------------------------------------------------------------

pub const FLUSH_EVERY_SAMPLES: u64 = 60;

/// The counters of a running recorder.
#[derive(Debug, Clone, Copy, PartialEq, Eq, Structural)]
pub struct DatasetRecorderSnapshot {
    pub received_accepted_samples: u64,
    pub written_samples: u64,
    pub recorder_dropped_samples: u64,
}

/// A recorder that has seen nothing yet.
pub fn empty_recorder_counters() -> (c: DatasetRecorderSnapshot)
    ensures
        c == (DatasetRecorderSnapshot {
            received_accepted_samples: 0,
            written_samples: 0,
            recorder_dropped_samples: 0,
        }),
{
    DatasetRecorderSnapshot { received_accepted_samples: 0, written_samples: 0, recorder_dropped_samples: 0 }
}

/// One accepted sample handed to the recorder: counted as received, and as
/// dropped when its queue had no room.
pub fn count_published(c: DatasetRecorderSnapshot, queued: bool) -> (r: DatasetRecorderSnapshot)
    requires
        c.received_accepted_samples < u64::MAX,
        c.recorder_dropped_samples < u64::MAX,
    ensures
        r == (DatasetRecorderSnapshot {
            received_accepted_samples: (c.received_accepted_samples + 1) as u64,
            recorder_dropped_samples: if queued {
                c.recorder_dropped_samples
            } else {
                (c.recorder_dropped_samples + 1) as u64
            },
            ..c
        }),
{
    DatasetRecorderSnapshot {
        received_accepted_samples: c.received_accepted_samples + 1,
        written_samples: c.written_samples,
        recorder_dropped_samples: if queued {
            c.recorder_dropped_samples
        } else {
            c.recorder_dropped_samples + 1
        },
    }
}

/// One queued sample written to the file.
pub fn count_written(c: DatasetRecorderSnapshot) -> (r: DatasetRecorderSnapshot)
    requires
        c.written_samples < u64::MAX,
    ensures
        r == (DatasetRecorderSnapshot { written_samples: (c.written_samples + 1) as u64, ..c }),
{
    DatasetRecorderSnapshot {
        received_accepted_samples: c.received_accepted_samples,
        written_samples: c.written_samples + 1,
        recorder_dropped_samples: c.recorder_dropped_samples,
    }
}

/// Whether the file is flushed after writing the `written_samples`-th sample.
pub fn flush_due(written_samples: u64) -> (r: bool)
    ensures
        r == (written_samples % FLUSH_EVERY_SAMPLES == 0),
{
    written_samples % FLUSH_EVERY_SAMPLES == 0
}

/// A duration in microseconds, saturated to `u64`.
pub fn duration_to_u64(micros: u128) -> (r: u64)
    ensures
        r == if micros > u64::MAX as u128 {
            u64::MAX
        } else {
            micros as u64
        },
{
    if micros > u64::MAX as u128 {
        u64::MAX
    } else {
        micros as u64
    }
}

/// The recorder refuses a queue without room.
pub fn check_queue_capacity(queue_capacity: usize) -> (r: Result<(), String>)
    ensures
        queue_capacity > 0 ==> r is Ok,
        queue_capacity == 0 ==> (r matches Err(m) && m@
            == "dataset recorder queue capacity must be greater than zero"@),
{
    if queue_capacity == 0 {
        Err(string_of("dataset recorder queue capacity must be greater than zero"))
    } else {
        Ok(())
    }
}

/// The metadata line a new recording starts with.
pub fn recording_metadata(scenario: RecordingScenario, started_at_utc: String, notes: Option<String>) -> (r:
    DatasetMetadataRecord)
    ensures
        r.record_type == DatasetRecordType::Metadata,
        r.dataset_format_version == DATASET_FORMAT_VERSION,
        r.protocol_version == PROTOCOL_VERSION,
        r.scenario == scenario,
        r.started_at_utc@ == started_at_utc@,
        r.expected_sample_rate_hz == crate::receiver::EXPECTED_SAMPLE_RATE_HZ,
        r.mounting_convention@ == DEFAULT_MOUNTING_CONVENTION@,
        r.notes == notes,
{
    DatasetMetadataRecord {
        record_type: DatasetRecordType::Metadata,
        dataset_format_version: DATASET_FORMAT_VERSION,
        protocol_version: PROTOCOL_VERSION,
        scenario,
        started_at_utc,
        expected_sample_rate_hz: crate::receiver::EXPECTED_SAMPLE_RATE_HZ,
        mounting_convention: string_of(DEFAULT_MOUNTING_CONVENTION),
        notes,
    }
}

/// The `startedAtUtc` text of a recording started at `unix_nanos`: the
/// instant in RFC 3339, or why it cannot be formatted.
pub fn format_started_at_utc(unix_nanos: i128) -> (r: Result<String, String>)
    ensures
        match rfc3339_format_result(unix_nanos) {
            Ok(text) => r matches Ok(s) && s@ == text,
            Err(e) => r matches Err(m) && m@ == "failed to format UTC time: "@ + e,
        },
{
    match format_rfc3339(unix_nanos) {
        Ok(text) => Ok(text),
        Err(e) => {
            let mut message = string_of("failed to format UTC time: ");
            push_str(&mut message, e.as_str());
            Err(message)
        },
    }
}

/// The summary record of a recording that ran `elapsed_micros` with the given counters.
pub open spec fn summary_record_of(
    completed: bool,
    elapsed_micros: u128,
    counters: DatasetRecorderSnapshot,
) -> DatasetSummaryRecord {
    DatasetSummaryRecord {
        record_type: DatasetRecordType::Summary,
        completed,
        duration_us: if elapsed_micros > u64::MAX as u128 {
            u64::MAX
        } else {
            elapsed_micros as u64
        },
        received_accepted_samples: counters.received_accepted_samples,
        written_samples: counters.written_samples,
        recorder_dropped_samples: counters.recorder_dropped_samples,
    }
}

/// The summary line a recording ends with.
pub fn recording_summary(completed: bool, elapsed_micros: u128, counters: DatasetRecorderSnapshot) -> (r:
    DatasetSummaryRecord)
    ensures
        r == summary_record_of(completed, elapsed_micros, counters),
{
    DatasetSummaryRecord {
        record_type: DatasetRecordType::Summary,
        completed,
        duration_us: duration_to_u64(elapsed_micros),
        received_accepted_samples: counters.received_accepted_samples,
        written_samples: counters.written_samples,
        recorder_dropped_samples: counters.recorder_dropped_samples,
    }
}

/// Samples handed to the recorder that are neither written nor dropped yet.
pub open spec fn pending_samples(c: DatasetRecorderSnapshot) -> int {
    c.received_accepted_samples - c.written_samples - c.recorder_dropped_samples
}

/// Every sample handed to the recorder is either queued (pending), written
/// or dropped: publishing adds one pending sample or one drop, writing turns
/// one pending sample into a written one.
pub proof fn lemma_recorder_accounting(c: DatasetRecorderSnapshot, queued: bool)
    requires
        c.received_accepted_samples < u64::MAX,
        c.recorder_dropped_samples < u64::MAX,
        c.written_samples < u64::MAX,
    ensures
        ({
            let p = DatasetRecorderSnapshot {
                received_accepted_samples: (c.received_accepted_samples + 1) as u64,
                recorder_dropped_samples: if queued {
                    c.recorder_dropped_samples
                } else {
                    (c.recorder_dropped_samples + 1) as u64
                },
                ..c
            };
            pending_samples(p) == pending_samples(c) + if queued {
                1int
            } else {
                0int
            }
        }),
        pending_samples(DatasetRecorderSnapshot { written_samples: (c.written_samples + 1) as u64, ..c })
            == pending_samples(c) - 1,
{
}

} // verus!
