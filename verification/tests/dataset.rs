use anchor_desktop::analysis::{analyze_dataset_lines, DatasetStructureAnalysis, SequenceGap};
use anchor_desktop::dataset::{
    count_published, format_started_at_utc, count_written, duration_to_u64, empty_recorder_counters, flush_due,
    recording_summary, check_queue_capacity,
    default_dataset_output_path, nonblank_lines_of, DatasetAnalysisError, DatasetLine,
    DatasetLineContent, DatasetMetadataRecord, DatasetRecordType, DatasetSummaryRecord,
    DecodedSample, RecordingScenario, ValidatedDataset, DEFAULT_MOUNTING_CONVENTION,
};
use anchor_desktop::protocol::SampleHeader;

/// The payload carried with each sample in these tests.
type Payload = ();

fn metadata_record(version: u8, started_at_utc: &str) -> DatasetMetadataRecord {
    DatasetMetadataRecord {
        record_type: DatasetRecordType::Metadata,
        dataset_format_version: version,
        protocol_version: 1,
        scenario: RecordingScenario::Stationary,
        started_at_utc: started_at_utc.to_owned(),
        expected_sample_rate_hz: 60,
        mounting_convention: DEFAULT_MOUNTING_CONVENTION.to_owned(),
        notes: None,
    }
}

fn metadata(line_number: usize) -> DatasetLine<Payload> {
    DatasetLine {
        line_number,
        content: DatasetLineContent::Metadata {
            record: Ok(metadata_record(1, "2026-09-02T12:00:00Z")),
        },
    }
}

fn sample(
    line_number: usize,
    received_elapsed_us: u64,
    session_id: &str,
    sequence: u32,
    session_elapsed_us: u64,
) -> DatasetLine<Payload> {
    DatasetLine {
        line_number,
        content: DatasetLineContent::Sample {
            received_elapsed_us: Some(received_elapsed_us),
            sample: Ok(DecodedSample {
                header: SampleHeader {
                    session_id: session_id.to_owned(),
                    sequence,
                    session_elapsed_us,
                },
                payload_check: Ok(()),
                sample: (),
            }),
        },
    }
}

fn summary(
    line_number: usize,
    completed: bool,
    received: u64,
    written: u64,
    dropped: u64,
) -> DatasetLine<Payload> {
    DatasetLine {
        line_number,
        content: DatasetLineContent::Summary {
            record: Ok(DatasetSummaryRecord {
                record_type: DatasetRecordType::Summary,
                completed,
                duration_us: 0,
                received_accepted_samples: received,
                written_samples: written,
                recorder_dropped_samples: dropped,
            }),
        },
    }
}

fn analyze(
    lines: Vec<DatasetLine<Payload>>,
) -> Result<(ValidatedDataset<Payload>, DatasetStructureAnalysis), DatasetAnalysisError> {
    analyze_dataset_lines(lines)
}

/// The dataset of the complete fixture: one session, sequences 0, 1 and 3,
/// and a clean summary.
fn complete_basic() -> Vec<DatasetLine<Payload>> {
    vec![
        metadata(1),
        sample(2, 1_000, "session-a", 0, 0),
        sample(3, 121_000, "session-a", 1, 100_000),
        sample(4, 331_000, "session-a", 3, 300_000),
        summary(5, true, 3, 3, 0),
    ]
}

/// The dataset of the interrupted fixture: two sessions and no summary.
fn interrupted_basic() -> Vec<DatasetLine<Payload>> {
    vec![
        metadata(1),
        sample(2, 0, "session-a", 0, 0),
        sample(3, 50_000, "session-b", 0, 0),
    ]
}

fn source_intervals(analysis: &DatasetStructureAnalysis) -> Vec<u64> {
    analysis.intervals.iter().map(|item| item.source_us).collect()
}

fn receive_intervals(analysis: &DatasetStructureAnalysis) -> Vec<u64> {
    analysis.intervals.iter().map(|item| item.receive_us).collect()
}

fn relative_variations(analysis: &DatasetStructureAnalysis) -> Vec<i64> {
    analysis
        .intervals
        .iter()
        .map(|item| item.relative_delay_variation_us)
        .collect()
}

#[test]
fn analyzer_detects_interrupted_dataset() {
    let (_, analysis) = analyze(interrupted_basic()).expect("analyze interrupted");
    assert!(!analysis.is_complete);
    assert_eq!(analysis.warnings.len(), 1);
}

#[test]
fn analyzer_rejects_missing_metadata() {
    let err = analyze(vec![DatasetLine {
        line_number: 1,
        content: DatasetLineContent::Sample {
            received_elapsed_us: None,
            sample: Err("sample is required".to_owned()),
        },
    }])
    .expect_err("metadata must be required");
    assert!(matches!(err, DatasetAnalysisError::MissingMetadata));
}

#[test]
fn analyzer_rejects_invalid_received_elapsed_us() {
    let err = analyze(vec![
        metadata(1),
        DatasetLine {
            line_number: 2,
            content: DatasetLineContent::Sample {
                received_elapsed_us: None,
                sample: Err("missing field `protocolVersion`".to_owned()),
            },
        },
    ])
    .expect_err("receivedElapsedUs must be validated");

    assert!(matches!(
        err,
        DatasetAnalysisError::InvalidReceivedElapsedUs { line: 2 }
    ));
}

#[test]
fn analyzer_accepts_received_elapsed_us_at_i64_max() {
    let (_, analysis) = analyze(vec![
        metadata(1),
        sample(2, 9_223_372_036_854_775_807, "session-a", 0, 0),
    ])
    .expect("i64::MAX receivedElapsedUs should analyze");

    assert_eq!(analysis.sample_count, 1);
}

#[test]
fn analyzer_rejects_received_elapsed_us_above_i64_max_without_panicking() {
    let err = analyze(vec![
        metadata(1),
        sample(2, 9_223_372_036_854_775_808, "session-a", 0, 0),
    ])
    .expect_err("value above i64::MAX must fail");
    assert!(matches!(
        err,
        DatasetAnalysisError::ReceivedElapsedUsOutOfRange {
            line: 2,
            value: 9_223_372_036_854_775_808,
            max_supported: 9_223_372_036_854_775_807,
        }
    ));
}

#[test]
fn analyzer_rejects_invalid_motion_sample() {
    let err = analyze(vec![
        metadata(1),
        DatasetLine {
            line_number: 2,
            content: DatasetLineContent::Sample {
                received_elapsed_us: Some(0),
                sample: Err("missing field `kind`".to_owned()),
            },
        },
    ])
    .expect_err("sample must be validated");

    assert!(matches!(
        err,
        DatasetAnalysisError::InvalidMotionSample { line: 2, .. }
    ));
}

#[test]
fn analyzer_rejects_empty_dataset() {
    let err = analyze(vec![metadata(1)]).expect_err("dataset without samples must fail");
    assert!(matches!(err, DatasetAnalysisError::NoSamples));
}

#[test]
fn analyzer_calculates_known_statistics() {
    let (_, analysis) = analyze(complete_basic()).expect("complete fixture");

    assert_eq!(analysis.sample_count, 3);
    assert_eq!(analysis.session_count, 1);
    assert_eq!(analysis.observed_duration_us, 330_000);
    assert_eq!(source_intervals(&analysis).iter().min().copied(), Some(100_000));
    assert_eq!(source_intervals(&analysis).iter().max().copied(), Some(200_000));
    assert_eq!(receive_intervals(&analysis).iter().min().copied(), Some(120_000));
    assert_eq!(receive_intervals(&analysis).iter().max().copied(), Some(210_000));
    assert_eq!(relative_variations(&analysis).iter().min().copied(), Some(10_000));
    assert_eq!(relative_variations(&analysis).iter().max().copied(), Some(20_000));
    assert_eq!(analysis.sessions[0].gap_count, 1);
    assert_eq!(analysis.sessions[0].missing_sequence_total, 1);
}

#[test]
fn analyzer_handles_relative_delay_variation_near_numeric_extremes() {
    let (_, analysis) = analyze(vec![
        metadata(1),
        sample(2, 0, "session-a", 0, 0),
        sample(3, 9_223_372_036_854_775_807, "session-a", 1, 9_007_199_254_740_991),
    ])
    .expect("extreme relative variation should analyze");

    assert_eq!(
        relative_variations(&analysis).iter().max().copied(),
        Some(9_214_364_837_600_034_816)
    );
}

#[test]
fn analyzer_rejects_metadata_after_summary() {
    let err = analyze(vec![
        metadata(1),
        sample(2, 0, "session-a", 0, 0),
        summary(3, true, 1, 1, 0),
        metadata(4),
    ])
    .expect_err("metadata after summary must fail");

    assert!(matches!(
        err,
        DatasetAnalysisError::InvalidDatasetStructure { line: 4, .. }
    ));
}

#[test]
fn analyzer_handles_single_sample_dataset() {
    let (_, analysis) = analyze(vec![metadata(1), sample(2, 0, "session-a", 5, 0)])
        .expect("single-sample dataset");

    assert_eq!(analysis.sample_count, 1);
    assert!(analysis.intervals.is_empty());
    assert_eq!(analysis.sessions[0].first_sequence, 5);
    assert_eq!(analysis.sessions[0].last_sequence, 5);
}

#[test]
fn analyzer_tracks_multiple_sessions() {
    let (_, analysis) = analyze(interrupted_basic()).expect("interrupted fixture");

    assert_eq!(analysis.session_count, 2);
    assert_eq!(analysis.sessions[0].session_id, "session-a");
    assert_eq!(analysis.sessions[1].session_id, "session-b");
}

#[test]
fn default_output_path_uses_relative_artifact_directory() {
    let path = default_dataset_output_path(RecordingScenario::Stationary, 1_788_350_400);

    assert_eq!(
        path,
        "artifacts/motion-datasets/20260902T120000Z-stationary.ndjson"
    );
}

#[test]
fn analyze_dataset_reports_expected_statistics_for_complete_fixture() {
    let (_, analysis) = analyze(complete_basic()).expect("complete fixture should analyze");

    assert_eq!(analysis.dataset_format_version, 1);
    assert!(analysis.is_complete);
    assert_eq!(analysis.sample_count, 3);
    assert_eq!(analysis.recorder_dropped_samples, 0);
    assert_eq!(analysis.sessions.len(), 1);
    assert_eq!(analysis.sessions[0].session_id, "session-a");
    assert_eq!(analysis.sessions[0].first_sequence, 0);
    assert_eq!(analysis.sessions[0].last_sequence, 3);
    assert_eq!(analysis.sessions[0].gap_count, 1);
    assert_eq!(analysis.sessions[0].missing_sequence_total, 1);
    assert_eq!(source_intervals(&analysis).iter().min().copied(), Some(100_000));
    assert_eq!(source_intervals(&analysis).iter().max().copied(), Some(200_000));
    assert_eq!(receive_intervals(&analysis).iter().min().copied(), Some(120_000));
    assert_eq!(receive_intervals(&analysis).iter().max().copied(), Some(210_000));
    assert_eq!(relative_variations(&analysis).iter().min().copied(), Some(10_000));
    assert_eq!(relative_variations(&analysis).iter().max().copied(), Some(20_000));
    assert!(analysis.warnings.is_empty());
}

#[test]
fn analyze_dataset_warns_when_summary_is_missing() {
    let (_, analysis) = analyze(interrupted_basic()).expect("interrupted fixture should still analyze");

    assert!(!analysis.is_complete);
    assert_eq!(analysis.sample_count, 2);
    assert_eq!(
        analysis.warnings,
        vec!["dataset summary record is missing; file may be interrupted".to_owned()]
    );
}

#[test]
fn analyze_dataset_rejects_invalid_json_lines() {
    let err = analyze(vec![
        metadata(1),
        DatasetLine {
            line_number: 2,
            content: DatasetLineContent::Malformed {
                message: "expected ident at line 1 column 2".to_owned(),
            },
        },
    ])
    .expect_err("invalid line must fail");
    assert!(matches!(
        err,
        DatasetAnalysisError::InvalidJsonLine { line: 2, .. }
    ));
}

#[test]
fn analyze_dataset_rejects_unsupported_dataset_version() {
    let err = analyze(vec![DatasetLine {
        line_number: 1,
        content: DatasetLineContent::Metadata {
            record: Ok(metadata_record(2, "2026-09-02T12:00:00Z")),
        },
    }])
    .expect_err("unsupported version must fail");
    assert!(matches!(
        err,
        DatasetAnalysisError::UnsupportedDatasetVersion(2)
    ));
}

#[test]
fn analyze_dataset_rejects_received_elapsed_regression_without_panicking() {
    let err = analyze(vec![
        metadata(1),
        sample(2, 10, "session-a", 0, 0),
        sample(3, 9, "session-a", 1, 1),
    ])
    .expect_err("receivedElapsedUs regression must fail");
    assert!(matches!(
        err,
        DatasetAnalysisError::ReceivedElapsedRegression {
            line: 3,
            previous_line: 2,
            previous_received_elapsed_us: 10,
            current_received_elapsed_us: 9,
        }
    ));
}

#[test]
fn analyze_dataset_rejects_session_elapsed_regression_without_panicking() {
    let err = analyze(vec![
        metadata(1),
        sample(2, 10, "session-a", 0, 10),
        sample(3, 11, "session-a", 1, 9),
    ])
    .expect_err("sessionElapsedUs regression must fail");
    assert!(matches!(
        err,
        DatasetAnalysisError::SessionElapsedRegression {
            line: 3,
            previous_line: 2,
            ref session_id,
            previous_session_elapsed_us: 10,
            current_session_elapsed_us: 9,
        } if session_id == "session-a"
    ));
}

#[test]
fn analyze_dataset_accepts_sequence_at_u32_max() {
    let (_, analysis) = analyze(vec![metadata(1), sample(2, 10, "session-a", u32::MAX, 10)])
        .expect("u32::MAX sequence should analyze");
    assert_eq!(analysis.sessions[0].first_sequence, u32::MAX);
    assert_eq!(analysis.sessions[0].last_sequence, u32::MAX);
}

#[test]
fn analyze_dataset_rejects_duplicate_metadata() {
    let err = analyze(vec![metadata(1), metadata(2)]).expect_err("duplicate metadata must fail");
    assert!(matches!(
        err,
        DatasetAnalysisError::InvalidDatasetStructure { line: 2, .. }
    ));
}

#[test]
fn analyze_dataset_rejects_sample_after_summary() {
    let err = analyze(vec![
        metadata(1),
        sample(2, 0, "session-a", 0, 0),
        summary(3, true, 1, 1, 0),
        sample(4, 1, "session-a", 1, 1),
    ])
    .expect_err("sample after summary must fail");
    assert!(matches!(
        err,
        DatasetAnalysisError::InvalidDatasetStructure { line: 4, .. }
    ));
}

#[test]
fn analyze_dataset_rejects_duplicate_summary() {
    let err = analyze(vec![
        metadata(1),
        sample(2, 0, "session-a", 0, 0),
        summary(3, true, 1, 1, 0),
        summary(4, true, 1, 1, 0),
    ])
    .expect_err("duplicate summary must fail");
    assert!(matches!(
        err,
        DatasetAnalysisError::InvalidDatasetStructure { line: 4, .. }
    ));
}

#[test]
fn analyze_dataset_rejects_invalid_started_at_utc() {
    let err = analyze(vec![
        DatasetLine {
            line_number: 1,
            content: DatasetLineContent::Metadata {
                record: Ok(metadata_record(1, "not-rfc3339")),
            },
        },
        sample(2, 0, "session-a", 0, 0),
    ])
    .expect_err("invalid startedAtUtc must fail");
    assert!(matches!(
        err,
        DatasetAnalysisError::InvalidMetadata { line: 1, .. }
    ));
}

#[test]
fn analyze_dataset_rejects_inconsistent_summary() {
    let err = analyze(vec![
        metadata(1),
        sample(2, 0, "session-a", 0, 0),
        summary(3, true, 5, 1, 0),
    ])
    .expect_err("inconsistent summary must fail");
    assert!(matches!(
        err,
        DatasetAnalysisError::InvalidSummary { line: 3, .. }
    ));
}

#[test]
fn analyze_dataset_warns_when_completed_false() {
    let (_, analysis) = analyze(vec![
        metadata(1),
        sample(2, 0, "session-a", 0, 0),
        summary(3, false, 1, 1, 0),
    ])
    .expect("completed=false dataset should analyze");
    assert_eq!(
        analysis.warnings,
        vec!["dataset summary indicates the recording ended early with completed=false".to_owned()]
    );
}

#[test]
fn error_messages_name_the_line_and_the_values() {
    let err = analyze(vec![
        metadata(1),
        sample(2, 10, "session-a", 0, 10),
        sample(3, 11, "session-a", 1, 9),
    ])
    .expect_err("regression");
    assert_eq!(
        err.message(),
        "sessionElapsedUs regressed for session session-a at line 3: previous line 2 had 10, current value is 9"
    );
    assert_eq!(
        DatasetAnalysisError::NoSamples.message(),
        "dataset does not contain any valid sample records"
    );
    assert_eq!(
        DatasetAnalysisError::InvalidReceivedElapsedUs { line: 7 }.message(),
        "invalid receivedElapsedUs at line 7"
    );
}

#[test]
fn written_samples_must_match_the_sample_records() {
    let err = analyze(vec![
        metadata(1),
        sample(2, 0, "session-a", 0, 0),
        summary(3, true, 2, 2, 0),
    ])
    .expect_err("writtenSamples mismatch");
    match err {
        DatasetAnalysisError::InvalidSummary { line, message } => {
            assert_eq!(line, 3);
            assert_eq!(message, "writtenSamples=2 but dataset contains 1 sample records");
        }
        other => panic!("unexpected error {other:?}"),
    }
}

#[test]
fn received_must_equal_written_plus_dropped() {
    let err = analyze(vec![
        metadata(1),
        sample(2, 0, "session-a", 0, 0),
        summary(3, true, 5, 1, 3),
    ])
    .expect_err("receivedAcceptedSamples mismatch");
    match err {
        DatasetAnalysisError::InvalidSummary { message, .. } => assert_eq!(
            message,
            "receivedAcceptedSamples=5 but writtenSamples + recorderDroppedSamples = 4"
        ),
        other => panic!("unexpected error {other:?}"),
    }
}

#[test]
fn gaps_are_listed_per_session_in_file_order() {
    let (_, analysis) = analyze(vec![
        metadata(1),
        sample(2, 0, "session-a", 0, 0),
        sample(3, 10, "session-b", 10, 0),
        sample(4, 20, "session-a", 4, 5),
        sample(5, 30, "session-b", 11, 1),
        sample(6, 40, "session-a", 4, 6),
        sample(7, 50, "session-a", 7, 9),
    ])
    .expect("two interleaved sessions");

    assert_eq!(analysis.session_count, 2);
    let a = &analysis.sessions[0];
    assert_eq!(a.sample_count, 4);
    assert_eq!(
        a.gaps,
        vec![
            SequenceGap { after_sequence: 0, before_sequence: 4, missing_count: 3 },
            SequenceGap { after_sequence: 4, before_sequence: 7, missing_count: 2 },
        ]
    );
    assert_eq!(a.missing_sequence_total, 5);
    assert_eq!(analysis.sessions[1].gap_count, 0);
    assert_eq!(analysis.observed_duration_us, 50);
    assert_eq!(analysis.intervals.len(), 4);
}

#[test]
fn metadata_must_be_the_first_line() {
    let err = analyze(vec![metadata(2), sample(3, 0, "session-a", 0, 0)])
        .expect_err("metadata on line 2");
    assert!(matches!(err, DatasetAnalysisError::MissingMetadata));
}

#[test]
fn invalid_session_id_is_an_invalid_motion_sample() {
    let err = analyze(vec![metadata(1), sample(2, 0, "", 0, 0)]).expect_err("empty session id");
    assert!(matches!(
        err,
        DatasetAnalysisError::InvalidMotionSample { line: 2, .. }
    ));
}

#[test]
fn blank_lines_are_skipped_and_lines_keep_their_numbers() {
    let lines = nonblank_lines_of("first\n\n  \t\n  third \r\nfourth");
    assert_eq!(
        lines,
        vec![
            (1, "first".to_owned()),
            (4, "third".to_owned()),
            (5, "fourth".to_owned())
        ]
    );
    assert!(nonblank_lines_of("").is_empty());
    assert_eq!(nonblank_lines_of("\n\nx\n"), vec![(3, "x".to_owned())]);
}

#[test]
fn recorder_counters_feed_an_accepted_summary() {
    let mut counters = empty_recorder_counters();
    counters = count_published(counters, true);
    counters = count_published(counters, false);
    counters = count_published(counters, true);
    counters = count_written(counters);
    counters = count_written(counters);
    assert_eq!(counters.received_accepted_samples, 3);
    assert_eq!(counters.recorder_dropped_samples, 1);
    let summary = recording_summary(true, 330_000, counters);
    assert_eq!(summary.written_samples, 2);
    assert_eq!(summary.duration_us, 330_000);

    let (_, analysis) = analyze(vec![
        metadata(1),
        sample(2, 0, "session-a", 0, 0),
        sample(3, 10, "session-a", 1, 10),
        DatasetLine {
            line_number: 4,
            content: DatasetLineContent::Summary { record: Ok(summary) },
        },
    ])
    .expect("a drained recorder writes an accepted summary");
    assert!(analysis.is_complete);
    assert_eq!(analysis.recorder_dropped_samples, 1);
}

#[test]
fn recorder_arithmetic() {
    assert_eq!(duration_to_u64(5), 5);
    assert_eq!(duration_to_u64(u128::from(u64::MAX) + 1), u64::MAX);
    assert!(flush_due(60));
    assert!(flush_due(0));
    assert!(!flush_due(61));
    assert!(check_queue_capacity(1).is_ok());
    assert_eq!(
        check_queue_capacity(0),
        Err("dataset recorder queue capacity must be greater than zero".to_owned())
    );
    assert_eq!(
        default_dataset_output_path(RecordingScenario::YawClockwise, -62_135_596_800),
        "artifacts/motion-datasets/00010101T000000Z-yaw_clockwise.ndjson"
    );
    assert_eq!(
        default_dataset_output_path(RecordingScenario::LinearForward, -62_167_219_200 - 86_400),
        "artifacts/motion-datasets/-0011231T000000Z-linear_forward.ndjson"
    );
}

#[test]
fn io_error_message_is_the_os_text() {
    let err = DatasetAnalysisError::Io(std::io::Error::new(std::io::ErrorKind::NotFound, "no such dataset"));
    assert_eq!(err.message(), "no such dataset");
}

#[test]
fn scenario_from_str_reads_names() {
    assert_eq!("yaw_clockwise".parse::<RecordingScenario>(), Ok(RecordingScenario::YawClockwise));
    assert!("sideways".parse::<RecordingScenario>().unwrap_err().starts_with("scenario must be one of"));
}

#[test]
fn started_at_utc_is_rfc3339() {
    assert_eq!(format_started_at_utc(0), Ok("1970-01-01T00:00:00Z".to_owned()));
    assert_eq!(
        format_started_at_utc(1_700_000_000_000_000_000),
        Ok("2023-11-14T22:13:20Z".to_owned())
    );
    // Year 10000 has no four-digit RFC 3339 form.
    let err = format_started_at_utc(253_402_300_800_000_000_000).unwrap_err();
    assert!(err.starts_with("failed to format UTC time: "), "{err}");
}
