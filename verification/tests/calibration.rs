use anchor_desktop::calibration::{
    count_quality_violations, default_profile_output_path_for_dataset,
    safe_source_dataset_identifier, sanitize_path_component, sanitize_source_dataset_identifier,
    validate_diagnostic_sample_count, validate_profile_identity, validate_quality_counts,
    validate_session_id, validate_source_dataset_identifier, CalibrationCounts, ProfileIdentity,
    QualityCounts, CALIBRATION_METHOD, CALIBRATION_QUALITY_CRITERIA, LEVELED_MOUNTING_CONVENTION,
};
use anchor_desktop::dataset::RecordingScenario;

fn clean_counts() -> CalibrationCounts {
    CalibrationCounts {
        scenario: RecordingScenario::Stationary,
        dataset_complete: true,
        session_count: 1,
        sample_count: 180,
        observed_duration_us: 3_000_000,
        recorder_dropped_samples: 0,
    }
}

fn codes(counts: &CalibrationCounts) -> Vec<String> {
    count_quality_violations(counts)
        .into_iter()
        .map(|item| item.code)
        .collect()
}

#[test]
fn default_output_path_is_safe_and_relative() {
    let path = default_profile_output_path_for_dataset("/tmp/Unsafe Name.ndjson");

    assert_eq!(
        path,
        "artifacts/motion-calibrations/unsafe-name-calibration-v1.json"
    );
}

#[test]
fn integer_thresholds_accept_exact_boundary_values() {
    assert!(count_quality_violations(&clean_counts()).is_empty());
}

#[test]
fn non_stationary_scenario_is_a_violation() {
    let counts = CalibrationCounts {
        scenario: RecordingScenario::RollRight,
        ..clean_counts()
    };
    let violations = count_quality_violations(&counts);
    assert_eq!(violations.len(), 1);
    assert_eq!(violations[0].code, "scenario_not_stationary");
    assert_eq!(
        violations[0].message,
        "scenario must be stationary for calibration, got roll_right"
    );
}

#[test]
fn short_dataset_is_a_violation() {
    let counts = CalibrationCounts {
        sample_count: 179,
        observed_duration_us: 2_999_999,
        ..clean_counts()
    };
    let violations = count_quality_violations(&counts);
    assert_eq!(violations[0].message, "sample count must be at least 180, got 179");
    assert_eq!(
        violations[1].message,
        "observed duration must be at least 3000000 us, got 2999999 us"
    );
}

#[test]
fn incomplete_dataset_is_a_violation() {
    let counts = CalibrationCounts {
        dataset_complete: false,
        ..clean_counts()
    };
    assert_eq!(codes(&counts), vec!["dataset_incomplete".to_owned()]);
}

#[test]
fn multiple_sessions_are_a_violation() {
    let counts = CalibrationCounts {
        session_count: 2,
        ..clean_counts()
    };
    let violations = count_quality_violations(&counts);
    assert_eq!(violations[0].message, "dataset must contain exactly one session, got 2");
}

#[test]
fn recorder_drops_are_a_violation() {
    let counts = CalibrationCounts {
        recorder_dropped_samples: 3,
        ..clean_counts()
    };
    let violations = count_quality_violations(&counts);
    assert_eq!(violations[0].code, "recorder_dropped_samples");
    assert_eq!(violations[0].message, "recorderDroppedSamples must be 0, got 3");
}

#[test]
fn integer_violations_are_reported_together() {
    let counts = CalibrationCounts {
        scenario: RecordingScenario::LinearForward,
        dataset_complete: false,
        session_count: 0,
        sample_count: 0,
        observed_duration_us: 0,
        recorder_dropped_samples: 1,
    };
    assert_eq!(
        codes(&counts),
        vec![
            "scenario_not_stationary".to_owned(),
            "dataset_incomplete".to_owned(),
            "session_count".to_owned(),
            "sample_count".to_owned(),
            "observed_duration_us".to_owned(),
            "recorder_dropped_samples".to_owned(),
        ]
    );
}

#[test]
fn path_components_are_sanitized() {
    assert_eq!(sanitize_path_component("Unsafe Name"), "unsafe-name");
    assert_eq!(sanitize_path_component("a  //  b"), "a-b");
    assert_eq!(sanitize_path_component("--x--"), "x");
    assert_eq!(sanitize_path_component(".-a"), "-a");
    assert_eq!(sanitize_path_component(".."), "dataset");
    assert_eq!(sanitize_path_component("???"), "dataset");
    assert_eq!(sanitize_path_component("Ünïcode.ndjson"), "n-code.ndjson");
}

#[test]
fn file_stems_follow_the_last_dot() {
    assert_eq!(
        default_profile_output_path_for_dataset("captures/run.2.ndjson"),
        "artifacts/motion-calibrations/run.2-calibration-v1.json"
    );
    assert_eq!(
        default_profile_output_path_for_dataset("captures/.hidden"),
        "artifacts/motion-calibrations/hidden-calibration-v1.json"
    );
    assert_eq!(
        default_profile_output_path_for_dataset("captures/name/"),
        "artifacts/motion-calibrations/name-calibration-v1.json"
    );
    assert_eq!(
        default_profile_output_path_for_dataset("/"),
        "artifacts/motion-calibrations/dataset-calibration-v1.json"
    );
    assert_eq!(
        default_profile_output_path_for_dataset("a/.."),
        "artifacts/motion-calibrations/dataset-calibration-v1.json"
    );
}

#[test]
fn source_identifiers_are_checked() {
    assert!(validate_source_dataset_identifier("profile.ndjson").is_ok());
    assert!(validate_source_dataset_identifier("a/./b.ndjson").is_ok());
    assert_eq!(
        validate_source_dataset_identifier(""),
        Err("sourceDataset must not be empty".to_owned())
    );
    assert_eq!(
        validate_source_dataset_identifier("/etc/passwd"),
        Err("sourceDataset must not be an absolute path".to_owned())
    );
    assert_eq!(
        validate_source_dataset_identifier("../x"),
        Err("sourceDataset must be a safe relative identifier".to_owned())
    );
    assert_eq!(
        validate_source_dataset_identifier("./x"),
        Err("sourceDataset must be a safe relative identifier".to_owned())
    );
    assert_eq!(
        sanitize_source_dataset_identifier("dir/Profile Data.ndjson"),
        "profile-data.ndjson"
    );
    assert_eq!(sanitize_source_dataset_identifier(".."), "dataset.ndjson");
    assert_eq!(
        safe_source_dataset_identifier("/tmp/My Capture.ndjson"),
        Ok("my-capture.ndjson".to_owned())
    );
    assert_eq!(
        safe_source_dataset_identifier("/tmp/.."),
        Err("dataset path must end with a valid UTF-8 file name: /tmp/..".to_owned())
    );
}

#[test]
fn session_ids_have_one_to_sixty_four_characters() {
    assert!(validate_session_id("a").is_ok());
    assert!(validate_session_id(&"x".repeat(64)).is_ok());
    assert_eq!(
        validate_session_id(""),
        Err("sourceSessionId must be 1..=64 characters".to_owned())
    );
    assert!(validate_session_id(&"é".repeat(65)).is_err());
}

fn identity() -> ProfileIdentity {
    ProfileIdentity {
        calibration_profile_version: 1,
        method: CALIBRATION_METHOD.to_owned(),
        created_at_utc: "2026-09-02T12:10:00Z".to_owned(),
        source_dataset: "stationary.ndjson".to_owned(),
        source_started_at_utc: "2026-09-02T12:00:00Z".to_owned(),
        source_dataset_format_version: 1,
        source_protocol_version: 1,
        source_session_id: "session-a".to_owned(),
        source_sample_count: 180,
        source_observed_duration_us: 3_000_000,
        mounting_convention: LEVELED_MOUNTING_CONVENTION.to_owned(),
        yaw_calibrated: false,
    }
}

#[test]
fn profile_identity_is_checked_in_order() {
    assert_eq!(validate_profile_identity(&identity()), Ok(()));
    assert_eq!(
        validate_profile_identity(&ProfileIdentity { calibration_profile_version: 2, ..identity() }),
        Err("unsupported calibrationProfileVersion: 2".to_owned())
    );
    assert_eq!(
        validate_profile_identity(&ProfileIdentity { method: "x".to_owned(), ..identity() }),
        Err("unsupported calibration method: x".to_owned())
    );
    assert_eq!(
        validate_profile_identity(&ProfileIdentity { yaw_calibrated: true, ..identity() }),
        Err("yawCalibrated must remain false for stationary_level_and_bias_v1".to_owned())
    );
    assert_eq!(
        validate_profile_identity(&ProfileIdentity {
            created_at_utc: "2026-09-02T11:00:00Z".to_owned(),
            ..identity()
        }),
        Err("createdAtUtc must be greater than or equal to sourceStartedAtUtc".to_owned())
    );
    assert!(validate_profile_identity(&ProfileIdentity {
        created_at_utc: "yesterday".to_owned(),
        ..identity()
    })
    .expect_err("not RFC 3339")
    .starts_with("createdAtUtc must be RFC 3339: "));
    assert_eq!(
        validate_profile_identity(&ProfileIdentity { source_sample_count: 179, ..identity() }),
        Err("sourceSampleCount must be at least 180, got 179".to_owned())
    );
    assert_eq!(
        validate_profile_identity(&ProfileIdentity {
            source_dataset: "../escape".to_owned(),
            ..identity()
        }),
        Err("sourceDataset must be a safe relative identifier".to_owned())
    );
}

#[test]
fn quality_counts_are_checked_in_order() {
    let good = QualityCounts {
        criteria: CALIBRATION_QUALITY_CRITERIA.to_owned(),
        passed: true,
        violation_count: 0,
        diagnostics_sample_count: 200,
        dataset_complete: true,
        session_count: 1,
        recorder_dropped_samples: 0,
    };
    assert_eq!(validate_quality_counts(&good, 200), Ok(()));
    assert_eq!(
        validate_quality_counts(&good, 201),
        Err("sourceSampleCount must match quality.diagnostics.sampleCount".to_owned())
    );
    assert_eq!(
        validate_quality_counts(&QualityCounts { passed: false, ..good.clone() }, 200),
        Err("quality.passed must be true".to_owned())
    );
    assert_eq!(
        validate_quality_counts(&QualityCounts { session_count: 2, ..good }, 200),
        Err("quality.diagnostics.sessionCount must be 1".to_owned())
    );
    assert!(validate_diagnostic_sample_count(180).is_ok());
    assert!(validate_diagnostic_sample_count(179).is_err());
}
