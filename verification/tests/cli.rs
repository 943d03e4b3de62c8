use anchor_desktop::cli::{
    parse_command, parse_positive_u64, parse_scenario_dataset, usage, CommandArgs,
    DeferredCheckKind,
};
use anchor_desktop::dataset::RecordingScenario;

fn args(items: &[&str]) -> Vec<String> {
    items.iter().map(|item| (*item).to_owned()).collect()
}

fn error_of(items: &[&str]) -> String {
    parse_command(&args(items)).result.expect_err("command must fail")
}

#[test]
fn parse_record_command_requires_known_scenario() {
    let err = error_of(&[
        "record",
        "--scenario",
        "unknown",
        "--duration-seconds",
        "15",
    ]);

    assert!(err.contains("scenario must be one of"));
}

#[test]
fn record_reads_all_options_and_defers_bind_checks() {
    let parsed = parse_command(&args(&[
        "record",
        "--scenario",
        "roll_left",
        "--duration-seconds",
        "+15",
        "--",
        "--bind",
        "127.0.0.1:9",
        "--notes",
        "seat belt on",
    ]));
    match parsed.result.expect("record parses") {
        CommandArgs::Record {
            scenario,
            duration_seconds,
            output_path,
            bind_addr,
            notes,
        } => {
            assert_eq!(scenario, RecordingScenario::RollLeft);
            assert_eq!(duration_seconds, 15);
            assert_eq!(output_path, None);
            assert_eq!(bind_addr, "127.0.0.1:9");
            assert_eq!(notes.as_deref(), Some("seat belt on"));
        }
        other => panic!("unexpected command {other:?}"),
    }
    assert_eq!(parsed.checks.len(), 1);
    assert_eq!(parsed.checks[0].kind, DeferredCheckKind::BindAddress);
    assert_eq!(parsed.checks[0].value, "127.0.0.1:9");
}

#[test]
fn record_errors_in_order() {
    assert_eq!(error_of(&["record", "--foo"]), "missing value for --foo");
    assert!(error_of(&["record", "--foo", "x"]).starts_with("unsupported option for record: --foo\n\nUsage:"));
    assert_eq!(
        error_of(&["record", "--duration-seconds", "0"]),
        "duration-seconds must be a positive integer"
    );
    assert_eq!(
        error_of(&["record", "--duration-seconds", "5"]),
        "--scenario is required"
    );
    assert_eq!(
        error_of(&["record", "--scenario", "stationary"]),
        "--duration-seconds is required"
    );
    let failed = parse_command(&args(&["record", "--bind", "bad", "--scenario", "nope"]));
    assert_eq!(failed.checks.len(), 1);
    assert!(failed.result.is_err());
}

#[test]
fn analyze_and_calibrate_take_one_path() {
    match parse_command(&args(&["analyze", "--", "run.ndjson", "--json", "--json"]))
        .result
        .expect("analyze parses")
    {
        CommandArgs::Analyze { path, json } => {
            assert_eq!(path, "run.ndjson");
            assert!(json);
        }
        other => panic!("unexpected command {other:?}"),
    }
    assert_eq!(
        error_of(&["analyze", "a", "b"]),
        "analyze accepts exactly one dataset path"
    );
    assert_eq!(error_of(&["analyze", "--json"]), "analyze requires a dataset path");
    assert_eq!(
        error_of(&["analyze"]),
        format!("analyze requires a dataset path\n\n{}", usage())
    );
    match parse_command(&args(&["calibrate", "run.ndjson", "--output", "p.json"]))
        .result
        .expect("calibrate parses")
    {
        CommandArgs::Calibrate {
            path,
            output_path,
            json,
        } => {
            assert_eq!(path, "run.ndjson");
            assert_eq!(output_path.as_deref(), Some("p.json"));
            assert!(!json);
        }
        other => panic!("unexpected command {other:?}"),
    }
    assert_eq!(
        error_of(&["calibrate", "run.ndjson", "--output"]),
        "missing value for --output"
    );
}

#[test]
fn evaluate_checks_its_option_combinations() {
    let parsed = parse_command(&args(&[
        "evaluate",
        "--synthetic",
        "--low-pass-tau-ms",
        "50,100",
        "--complementary-tau-ms",
        "250",
        "--json",
    ]));
    assert!(matches!(
        parsed.result,
        Ok(CommandArgs::Evaluate { synthetic: true, json: true, .. })
    ));
    assert_eq!(parsed.checks.len(), 2);
    assert_eq!(parsed.checks[0].kind, DeferredCheckKind::LowPassTau);
    assert_eq!(parsed.checks[1].kind, DeferredCheckKind::ComplementaryTau);

    assert_eq!(
        error_of(&["evaluate", "--synthetic", "--synthetic"]),
        "--synthetic may only be provided once"
    );
    assert!(error_of(&["evaluate", "--synthetic", "--unknown"])
        .starts_with("unsupported option for evaluate: --unknown"));
    assert_eq!(
        error_of(&["evaluate", "x"]),
        "unexpected positional argument for evaluate: x"
    );
    assert_eq!(
        error_of(&["evaluate", "--synthetic", "--dataset", "d"]),
        "--synthetic is mutually exclusive with --dataset"
    );
    assert_eq!(
        error_of(&["evaluate"]),
        "evaluate requires either --synthetic or --dataset"
    );
    assert_eq!(
        error_of(&["evaluate", "--dataset", "d"]),
        "--dataset requires --profile"
    );
    assert_eq!(
        error_of(&["evaluate", "--synthetic", "--profile", "p"]),
        "--profile requires --dataset"
    );
}

#[test]
fn select_reads_datasets_in_order() {
    let parsed = parse_command(&args(&[
        "select",
        "--profile",
        "p.json",
        "--dataset",
        "stationary=a=b.ndjson",
        "--dataset",
        "yaw_clockwise=y.ndjson",
    ]));
    match parsed.result.expect("select parses") {
        CommandArgs::Select {
            profile_path,
            datasets,
            low_pass_tau_ms,
            ..
        } => {
            assert_eq!(profile_path, "p.json");
            assert_eq!(datasets.len(), 2);
            assert_eq!(datasets[0].scenario, RecordingScenario::Stationary);
            assert_eq!(datasets[0].path, "a=b.ndjson");
            assert_eq!(datasets[1].scenario, RecordingScenario::YawClockwise);
            assert_eq!(low_pass_tau_ms, None);
        }
        other => panic!("unexpected command {other:?}"),
    }
    assert_eq!(error_of(&["select"]), "select requires --profile");
    assert_eq!(
        error_of(&["select", "--dataset", "stationary"]),
        "--dataset must use scenario=path"
    );
    assert_eq!(
        error_of(&["select", "--dataset", "stationary="]),
        "--dataset path must not be empty"
    );
}

#[test]
fn unknown_subcommands_and_help_print_usage() {
    assert_eq!(error_of(&[]), usage());
    assert_eq!(error_of(&["--help"]), usage());
    assert_eq!(error_of(&["-h"]), usage());
    assert_eq!(
        error_of(&["frobnicate"]),
        format!("unsupported subcommand: frobnicate\n\n{}", usage())
    );
}

#[test]
fn positive_integers_follow_the_standard_grammar() {
    assert_eq!(parse_positive_u64("15", "n"), Ok(15));
    assert_eq!(parse_positive_u64("+7", "n"), Ok(7));
    assert_eq!(parse_positive_u64("007", "n"), Ok(7));
    assert_eq!(
        parse_positive_u64("18446744073709551615", "n"),
        Ok(u64::MAX)
    );
    for bad in ["", "+", "-1", "0", "1.5", " 1", "18446744073709551616", "1_000"] {
        assert_eq!(
            parse_positive_u64(bad, "duration-seconds"),
            Err("duration-seconds must be a positive integer".to_owned()),
            "{bad}"
        );
    }
}

#[test]
fn scenario_dataset_values_split_at_the_first_equals() {
    assert_eq!(
        parse_scenario_dataset("roll_right=x=y"),
        Ok((RecordingScenario::RollRight, "x=y".to_owned()))
    );
    assert!(parse_scenario_dataset("nope=x")
        .expect_err("unknown scenario")
        .starts_with("scenario must be one of"));
}
