//! Verified core of the Anchor desktop motion pipeline: the motion sample
//! protocol checks, the UDP receiver state machine, the NDJSON dataset
//! validator and analyzer, the calibration quality gate, the filter-selection
//! decision rules and the command-line argument grammar.

pub mod text;
pub mod protocol;
pub mod receiver;
pub mod timefmt;
pub mod dataset;
pub mod analysis;
pub mod calibration;
pub mod selection;
pub mod filtering;
pub mod cli;
