//! Submodule health, release bookkeeping and version-planning logic.
pub mod text;
pub mod model;
pub mod code;
pub mod contract;
pub mod commands;
pub mod detect;
pub mod cli_detect;
pub mod gix_scan;
pub mod plan;
pub mod test_report;
pub mod validate;
pub mod preflight;
pub mod git_experiment;
pub mod build_status;
