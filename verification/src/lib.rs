//! cargo-health: scan a dependency tree and report maintenance health.
//!
//! The library holds the scoring rules, the report's text and tallies, and the
//! request and response rules of the crates.io client; the program around it
//! reads the lockfile, talks to crates.io and prints.
pub mod api;
pub mod binary64;
pub mod decimal;
pub mod lockfile;
pub mod report;
pub mod scorer;

pub use api::{
    check_status, crate_url, parse_failed_message, request_failed_message, CrateInfo, CRATES_IO_API,
    USER_AGENT,
};
pub use lockfile::Dependency;
pub use report::{format_downloads, has_critical, is_listed, repository_label, tally, CategoryCounts};
pub use scorer::{
    compute_days_since_update, compute_download_score, compute_update_score, score_dependency,
    score_from_signals, HealthCategory, HealthScore,
};
