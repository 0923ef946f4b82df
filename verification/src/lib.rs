//! Statistics over GitHub Actions workflow runs and their jobs: failure counts and
//! rates, failure streaks and duration figures, with the rules that turn fetched runs
//! into a report.

pub mod span;
pub mod fetch;
pub mod job;
pub mod workflow;
pub mod analysis;
pub mod laws;
pub mod report;
pub mod output;
