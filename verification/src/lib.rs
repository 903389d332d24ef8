//! CPU core scheduler for Linux: the verified library behind the `coresched` program.
//!
//! Physical cores go to `cfd` jobs and logical CPUs to `py` jobs, by priority. The state of the
//! scheduler is a value; `scheduler` and `jobs` hold what happens to it, `soundness` what stays
//! true of it throughout.

// Foundations.
pub mod seqs;
pub mod table;
pub mod text;

// The scheduler.
pub mod ids;
pub mod jobs;
pub mod paths;
pub mod scheduler;
pub mod soundness;
pub mod state;
pub mod topology;

// What is promised of the whole.
pub mod laws;

// The command line and the reports.
pub mod cli;
pub mod progress;
pub mod report;
pub mod summary;

// Processes, and calls into outside crates.
pub mod outside;
pub mod pattern;
pub mod pin;
pub mod process;
