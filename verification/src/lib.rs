//! Differential testing: run two programs with the same inputs and compare
//! what they print and how they exit.
//!
//! The library decides everything about a comparison: how a program string
//! and a test case become a command line ([`runner::invocation`]), when two
//! runs agree ([`runner::compare_outputs`]), how differing output is shown
//! ([`make_diff`]), how `--inputs` values are split into arguments
//! ([`shell_words`]), and how results are reported ([`report`]). Starting the
//! programs and reading their output is left to the caller.

pub mod diff;
pub mod report;
pub mod runner;
pub mod text;
pub mod words;

pub use diff::make_diff;
pub use runner::{InputSource, RunResult};
pub use words::shell_words;
