//! The commands the tool accepts and the report command's fixed window.
//!
//! Argument parsing, path defaulting and printing live outside the core;
//! this module holds the plain values they exchange with it.

use vstd::prelude::*;

use crate::reporter::ReportTimespan;

verus! {

/// Error of the command-line layer.
#[derive(Debug, Clone, Copy, PartialEq, Eq, Structural)]
pub struct CliError;

/// The commands the tool accepts.
#[derive(Debug, Clone, Copy, PartialEq, Eq, Structural)]
pub enum Command {
    Start,
    Stop,
    Report,
}

/// Milliseconds in the twenty-four hours the report command covers.
pub const REPORT_WINDOW_MS: u64 = 86400000;

/// The window the report command queries: the last twenty-four hours.
pub fn report_window() -> (r: ReportTimespan)
    ensures
        r == ReportTimespan::Last(REPORT_WINDOW_MS),
{
    ReportTimespan::Last(REPORT_WINDOW_MS)
}

} // verus!
