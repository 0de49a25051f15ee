use clap::Command as ClapCommand;

use track::cli::{report_window, REPORT_WINDOW_MS};
use track::report_fmt::HMSFormatter;
use track::reporter::ReportTimespan;
use track::tracker::MemoryTracker;

#[test]
fn report_window_is_twenty_four_hours() {
    assert_eq!(REPORT_WINDOW_MS, 24 * 60 * 60 * 1000);
    assert_eq!(report_window(), ReportTimespan::Last(REPORT_WINDOW_MS));
}

#[test]
fn status_code_is_error_if_no_command_specified() {
    let cli = ClapCommand::new("track")
        .arg_required_else_help(true)
        .subcommand(ClapCommand::new("start"))
        .subcommand(ClapCommand::new("stop"))
        .subcommand(ClapCommand::new("report"));

    let result = cli.try_get_matches_from(["track"]);

    assert!(result.is_err());
}

#[test]
fn report_command_generates_report() {
    let mut tracker = MemoryTracker::new();

    tracker.start();
    tracker.stop().unwrap();

    let duration = tracker.total_duration(ReportTimespan::Last(86400000));
    let formatter = HMSFormatter::default();
    assert_eq!(formatter.format(duration), "00:00:00");
}
