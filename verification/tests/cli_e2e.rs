//! What the `pubsub` commands print, taken from the library functions behind them.

use pub_sub_pipeline::art::{BANNER, HELP_LONG, TAGLINE};
use pub_sub_pipeline::scenarios::{demo_broadcast_sample, demo_report, run_fanout_report, sort_ascending, square_line};
use pub_sub_pipeline::text::parse_i32;

fn squares_output(input: &str) -> Result<String, pub_sub_pipeline::scenarios::ScenarioError> {
    let mut out = String::new();
    for line in input.split_inclusive('\n') {
        if let Some(y) = square_line(line)? {
            out.push_str(&format!("{y}\n"));
        }
    }
    Ok(out)
}

#[test]
fn help_lists_commands_and_ascii_motif() {
    assert!(HELP_LONG.contains("P U B / S U B"));
    assert!(BANNER.contains("P U B / S U B"));
    assert!(HELP_LONG.contains(TAGLINE));
}

fn demo_report_from_library() -> String {
    let (a, b) = demo_broadcast_sample().unwrap();
    let squares: Vec<i32> = ["4", "5"]
        .iter()
        .map(|s| parse_i32(s).unwrap_or(0))
        .map(|n| n * n)
        .collect();
    let mut merged = vec![20, 10];
    sort_ascending(&mut merged);
    demo_report(a, b, &squares, &merged)
}

#[test]
fn demo_runs_deterministic_report() {
    let hay = demo_report_from_library();
    assert!(hay.contains("broadcast sample"));
    assert!(hay.contains("pipeline squares"));
    assert!(hay.contains("fan-in merged"));
    assert!(hay.contains("a=2 b=2"));
    assert!(hay.contains("[16, 25]"));
    assert!(hay.contains("[10, 20]"));
}

#[test]
fn squares_transforms_stdin_lines() {
    assert_eq!(squares_output("3\n4\n\n").unwrap(), "9\n16\n");
}

#[test]
fn squares_reports_error_on_bad_integer() {
    assert!(squares_output("not-an-int\n").is_err());
}

#[test]
fn fanout_drains_all_subscribers() {
    let hay = run_fanout_report(2, 4, "e2e").expect("fanout");
    assert!(hay.contains("topic=e2e"));
    assert!(hay.contains("subscribers=2"));
    assert!(hay.contains("publishes=4"));
}

#[test]
fn demo_verbose_flag_still_succeeds() {
    // `--verbose` only installs a tracing subscriber in the binary; the
    // library's demo pieces run the same way and still produce the report.
    let hay = demo_report_from_library();
    assert!(hay.ends_with("fan-in merged (sorted): [10, 20]\n"));
}
