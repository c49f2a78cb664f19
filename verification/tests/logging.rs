//! Tests of the run-time logging decisions: filter precedence, the level
//! boundary, and the span-timing output path.

use test_log::log_filter::LogLevel;
use test_log::log_filter::flame_output_path;
use test_log::log_filter::level_enabled;
use test_log::log_filter::parse_level;
use test_log::log_filter::resolve_log_filter;

fn bytes(s: &str) -> Vec<u8> {
    s.as_bytes().to_vec()
}

#[test]
fn the_environment_filter_wins() {
    let env = bytes("warn");
    let default = bytes("debug");
    assert_eq!(resolve_log_filter(Some(&env), Some(&default)), bytes("warn"));
}

#[test]
fn the_default_filter_is_the_fallback() {
    let default = bytes("debug");
    assert_eq!(resolve_log_filter(None, Some(&default)), bytes("debug"));
}

#[test]
fn with_nothing_configured_the_filter_is_info() {
    assert_eq!(resolve_log_filter(None, None), bytes("info"));
}

#[test]
fn level_names_parse_case_insensitively() {
    assert_eq!(parse_level(&bytes("debug")), Some(LogLevel::Debug));
    assert_eq!(parse_level(&bytes("DeBuG")), Some(LogLevel::Debug));
    assert_eq!(parse_level(&bytes("TRACE")), Some(LogLevel::Trace));
    assert_eq!(parse_level(&bytes("off")), Some(LogLevel::Off));
    assert_eq!(parse_level(&bytes("error")), Some(LogLevel::Error));
    assert_eq!(parse_level(&bytes("warn")), Some(LogLevel::Warn));
    assert_eq!(parse_level(&bytes("info")), Some(LogLevel::Info));
    assert_eq!(parse_level(&bytes("verbose")), None);
}

#[test]
fn the_level_boundary_is_inclusive() {
    assert!(level_enabled(LogLevel::Debug, LogLevel::Debug));
    assert!(!level_enabled(LogLevel::Debug, LogLevel::Trace));
    assert!(level_enabled(LogLevel::Info, LogLevel::Error));
    assert!(!level_enabled(LogLevel::Info, LogLevel::Debug));
    assert!(level_enabled(LogLevel::Trace, LogLevel::Trace));
    assert!(!level_enabled(LogLevel::Off, LogLevel::Error));
}

#[test]
fn the_flame_path_is_base_name_folded() {
    assert_eq!(
        flame_output_path(&bytes("/tmp/flames"), &bytes("my_test")),
        bytes("/tmp/flames/my_test.folded")
    );
}
