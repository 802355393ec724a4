use mcpconfig::clock::{run_dir_name, TimeFormat, UtcTime};
use mcpconfig::events::LogEntry;
use mcpconfig::json::Json;

#[test]
fn formats_of_a_time() {
    let time = UtcTime::new(1_778_095_931, 41_000_000).unwrap();
    assert_eq!(time.format(TimeFormat::Date), "2026-05-06");
    assert_eq!(time.format(TimeFormat::Clock), "193211");
    assert_eq!(time.format(TimeFormat::DateAndClock), "2026-05-06 19:32:11");
    assert_eq!(time.format(TimeFormat::Stamp), "20260506T193211");
    assert_eq!(time.to_rfc3339(), "2026-05-06T19:32:11.041+00:00");
}

#[test]
fn earliest_and_latest_times() {
    let earliest = UtcTime::new(-8_334_601_228_800, 0).unwrap();
    assert_eq!(earliest.format(TimeFormat::Date), "-262143-01-01");
    assert_eq!(earliest.to_rfc3339(), "-262143-01-01T00:00:00+00:00");
    let latest = UtcTime::new(8_210_266_876_799, 1_999_999_999).unwrap();
    assert_eq!(latest.format(TimeFormat::Date), "+262142-12-31");
    assert_eq!(latest.format(TimeFormat::Clock), "235960");
    assert!(UtcTime::new(-8_334_601_228_801, 0).is_none());
    assert!(UtcTime::new(8_210_266_876_800, 0).is_none());
    assert!(chrono::DateTime::from_timestamp(-8_334_601_228_801, 0).is_none());
    assert!(chrono::DateTime::from_timestamp(8_210_266_876_800, 0).is_none());
}

#[test]
fn leap_seconds_end_a_minute() {
    assert!(UtcTime::new(59, 1_000_000_000).is_some());
    assert!(UtcTime::new(-1, 1_500_000_000).is_some());
    assert!(UtcTime::new(58, 1_000_000_000).is_none());
    assert!(UtcTime::new(59, 2_000_000_000).is_none());
    assert!(UtcTime::new(58, 999_999_999).is_some());
}

#[test]
fn run_directory_is_named_after_time_and_task() {
    let time = UtcTime::new(1_778_095_931, 0).unwrap();
    assert_eq!(time.run_dir_name("example_smoke"), "20260506T193211_example_smoke");
    assert_eq!(run_dir_name("S", "t"), "S_t");
}

#[test]
fn entry_becomes_an_event_at_a_time() {
    let entry = LogEntry { kind: "k".to_string(), data: Json::Null };
    let event = UtcTime::new(0, 0).unwrap().event(entry);
    assert_eq!(event.ts, "1970-01-01T00:00:00+00:00");
    assert_eq!(event.kind, "k");
}
