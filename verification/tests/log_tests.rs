use arenacoach::log_follower::{
    detect_detailed_logs, extract_json_values, split_entries, DetailedLogs, LogEntry, LogFollower,
};

#[test]
fn headerless_unicode_truncation_keeps_character_boundaries() {
    let input = "界".repeat(30_000);
    let (entries, remainder) = split_entries(&input);
    assert!(entries.is_empty());
    assert!(remainder.len() <= 65_536);
    assert!(input.ends_with(&remainder));
}

#[test]
fn splits_multiline_json_entry() {
    let buffer = "\
[UnityCrossThreadLogger]9/8/2026 5:00:00 PM
{
  \"greToClientEvent\": {
    \"greToClientMessages\": [{\"type\":\"GREMessageType_GameStateMessage\"}]
  }
}
[UnityCrossThreadLogger]9/8/2026 5:00:01 PM
{\"ok\":true}
";
    let (entries, remainder) = split_entries(buffer);
    assert!(remainder.is_empty());
    assert_eq!(entries.len(), 2);
    assert_eq!(entries[0].timestamp.as_deref(), Some("9/8/2026 5:00:00 PM"));
    assert!(entries[0].body.contains("greToClientEvent"));
    assert_eq!(extract_json_values(&entries[0].body).len(), 1);
}

#[test]
fn keeps_partial_json_at_eof() {
    let buffer = "\
[UnityCrossThreadLogger]9/8/2026 5:00:00 PM
{\"greToClientEvent\":{\"greToClientMessages\":[";
    let (entries, remainder) = split_entries(buffer);
    assert!(entries.is_empty());
    assert!(remainder.contains("greToClientMessages"));
}

#[test]
fn detects_disabled_detailed_logs() {
    assert_eq!(
        detect_detailed_logs("DETAILED LOGS: DISABLED\nno gre here"),
        DetailedLogs::Off
    );
    assert_eq!(
        detect_detailed_logs("{\"greToClientEvent\":{}}"),
        DetailedLogs::On
    );
}

#[test]
fn unknown_when_the_log_says_nothing_of_detailed_logs() {
    assert_eq!(detect_detailed_logs("plain text"), DetailedLogs::Unknown);
}

#[test]
fn entry_without_timestamp_keeps_its_first_line() {
    let entry = LogEntry::from_chunk("[UnityCrossThreadLogger]{\"a\":1}\n");
    assert_eq!(entry.timestamp, None);
    assert!(entry.body.contains("{\"a\":1}"));
}

#[test]
fn entry_with_timestamp_splits_it_off() {
    let entry = LogEntry::from_chunk("[UnityCrossThreadLogger]9/8/2026 5:00:00 PM\n{\"a\":1}\n");
    assert_eq!(entry.timestamp.as_deref(), Some("9/8/2026 5:00:00 PM"));
    assert!(entry.body.starts_with("{\"a\":1}"));
}

#[test]
fn several_values_in_one_body() {
    let values = extract_json_values("{\"a\":1} noise {\"b\":[1,2]}");
    assert_eq!(values.len(), 2);
}

#[test]
fn follower_holds_back_a_partial_entry_until_it_completes() {
    let mut follower = LogFollower::from_start("Player.log".to_string());
    let first = follower.accept("[UnityCrossThreadLogger]9/8/2026 5:00:00 PM\n{\"a\":");
    assert!(first.is_empty());
    let second = follower.accept("1}\n");
    assert_eq!(second.len(), 1);
    assert_eq!(extract_json_values(&second[0].body).len(), 1);
}

#[test]
fn follower_offset_counts_the_bytes_accepted() {
    let mut follower = LogFollower::from_start("Player.log".to_string());
    follower.accept("[UnityCrossThreadLogger]x\n{}\n");
    assert_eq!(follower.offset(), 29);
    assert_eq!(follower.path(), "Player.log");
}
