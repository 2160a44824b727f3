use bloom_parser::aggregate::{calculate_stats, count_apps, render_summary, sort_by_count};
use bloom_parser::numerals::{format_i32, format_u64};
use bloom_parser::records::{BloomRecord, MindfulSession};
use bloom_parser::resolve::split_duration;
use bloom_parser::xmlscan::scan_records;

fn record(app: &str, occurred_at: i64, minutes: i32, dropped: i32) -> BloomRecord {
    BloomRecord {
        app_name: String::from(app),
        occurred_at,
        meditation_minutes: minutes,
        dropped_seconds: dropped,
    }
}

#[test]
fn decimal_rendering() {
    assert_eq!(format_u64(0), "0");
    assert_eq!(format_u64(7), "7");
    assert_eq!(format_u64(1234567890), "1234567890");
    assert_eq!(format_i32(-5), "-5");
    assert_eq!(format_i32(0), "0");
    assert_eq!(format_i32(i32::MIN), "-2147483648");
    assert_eq!(format_i32(i32::MAX), "2147483647");
}

#[test]
fn duration_split_truncates_toward_zero() {
    assert_eq!(split_duration(330), (5, 30));
    assert_eq!(split_duration(0), (0, 0));
    assert_eq!(split_duration(59), (0, 59));
    assert_eq!(split_duration(-90), (-1, -30));
    assert_eq!(split_duration(i32::MAX), (i32::MAX / 60, i32::MAX % 60));
    assert_eq!(split_duration(i32::MIN), (i32::MIN / 60, i32::MIN % 60));
}

#[test]
fn tally_keeps_first_seen_order() {
    let records = vec![
        record("Zen", 0, 5, 0),
        record("Calm", 0, 5, 0),
        record("Zen", 0, 5, 0),
    ];
    let tally = count_apps(&records);
    assert_eq!(tally.len(), 2);
    assert_eq!(tally[0].0, "Zen");
    assert_eq!(tally[0].1, 2);
    assert_eq!(tally[1].0, "Calm");
    assert_eq!(tally[1].1, 1);
}

#[test]
fn sort_is_ascending_and_stable() {
    let tally = vec![
        (String::from("Zen"), 2u64),
        (String::from("Calm"), 1u64),
        (String::from("Breathe"), 1u64),
        (String::from("Still"), 3u64),
    ];
    let ordered = sort_by_count(&tally);
    let names: Vec<&str> = ordered.iter().map(|p| p.0.as_str()).collect();
    assert_eq!(names, vec!["Calm", "Breathe", "Zen", "Still"]);
}

#[test]
fn summary_lines_render_in_order() {
    let pairs = vec![(String::from("Calm"), 1u64), (String::from("Zen"), 2u64)];
    assert_eq!(render_summary(&pairs), "Calm: 1 entry\nZen: 2 entries\n");
    let empty: Vec<(String, u64)> = Vec::new();
    assert_eq!(render_summary(&empty), "");
}

#[test]
fn stats_of_empty_records_is_empty() {
    let records: Vec<BloomRecord> = Vec::new();
    assert_eq!(calculate_stats(&records), "");
}

#[test]
fn filter_takes_last_duplicate_attribute() {
    let name = String::from("Record");
    let attrs = vec![
        (
            String::from("type"),
            String::from("HKCategoryTypeIdentifierMindfulSession"),
        ),
        (String::from("sourceName"), String::from("First")),
        (String::from("sourceName"), String::from("Second")),
        (
            String::from("startDate"),
            String::from("2024-01-01 08:00:00 +0000"),
        ),
        (
            String::from("endDate"),
            String::from("2024-01-01 08:05:00 +0000"),
        ),
    ];
    let session = MindfulSession::new_from_element(&name, &attrs).unwrap();
    assert_eq!(session.app, "Second");
    assert_eq!(session.start, "2024-01-01 08:00:00 +0000");
    assert_eq!(session.end, "2024-01-01 08:05:00 +0000");
}

#[test]
fn filter_rejects_other_names_and_types() {
    let attrs = vec![(
        String::from("type"),
        String::from("HKCategoryTypeIdentifierMindfulSession"),
    )];
    assert!(MindfulSession::new_from_element(&String::from("Workout"), &attrs).is_none());
    let wrong_type = vec![(String::from("type"), String::from("HKQuantityTypeIdentifierStepCount"))];
    assert!(MindfulSession::new_from_element(&String::from("Record"), &wrong_type).is_none());
}

#[test]
fn missing_attributes_decode_to_empty() {
    let name = String::from("Record");
    let attrs = vec![(
        String::from("type"),
        String::from("HKCategoryTypeIdentifierMindfulSession"),
    )];
    let session = MindfulSession::new_from_element(&name, &attrs).unwrap();
    assert_eq!(session.app, "");
    assert_eq!(session.start, "");
    assert_eq!(session.end, "");
}

#[test]
fn empty_document_scans_to_nothing() {
    let records = scan_records(b"").unwrap();
    assert!(records.is_empty());
}

#[test]
fn start_elements_are_not_records() {
    // only self-closing elements carry records; a paired element is passed over
    let input = b"<?xml version=\"1.0\"?><HealthData><Record type=\"HKCategoryTypeIdentifierMindfulSession\" sourceName=\"Calm\" startDate=\"2024-01-01 08:00:00 +0000\" endDate=\"2024-01-01 08:05:00 +0000\"></Record></HealthData>";
    let records = scan_records(input).unwrap();
    assert!(records.is_empty());
}
