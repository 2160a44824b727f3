use bloom_parser::pipeline::{run_pipeline, run_on_records, PipelineOutcome};
use bloom_parser::records::{MindfulSession, PipelineError};

fn mindful(app: &str, start: &str, end: &str) -> String {
    format!(
        "<Record type=\"HKCategoryTypeIdentifierMindfulSession\" sourceName=\"{}\" startDate=\"{}\" endDate=\"{}\"/>",
        app, start, end
    )
}

fn document(body: &str) -> Vec<u8> {
    format!("<?xml version=\"1.0\"?><HealthData>{}</HealthData>", body).into_bytes()
}

fn read_table(table: &[u8]) -> (Vec<String>, Vec<Vec<String>>) {
    let mut reader = csv::Reader::from_reader(table);
    let headers: Vec<String> = reader
        .headers()
        .unwrap()
        .iter()
        .map(|f| f.to_string())
        .collect();
    let mut rows = Vec::new();
    for record in reader.records() {
        let record = record.unwrap();
        rows.push(record.iter().map(|f| f.to_string()).collect());
    }
    (headers, rows)
}

#[test]
fn single_session_end_to_end() {
    let body = format!(
        "{}<Record type=\"HKQuantityTypeIdentifierStepCount\" sourceName=\"Phone\" startDate=\"2024-01-01 07:00:00 +0000\" endDate=\"2024-01-01 07:10:00 +0000\"/>",
        mindful(
            "Calm",
            "2024-01-01 08:00:00 +0000",
            "2024-01-01 08:05:30 +0000"
        )
    );
    let outcome = run_pipeline(&document(&body)).unwrap();
    match outcome {
        PipelineOutcome::Done { table, summary } => {
            assert_eq!(summary, "Calm: 1 entry\n");
            let (headers, rows) = read_table(&table);
            assert_eq!(
                headers,
                vec!["App Name", "Start Time", "Duration", "Dropped Seconds"]
            );
            assert_eq!(rows.len(), 1);
            assert_eq!(rows[0][0], "Calm");
            assert_eq!(rows[0][1], "2024-01-01T08:00:00Z");
            assert_eq!(rows[0][2], "5");
            assert_eq!(rows[0][3], "30");
        }
        PipelineOutcome::Empty => panic!("expected one resolved record"),
    }
}

#[test]
fn no_matching_elements_is_empty_outcome() {
    let body = "<Record type=\"HKQuantityTypeIdentifierStepCount\" sourceName=\"Phone\" startDate=\"2024-01-01 07:00:00 +0000\" endDate=\"2024-01-01 07:10:00 +0000\"/>";
    let outcome = run_pipeline(&document(body)).unwrap();
    assert!(matches!(outcome, PipelineOutcome::Empty));
}

#[test]
fn two_records_same_app_pluralize() {
    let body = format!(
        "{}{}",
        mindful(
            "Headspace",
            "2024-03-05 09:00:00 +0000",
            "2024-03-05 09:10:00 +0000"
        ),
        mindful(
            "Headspace",
            "2024-03-05 21:00:00 +0000",
            "2024-03-05 21:12:00 +0000"
        )
    );
    let outcome = run_pipeline(&document(&body)).unwrap();
    match outcome {
        PipelineOutcome::Done { summary, .. } => {
            assert_eq!(summary, "Headspace: 2 entries\n");
        }
        PipelineOutcome::Empty => panic!("expected two resolved records"),
    }
}

#[test]
fn non_matching_type_produces_nothing() {
    let body = "<Record type=\"HKCategoryTypeIdentifierSleepAnalysis\" sourceName=\"Watch\" startDate=\"2024-01-01 22:00:00 +0000\" endDate=\"2024-01-02 06:00:00 +0000\"/>";
    let records = bloom_parser::xmlscan::scan_records(&document(body)).unwrap();
    assert!(records.is_empty());
}

#[test]
fn summary_sorted_ascending_with_stable_ties() {
    let body = format!(
        "{}{}{}{}",
        mindful("Zen", "2024-01-01 08:00:00 +0000", "2024-01-01 08:05:00 +0000"),
        mindful("Calm", "2024-01-02 08:00:00 +0000", "2024-01-02 08:05:00 +0000"),
        mindful("Zen", "2024-01-03 08:00:00 +0000", "2024-01-03 08:05:00 +0000"),
        mindful(
            "Breathe",
            "2024-01-04 08:00:00 +0000",
            "2024-01-04 08:05:00 +0000"
        )
    );
    let outcome = run_pipeline(&document(&body)).unwrap();
    match outcome {
        PipelineOutcome::Done { summary, .. } => {
            assert_eq!(summary, "Calm: 1 entry\nBreathe: 1 entry\nZen: 2 entries\n");
        }
        PipelineOutcome::Empty => panic!("expected resolved records"),
    }
}

#[test]
fn zero_duration_rows_are_skipped_but_counted() {
    let body = format!(
        "{}{}",
        mindful(
            "Calm",
            "2024-01-01 08:00:00 +0000",
            "2024-01-01 08:00:30 +0000"
        ),
        mindful(
            "Calm",
            "2024-01-02 08:00:00 +0000",
            "2024-01-02 08:07:00 +0000"
        )
    );
    let outcome = run_pipeline(&document(&body)).unwrap();
    match outcome {
        PipelineOutcome::Done { table, summary } => {
            let (_, rows) = read_table(&table);
            assert_eq!(rows.len(), 1);
            assert_eq!(rows[0][2], "7");
            assert_eq!(summary, "Calm: 2 entries\n");
        }
        PipelineOutcome::Empty => panic!("expected resolved records"),
    }
}

#[test]
fn table_round_trips_through_reader() {
    let sessions = vec![
        MindfulSession {
            app: String::from("Calm, quiet & co"),
            start: String::from("2024-01-01 08:00:00 +0000"),
            end: String::from("2024-01-01 08:05:30 +0000"),
        },
        MindfulSession {
            app: String::from("Headspace"),
            start: String::from("2024-02-01 09:30:00 +0000"),
            end: String::from("2024-02-01 09:00:00 +0000"),
        },
    ];
    let expected: Vec<(String, i32, i32)> = sessions
        .iter()
        .map(|s| {
            let rec = bloom_parser::records::BloomRecord::new_from_user_data(s).unwrap();
            (rec.app_name, rec.meditation_minutes, rec.dropped_seconds)
        })
        .collect();
    let outcome = run_on_records(&sessions).unwrap();
    match outcome {
        PipelineOutcome::Done { table, .. } => {
            let (_, rows) = read_table(&table);
            assert_eq!(rows.len(), expected.len());
            for (row, exp) in rows.iter().zip(expected.iter()) {
                assert_eq!(row[0], exp.0);
                assert_eq!(row[2].parse::<i32>().unwrap(), exp.1);
                assert_eq!(row[3].parse::<i32>().unwrap(), exp.2);
            }
        }
        PipelineOutcome::Empty => panic!("expected resolved records"),
    }
}

#[test]
fn malformed_document_is_a_parse_error() {
    let input = b"<?xml version=\"1.0\"?><HealthData><Record type=".to_vec();
    let err = run_pipeline(&input).unwrap_err();
    assert!(matches!(err, PipelineError::Parse(_)));
}

#[test]
fn bad_timestamp_is_a_format_error() {
    let body = mindful("Calm", "yesterday at nine", "2024-01-01 08:05:30 +0000");
    let err = run_pipeline(&document(&body)).unwrap_err();
    match err {
        PipelineError::Format(text) => assert_eq!(text, "yesterday at nine"),
        other => panic!("expected a format error, got {:?}", variant_name(&other)),
    }
}

#[test]
fn huge_elapsed_span_is_a_range_error() {
    let body = mindful(
        "Calm",
        "1900-01-01 00:00:00 +0000",
        "2100-01-01 00:00:00 +0000",
    );
    let err = run_pipeline(&document(&body)).unwrap_err();
    assert!(matches!(err, PipelineError::Range));
}

fn variant_name(e: &PipelineError) -> &'static str {
    match e {
        PipelineError::Parse(_) => "Parse",
        PipelineError::Format(_) => "Format",
        PipelineError::Range => "Range",
        PipelineError::Serialization(_) => "Serialization",
    }
}

#[test]
fn attribute_entities_are_unescaped() {
    let body = mindful(
        "Calm &amp; Co",
        "2024-01-01 08:00:00 +0000",
        "2024-01-01 08:05:30 +0000",
    );
    let records = bloom_parser::xmlscan::scan_records(&document(&body)).unwrap();
    assert_eq!(records.len(), 1);
    assert_eq!(records[0].app, "Calm & Co");
}

#[test]
fn offsets_normalize_to_utc() {
    let session = MindfulSession {
        app: String::from("Calm"),
        start: String::from("2024-01-01 09:00:00 +0100"),
        end: String::from("2024-01-01 08:10:00 +0000"),
    };
    let rec = bloom_parser::records::BloomRecord::new_from_user_data(&session).unwrap();
    // 09:00 at +0100 is 08:00 UTC, 1704096000 seconds into the epoch
    assert_eq!(rec.occurred_at, 1704096000);
    assert_eq!(rec.meditation_minutes, 10);
    assert_eq!(rec.dropped_seconds, 0);
}

#[test]
fn negative_duration_passes_through() {
    let session = MindfulSession {
        app: String::from("Calm"),
        start: String::from("2024-01-01 08:05:45 +0000"),
        end: String::from("2024-01-01 08:04:15 +0000"),
    };
    let rec = bloom_parser::records::BloomRecord::new_from_user_data(&session).unwrap();
    assert_eq!(rec.meditation_minutes, -1);
    assert_eq!(rec.dropped_seconds, -30);
}
