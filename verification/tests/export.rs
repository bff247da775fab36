use tw_celoxis::calendar::Instant;
use tw_celoxis::export::{read_document, ExportError, JsonValue, RecordError};
use tw_celoxis::grouping::TimeData;

#[test]
fn export_with_both_instant_forms() {
    let text = r#"[
        {"id": 2, "start": "20240102T090000Z", "end": "20240102T110000Z", "tags": ["b", 3, "a"], "annotation": "note"},
        {"start": "2024-01-02T12:00:00+01:00"},
        7,
        {"start": "20240102T090000Z", "end": 5}
    ]"#;
    let reading = TimeData::read_time_entries(text).unwrap();
    assert_eq!(reading.entries.len(), 2);
    assert_eq!(reading.entries[0].id, "export-0");
    assert_eq!(reading.entries[0].start, Instant::at(1_704_186_000));
    assert_eq!(reading.entries[0].end, Some(Instant::at(1_704_193_200)));
    assert_eq!(reading.entries[0].tags, vec!["b".to_string(), "a".to_string()]);
    assert_eq!(reading.entries[0].annotation, Some("note".to_string()));
    assert!(!reading.entries[0].submitted);
    assert_eq!(reading.entries[1].id, "export-1");
    assert_eq!(reading.entries[1].start, Instant::at(1_704_193_200));
    assert_eq!(reading.entries[1].end, None);
    assert!(reading.entries[1].tags.is_empty());
    assert_eq!(reading.entries[1].annotation, None);
    assert_eq!(
        reading.rejected,
        vec![(2, RecordError::InvalidEntryFormat), (3, RecordError::EndNotText)]
    );
}

#[test]
fn every_reason_to_set_a_record_aside() {
    let text = r#"[
        [],
        {"end": "20240102T110000Z"},
        {"start": 5},
        {"start": "soon"},
        {"start": "20240102T090000Z", "end": null},
        {"start": "20240102T090000Z", "end": "never"}
    ]"#;
    let reading = TimeData::read_time_entries(text).unwrap();
    assert!(reading.entries.is_empty());
    assert_eq!(
        reading.rejected,
        vec![
            (0, RecordError::InvalidEntryFormat),
            (1, RecordError::MissingStart),
            (2, RecordError::MissingStart),
            (3, RecordError::InvalidStart),
            (4, RecordError::EndNotText),
            (5, RecordError::InvalidEnd),
        ]
    );
}

#[test]
fn identifiers_count_the_records_not_the_entries() {
    let text = r#"[1, 2, 3, 4, 5, 6, 7, 8, 9, 10, {"start": "20240102T090000Z"}]"#;
    let reading = TimeData::read_time_entries(text).unwrap();
    assert_eq!(reading.entries.len(), 1);
    assert_eq!(reading.entries[0].id, "export-10");
}

#[test]
fn export_that_is_no_array() {
    assert_eq!(TimeData::read_time_entries("{}").unwrap_err(), ExportError::NotAnArray);
    assert_eq!(TimeData::read_time_entries("[").unwrap_err(), ExportError::NotJson);
    assert_eq!(TimeData::read_time_entries("").unwrap_err(), ExportError::NotJson);
    assert!(TimeData::read_time_entries("[]").unwrap().entries.is_empty());
}

#[test]
fn a_document_built_by_hand_reads_the_same() {
    let record = JsonValue::Object(vec![
        ("tags".to_string(), JsonValue::Text("not a list".to_string())),
        ("start".to_string(), JsonValue::Text("20240102T090000Z".to_string())),
        ("start".to_string(), JsonValue::Text("20240103T090000Z".to_string())),
        ("annotation".to_string(), JsonValue::Bool(true)),
    ]);
    let reading = read_document(Some(JsonValue::Array(vec![record, JsonValue::Null]))).unwrap();
    assert_eq!(reading.entries.len(), 1);
    assert_eq!(reading.entries[0].start, Instant::at(1_704_186_000));
    assert!(reading.entries[0].tags.is_empty());
    assert_eq!(reading.entries[0].annotation, None);
    assert_eq!(reading.rejected, vec![(1, RecordError::InvalidEntryFormat)]);
    assert_eq!(read_document(None).unwrap_err(), ExportError::NotJson);
    assert_eq!(
        read_document(Some(JsonValue::Number("1".to_string()))).unwrap_err(),
        ExportError::NotAnArray
    );
}

#[test]
fn an_export_that_cannot_be_read_leaves_the_entries_held() {
    let mut data = TimeData { entries: Vec::new() };
    let rejected = data
        .filter_by_date_range(r#"[{"start": "20240102T090000Z"}, {"start": "x"}]"#)
        .unwrap();
    assert_eq!(rejected, vec![(1, RecordError::InvalidStart)]);
    assert_eq!(data.entries.len(), 1);
    assert_eq!(data.filter_by_date_range("not json").unwrap_err(), ExportError::NotJson);
    assert_eq!(data.filter_by_date_range("{}").unwrap_err(), ExportError::NotAnArray);
    assert_eq!(data.entries.len(), 1);
    assert_eq!(data.entries[0].id, "export-0");
    assert!(data.filter_by_date_range("[]").unwrap().is_empty());
    assert!(data.entries.is_empty());
}

#[test]
fn a_fraction_of_a_second_is_read() {
    let text = r#"[{"start": "2024-01-02T10:00:00.9Z", "end": "2024-01-02T11:01:00.1+01:00"}]"#;
    let reading = TimeData::read_time_entries(text).unwrap();
    let entry = &reading.entries[0];
    assert_eq!(entry.start, Instant { secs: 1_704_189_600, nanos: 900_000_000 });
    assert_eq!(entry.end, Some(Instant { secs: 1_704_189_660, nanos: 100_000_000 }));
    assert_eq!(tw_celoxis::grouping::minutes_of(entry, Instant::at(0)), 0);
}
