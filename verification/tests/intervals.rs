use tw_celoxis::calendar::Instant;
use tw_celoxis::entry::{EntryError, TimeEntry};
use tw_celoxis::grouping::minutes_of;

fn tags(text: &str) -> Vec<String> {
    let line = format!("inc 20240102T090000Z - # {}", text);
    TimeEntry::from_timewarrior(&line, "t".to_string()).unwrap().tags
}

#[test]
fn closed_interval_with_two_quoted_tags() {
    let line = "inc 20240102T090000Z - 20240102T110000Z # \"project:X\" \"description:build\"";
    let entry = TimeEntry::from_timewarrior(line, "e1".to_string()).unwrap();
    assert_eq!(entry.id, "e1");
    assert_eq!(entry.start, Instant::at(1_704_186_000));
    assert_eq!(entry.end, Some(Instant::at(1_704_193_200)));
    assert_eq!(entry.tags, vec!["project:X".to_string(), "description:build".to_string()]);
    assert_eq!(entry.annotation, None);
    assert!(!entry.submitted);
    assert_eq!(entry.celoxis_id, None);
    assert_eq!(minutes_of(&entry, Instant::at(0)), 120);
}

#[test]
fn open_interval_has_no_end() {
    let entry = TimeEntry::from_timewarrior("inc 20240102T090000Z -", "e2".to_string()).unwrap();
    assert_eq!(entry.start, Instant::at(1_704_186_000));
    assert_eq!(entry.end, None);
    assert!(entry.tags.is_empty());
    assert_eq!(minutes_of(&entry, Instant::at(1_704_186_000 + 30 * 60)), 30);
    assert_eq!(minutes_of(&entry, Instant::at(1_704_186_000 + 60 * 60)), 60);
}

#[test]
fn open_interval_may_carry_tags() {
    let entry =
        TimeEntry::from_timewarrior("inc 20240102T090000Z - # work", "e".to_string()).unwrap();
    assert_eq!(entry.end, None);
    assert_eq!(entry.tags, vec!["work".to_string()]);
}

#[test]
fn interval_without_tags() {
    let entry = TimeEntry::from_timewarrior(
        "inc 20240102T090000Z - 20240102T091500Z",
        "e".to_string(),
    )
    .unwrap();
    assert_eq!(entry.end, Some(Instant::at(1_704_186_900)));
    assert!(entry.tags.is_empty());
}

#[test]
fn blank_line_is_rejected() {
    assert_eq!(
        TimeEntry::from_timewarrior("  \t ", "x".to_string()).unwrap_err(),
        EntryError::EmptyLine
    );
    assert_eq!(
        TimeEntry::from_timewarrior("", "x".to_string()).unwrap_err(),
        EntryError::EmptyLine
    );
}

#[test]
fn line_without_prefix_is_rejected() {
    assert_eq!(
        TimeEntry::from_timewarrior("exc 20240102T090000Z", "x".to_string()).unwrap_err(),
        EntryError::MissingPrefix
    );
    assert_eq!(
        TimeEntry::from_timewarrior(" inc 20240102T090000Z -", "x".to_string()).unwrap_err(),
        EntryError::MissingPrefix
    );
}

#[test]
fn interval_of_another_shape_is_rejected() {
    assert_eq!(
        TimeEntry::from_timewarrior("inc 20240102T090000Z", "x".to_string()).unwrap_err(),
        EntryError::InvalidTimestampFormat
    );
    assert_eq!(
        TimeEntry::from_timewarrior(
            "inc 20240102T090000Z - 20240102T100000Z - 20240102T110000Z",
            "x".to_string()
        )
        .unwrap_err(),
        EntryError::InvalidTimestampFormat
    );
}

#[test]
fn instants_that_are_none_are_rejected() {
    assert_eq!(
        TimeEntry::from_timewarrior("inc yesterday - 20240102T100000Z", "x".to_string())
            .unwrap_err(),
        EntryError::InvalidStart
    );
    assert_eq!(
        TimeEntry::from_timewarrior("inc 20240102T090000Z - later", "x".to_string()).unwrap_err(),
        EntryError::InvalidEnd
    );
    assert_eq!(
        TimeEntry::from_timewarrior("inc 20241302T090000Z -", "x".to_string()).unwrap_err(),
        EntryError::InvalidStart
    );
}

#[test]
fn quotes_hold_spaces_and_bare_words_end_at_spaces() {
    assert_eq!(tags("\"a b\" c  d"), vec!["a b", "c", "d"]);
    assert_eq!(tags("a\"b c\"d e"), vec!["ab c", "d", "e"]);
    assert_eq!(tags("\"\" \"x\"\"y\""), vec!["x", "y"]);
    assert_eq!(tags("\"open ended"), vec!["open ended"]);
    assert!(tags("   ").is_empty());
}

#[test]
fn a_copy_of_an_entry_holds_the_same() {
    let entry =
        TimeEntry::from_timewarrior("inc 20240102T090000Z - # a \"b c\"", "id".to_string())
            .unwrap();
    let copy = entry.clone();
    assert_eq!(copy.id, entry.id);
    assert_eq!(copy.start, entry.start);
    assert_eq!(copy.end, entry.end);
    assert_eq!(copy.tags, entry.tags);
}
