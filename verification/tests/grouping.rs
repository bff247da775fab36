use tw_celoxis::calendar::Instant;
use tw_celoxis::entry::TimeEntry;
use tw_celoxis::grouping::{group_entries, minutes_of, GroupedEntry, TimeData};
use tw_celoxis::tagkey::{sort_tags, str_le};

fn entry(id: &str, start: i64, end: Option<i64>, tags: &[&str]) -> TimeEntry {
    TimeEntry {
        id: id.to_string(),
        start: Instant::at(start),
        end: end.map(Instant::at),
        tags: tags.iter().map(|t| t.to_string()).collect(),
        annotation: None,
        submitted: false,
        celoxis_id: None,
    }
}

fn ids(group: &GroupedEntry, day: i32) -> Vec<String> {
    group.entries.get(&day).map(|v| v.iter().map(|e| e.id.clone()).collect()).unwrap_or_default()
}

fn sample() -> (Vec<TimeEntry>, Vec<i32>) {
    (
        vec![
            entry("1", 0, Some(3600), &["a", "b"]),
            entry("2", 100, Some(100 + 1800), &["c"]),
            entry("3", 7200, Some(9000), &["b", "a"]),
            entry("4", 90_000, Some(90_000 + 600), &["a", "b"]),
            entry("5", 0, Some(59), &[]),
            entry("6", 50, Some(50), &[]),
        ],
        vec![10, 10, 10, 11, 10, 10],
    )
}

#[test]
fn tag_order_does_not_split_a_group() {
    let entries = vec![
        entry("1", 0, Some(3600), &["a", "b"]),
        entry("2", 7200, Some(9000), &["b", "a"]),
    ];
    let groups = group_entries(&entries, &vec![10, 10], Instant::at(0)).unwrap();
    assert_eq!(groups.len(), 1);
    assert_eq!(groups[0].tags, vec!["a".to_string(), "b".to_string()]);
    assert_eq!(groups[0].total_duration.get(&10), Some(&90));
    assert_eq!(ids(&groups[0], 10), vec!["1", "2"]);
    assert!(!groups[0].all_submitted);
}

#[test]
fn every_entry_lies_in_one_cell() {
    let (entries, days) = sample();
    let groups = group_entries(&entries, &days, Instant::at(0)).unwrap();
    assert_eq!(groups.len(), 3);
    let mut seen: Vec<String> = Vec::new();
    for group in &groups {
        for list in group.entries.values() {
            for e in list {
                seen.push(e.id.clone());
            }
        }
    }
    seen.sort();
    assert_eq!(seen, vec!["1", "2", "3", "4", "5", "6"]);
    assert_eq!(groups[0].tags, vec!["a".to_string(), "b".to_string()]);
    assert_eq!(groups[1].tags, vec!["c".to_string()]);
    assert!(groups[2].tags.is_empty());
    assert_eq!(ids(&groups[0], 10), vec!["1", "3"]);
    assert_eq!(ids(&groups[0], 11), vec!["4"]);
    assert_eq!(groups[0].total_duration.get(&10), Some(&90));
    assert_eq!(groups[0].total_duration.get(&11), Some(&10));
    assert_eq!(groups[0].total_duration.len(), 2);
    assert_eq!(groups[1].total_duration.get(&10), Some(&30));
}

#[test]
fn untagged_entries_share_a_group_and_zero_minutes_count() {
    let (entries, days) = sample();
    let groups = group_entries(&entries, &days, Instant::at(0)).unwrap();
    let untagged = &groups[2];
    assert_eq!(ids(untagged, 10), vec!["5", "6"]);
    assert_eq!(untagged.total_duration.get(&10), Some(&0));
}

#[test]
fn the_order_of_the_input_does_not_matter() {
    let (mut entries, mut days) = sample();
    let first = group_entries(&entries, &days, Instant::at(0)).unwrap();
    entries.reverse();
    days.reverse();
    let second = group_entries(&entries, &days, Instant::at(0)).unwrap();
    assert_eq!(first.len(), second.len());
    for group in &first {
        let twin = second.iter().find(|g| g.tags == group.tags).unwrap();
        assert_eq!(twin.total_duration, group.total_duration);
        assert_eq!(twin.all_submitted, group.all_submitted);
        for (day, list) in &group.entries {
            let mut a: Vec<String> = list.iter().map(|e| e.id.clone()).collect();
            let mut b = ids(twin, *day);
            a.sort();
            b.sort();
            assert_eq!(a, b);
        }
    }
}

#[test]
fn open_interval_counts_up_to_now() {
    let start = 1_704_186_000;
    let entries = vec![entry("1", start, None, &["x"])];
    let half = group_entries(&entries, &vec![5], Instant::at(start + 30 * 60)).unwrap();
    assert_eq!(half[0].total_duration.get(&5), Some(&30));
    let full = group_entries(&entries, &vec![5], Instant::at(start + 60 * 60)).unwrap();
    assert_eq!(full[0].total_duration.get(&5), Some(&60));
}

#[test]
fn a_group_is_submitted_when_all_its_entries_are() {
    let mut a = entry("1", 0, Some(60), &["x"]);
    let mut b = entry("2", 0, Some(60), &["x"]);
    a.submitted = true;
    b.submitted = true;
    let c = entry("3", 0, Some(60), &["y"]);
    let groups = group_entries(&vec![a, b, c], &vec![1, 2, 1], Instant::at(0)).unwrap();
    assert!(groups[0].all_submitted);
    assert!(!groups[1].all_submitted);
}

#[test]
fn minutes_beyond_reach_give_no_grouping() {
    let far = entry("1", i64::MIN, Some(i64::MAX), &["x"]);
    let mut entries = Vec::new();
    let mut days = Vec::new();
    for _ in 0..40 {
        entries.push(far.clone());
        days.push(1);
    }
    assert!(group_entries(&entries, &days, Instant::at(0)).is_none());
    assert!(group_entries(&entries[..20].to_vec(), &days[..20].to_vec(), Instant::at(0)).is_some());
}

#[test]
fn minutes_round_toward_zero() {
    assert_eq!(minutes_of(&entry("1", 0, Some(119), &[]), Instant::at(0)), 1);
    assert_eq!(minutes_of(&entry("1", 119, Some(0), &[]), Instant::at(0)), -1);
    assert_eq!(minutes_of(&entry("1", 0, Some(0), &[]), Instant::at(0)), 0);
    assert_eq!(minutes_of(&entry("1", i64::MIN, Some(i64::MAX), &[]), Instant::at(0)), 307_445_734_561_825_860);
}

#[test]
fn tags_sort_as_texts_do() {
    let tags: Vec<String> = ["b", "ab", "a", "B", "", "a"].iter().map(|s| s.to_string()).collect();
    assert_eq!(sort_tags(&tags), vec!["", "B", "a", "a", "ab", "b"]);
    assert!(str_le("a", "ab"));
    assert!(!str_le("b", "ab"));
    assert!(str_le("é", "ê"));
    assert!(str_le("", ""));
}

#[test]
fn grouping_by_the_clock_of_the_machine_keeps_every_entry() {
    let data = TimeData {
        entries: vec![
            entry("1", 1_704_186_000, Some(1_704_193_200), &["b", "a"]),
            entry("2", 1_704_186_000, None, &["a", "b"]),
        ],
    };
    let groups = data.group_entries_by_tags().unwrap();
    assert_eq!(groups.len(), 1);
    let held: usize = groups[0].entries.values().map(|v| v.len()).sum();
    assert_eq!(held, 2);
    for day in groups[0].entries.keys() {
        assert!((738_886..=738_888).contains(day));
    }
    let total: i64 = groups[0].total_duration.values().sum();
    assert!(total > 120);
}

#[test]
fn grouping_by_the_clock_succeeds_for_intervals_within_reach() {
    let far = 8_000_000_000_000;
    let data = TimeData {
        entries: vec![
            entry("1", -far, Some(far), &["x"]),
            entry("2", far, Some(-far), &["y"]),
            entry("3", 0, None, &["x"]),
            entry("4", far, None, &[]),
        ],
    };
    let groups = data.group_entries_by_tags().unwrap();
    assert_eq!(groups.len(), 3);
    assert!(TimeData { entries: vec![] }.group_entries_by_tags().unwrap().is_empty());
    let beyond = TimeData { entries: vec![entry("1", i64::MAX, None, &[])] };
    assert!(beyond.group_entries_by_tags().is_none());
}

#[test]
fn fractions_of_a_second_count() {
    let at = |secs: i64, nanos: u32| Instant { secs, nanos };
    let mut e = entry("1", 0, None, &[]);
    e.start = at(0, 900_000_000);
    e.end = Some(at(60, 100_000_000));
    assert_eq!(minutes_of(&e, Instant::at(0)), 0);
    e.start = at(0, 100_000_000);
    assert_eq!(minutes_of(&e, Instant::at(0)), 1);
    e.end = None;
    assert_eq!(minutes_of(&e, at(60, 99_999_999)), 0);
    assert_eq!(minutes_of(&e, at(60, 100_000_000)), 1);
    assert_eq!(minutes_of(&e, at(-60, 100_000_000)), -1);
    assert_eq!(minutes_of(&e, at(-60, 100_000_001)), 0);
}
