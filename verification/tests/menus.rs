use std::collections::HashMap;
use tw_celoxis::celoxis::{CeloxisProject, CeloxisTask};
use tw_celoxis::grouping::GroupedEntry;
use tw_celoxis::labels::{
    describe_tags, format_hours, group_label, group_labels, project_label, selected_places,
    sort_tasks, starts_with, strip_prefixes, task_label,
};
use tw_celoxis::text::{decimal_text, index_of_text, is_filled, trimmed, white_space};

fn strings(items: &[&str]) -> Vec<String> {
    items.iter().map(|s| s.to_string()).collect()
}

fn group(tags: &[&str], minutes: &[(i32, i64)], submitted: bool) -> GroupedEntry {
    GroupedEntry {
        tags: strings(tags),
        total_duration: minutes.iter().cloned().collect(),
        entries: HashMap::new(),
        all_submitted: submitted,
    }
}

fn task(id: &str, name: &str) -> CeloxisTask {
    CeloxisTask { id: id.to_string(), name: name.to_string() }
}

#[test]
fn a_group_is_named_by_what_its_tags_say() {
    assert_eq!(
        describe_tags(&strings(&["project:X", "description: build ", "other"])),
        "build (Project: X)"
    );
    assert_eq!(describe_tags(&strings(&["description:one", "description:two"])), "two");
    assert_eq!(describe_tags(&strings(&["project: P "])), "Project: P");
    assert_eq!(describe_tags(&strings(&["a", "b\"c"])), "Tags: [\"a\", \"b\\\"c\"]");
    assert_eq!(describe_tags(&strings(&[])), "Tags: []");
    assert_eq!(describe_tags(&strings(&["description:description:x"])), "x");
    assert_eq!(describe_tags(&strings(&["description:"])), "");
}

#[test]
fn prefixes_are_stripped_as_often_as_they_stand() {
    assert_eq!(strip_prefixes("ababc", "ab"), "c");
    assert_eq!(strip_prefixes("abc", "b"), "abc");
    assert_eq!(strip_prefixes("aaa", "a"), "");
    assert_eq!(strip_prefixes("abc", ""), "abc");
    assert_eq!(strip_prefixes("ab", "abc"), "ab");
    assert!(starts_with("project:x", "project:"));
    assert!(!starts_with("Project:x", "project:"));
    assert!(starts_with("x", ""));
    assert!(!starts_with("", "x"));
}

#[test]
fn hours_are_written_with_two_decimals() {
    assert_eq!(format_hours(0), "0.00");
    assert_eq!(format_hours(1), "0.02");
    assert_eq!(format_hours(59), "0.98");
    assert_eq!(format_hours(90), "1.50");
    assert_eq!(format_hours(605), "10.08");
    assert_eq!(format_hours(-90), "-1.50");
    assert_eq!(format_hours(-1), "-0.02");
    for minutes in -300i128..3000 {
        assert_eq!(format_hours(minutes), format!("{:.2}", minutes as f64 / 60.0));
    }
}

#[test]
fn the_label_of_a_group_holds_its_place_its_name_and_its_hours() {
    let g = group(&["description:build", "project:X"], &[(1, 60), (2, 30)], false);
    assert_eq!(group_label(0, &g), "Group 1 - build (Project: X) - Total: 1.50h ");
    let g = group(&["x"], &[], true);
    assert_eq!(group_label(11, &g), "Group 12 - Tags: [\"x\"] - Total: 0.00h [Submitted]");
    let labels = group_labels(&vec![group(&["a"], &[(1, 6)], false), group(&["b"], &[], false)]);
    assert_eq!(
        labels,
        vec![
            "Group 1 - Tags: [\"a\"] - Total: 0.10h ",
            "Group 2 - Tags: [\"b\"] - Total: 0.00h ",
        ]
    );
}

#[test]
fn projects_and_tasks_are_labelled_by_identifier_and_name() {
    let p = CeloxisProject {
        id: "P1".to_string(),
        name: "Big - one".to_string(),
        description: Some("d".to_string()),
        state: "Active".to_string(),
    };
    assert_eq!(project_label(&p), "P1 - Big - one");
    assert_eq!(task_label(&task("T1", "")), "T1 - ");
}

#[test]
fn a_selection_stands_for_the_place_of_its_label() {
    let labels = strings(&["one", "two", "one", "three"]);
    assert_eq!(selected_places(&labels, &strings(&["three", "one", "four", "two"])), vec![3, 0, 1]);
    assert!(selected_places(&labels, &strings(&[])).is_empty());
    assert_eq!(index_of_text(&labels, "one"), Some(0));
    assert_eq!(index_of_text(&labels, "ONE"), None);
}

#[test]
fn tasks_are_sorted_by_their_names_in_lower_case() {
    let sorted = sort_tasks(&vec![
        task("1", "beta"),
        task("2", "Alpha"),
        task("3", "alpha"),
        task("4", "ALPHA"),
        task("5", "Ärger"),
        task("6", ""),
    ]);
    let ids: Vec<&str> = sorted.iter().map(|t| t.id.as_str()).collect();
    assert_eq!(ids, vec!["6", "2", "3", "4", "1", "5"]);
    assert!(sort_tasks(&vec![]).is_empty());
}

#[test]
fn text_helpers() {
    assert_eq!(decimal_text(0), "0");
    assert_eq!(decimal_text(7), "7");
    assert_eq!(decimal_text(10), "10");
    assert_eq!(decimal_text(1234567890), "1234567890");
    assert_eq!(trimmed(" \t a b \u{3000}\n"), "a b");
    assert_eq!(trimmed(""), "");
    assert!(is_filled(" x "));
    assert!(!is_filled(" \u{2003} "));
    for code in 0u32..0x3100 {
        if let Some(c) = char::from_u32(code) {
            assert_eq!(white_space(c), c.is_whitespace());
        }
    }
}
