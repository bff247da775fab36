use std::collections::HashMap;
use tw_celoxis::assignment::{
    merge_durations, process_selected_groups, remove_groups, tags_of, SelectionError,
    TaskAssignment,
};
use tw_celoxis::celoxis::{CeloxisProject, CeloxisTask, UserPreferences};
use tw_celoxis::durations::{sorted_days, to_hundredths, total_of};
use tw_celoxis::grouping::GroupedEntry;

const JAN_2: i32 = 738_887;
const JAN_3: i32 = 738_888;

fn group(tags: &[&str], minutes: &[(i32, i64)]) -> GroupedEntry {
    GroupedEntry {
        tags: tags.iter().map(|t| t.to_string()).collect(),
        total_duration: minutes.iter().cloned().collect(),
        entries: HashMap::new(),
        all_submitted: false,
    }
}

fn prefs() -> UserPreferences {
    UserPreferences { username: "alice".to_string(), time_code: "engineering_labor".to_string() }
}

fn project() -> CeloxisProject {
    CeloxisProject {
        id: "P1".to_string(),
        name: "Project".to_string(),
        description: None,
        state: "Active".to_string(),
    }
}

fn task() -> CeloxisTask {
    CeloxisTask { id: "T1".to_string(), name: "Task".to_string() }
}

#[test]
fn an_assignment_over_two_days_gives_two_records() {
    let groups = vec![
        group(&["a"], &[(JAN_3, 45), (JAN_2, 60)]),
        group(&["b"], &[(JAN_2, 30)]),
    ];
    let a = TaskAssignment::record(groups, project(), task(), "did things".to_string(), &prefs())
        .unwrap();
    assert_eq!(a.total_duration.get(&JAN_2), Some(&90));
    assert_eq!(a.total_duration.get(&JAN_3), Some(&45));
    assert_eq!(a.total_duration.len(), 2);
    assert_eq!(a.groups.len(), 2);
    let records = a.to_celoxis_entries().unwrap();
    assert_eq!(records.len(), 2);
    assert_eq!(records[0].date, "2024-01-02");
    assert_eq!(records[0].hours_hundredths, 150);
    assert_eq!(records[0].hours_hundredths as f64 / 100.0, 1.5);
    assert_eq!(records[0].task, "T1");
    assert_eq!(records[0].time_code, "engineering_labor");
    assert_eq!(records[0].user, "alice");
    assert_eq!(records[0].state, 0);
    assert_eq!(records[0].comments, "did things");
    assert_eq!(records[1].date, "2024-01-03");
    assert_eq!(records[1].hours_hundredths, 75);
    assert_eq!(records[1].hours_hundredths as f64 / 100.0, 0.75);
    assert_eq!(records[1].comments, "did things");
}

#[test]
fn a_day_that_cannot_be_written_gives_no_records() {
    let groups = vec![group(&["a"], &[(i32::MAX, 45), (JAN_2, 60)])];
    let a = TaskAssignment::record(groups, project(), task(), "s".to_string(), &prefs()).unwrap();
    assert!(a.to_celoxis_entries().is_none());
}

#[test]
fn an_assignment_of_no_minutes_gives_no_records() {
    let a = TaskAssignment::record(vec![], project(), task(), "s".to_string(), &prefs()).unwrap();
    assert!(a.to_celoxis_entries().unwrap().is_empty());
}

#[test]
fn minutes_become_hundredths_of_an_hour() {
    assert_eq!(to_hundredths(0), 0);
    assert_eq!(to_hundredths(1), 2);
    assert_eq!(to_hundredths(2), 3);
    assert_eq!(to_hundredths(3), 5);
    assert_eq!(to_hundredths(20), 33);
    assert_eq!(to_hundredths(40), 67);
    assert_eq!(to_hundredths(60), 100);
    assert_eq!(to_hundredths(-1), -2);
    assert_eq!(to_hundredths(-90), -150);
    for minutes in -500i64..500 {
        let hours = ((minutes as f64 / 60.0) * 100.0).round() / 100.0;
        assert_eq!(to_hundredths(minutes) as f64 / 100.0, hours);
    }
}

#[test]
fn merging_adds_up_day_by_day() {
    let groups = vec![
        group(&["a"], &[(1, 10), (2, 20)]),
        group(&["b"], &[(2, -5), (3, 7)]),
        group(&["c"], &[]),
    ];
    let merged = merge_durations(&groups).unwrap();
    let mut days: Vec<(i32, i64)> = merged.into_iter().collect();
    days.sort();
    assert_eq!(days, vec![(1, 10), (2, 15), (3, 7)]);
    assert!(merge_durations(&vec![]).unwrap().is_empty());
}

#[test]
fn merging_beyond_reach_gives_nothing() {
    let groups = vec![group(&["a"], &[(1, i64::MAX)]), group(&["b"], &[(1, 1)])];
    assert!(merge_durations(&groups).is_none());
    let groups = vec![
        group(&["a"], &[(1, i64::MAX)]),
        group(&["b"], &[(1, 1)]),
        group(&["c"], &[(1, -1)]),
    ];
    assert_eq!(merge_durations(&groups).unwrap().get(&1), Some(&i64::MAX));
}

#[test]
fn days_come_in_rising_order() {
    let m: HashMap<i32, i64> = [(5, 1), (-3, 2), (9, 3), (0, -10)].into_iter().collect();
    assert_eq!(sorted_days(&m), vec![-3, 0, 5, 9]);
    assert_eq!(total_of(&m), -4);
    assert_eq!(total_of(&HashMap::new()), 0);
}

#[test]
fn choosing_groups_copies_them() {
    let pool = vec![group(&["a"], &[(1, 10)]), group(&["b"], &[(1, 20)]), group(&["c"], &[])];
    let chosen = process_selected_groups(&pool, &vec![2, 0, 7]).unwrap();
    assert_eq!(chosen.len(), 2);
    assert_eq!(chosen[0].tags, vec!["c".to_string()]);
    assert_eq!(chosen[1].tags, vec!["a".to_string()]);
    assert_eq!(chosen[1].total_duration.get(&1), Some(&10));
    assert_eq!(
        process_selected_groups(&pool, &vec![]).unwrap_err(),
        SelectionError::NoGroupsSelected
    );
    assert_eq!(
        process_selected_groups(&pool, &vec![3]).unwrap_err(),
        SelectionError::NoGroupsSelected
    );
}

#[test]
fn consumed_groups_leave_the_pool_by_their_tags() {
    let pool = vec![
        group(&["a"], &[(1, 10)]),
        group(&["b"], &[(1, 20)]),
        group(&["a"], &[(2, 30)]),
        group(&[], &[]),
    ];
    let taken = tags_of(&vec![group(&["a"], &[])]);
    let left = remove_groups(&pool, &taken);
    assert_eq!(left.len(), 2);
    assert_eq!(left[0].tags, vec!["b".to_string()]);
    assert!(left[1].tags.is_empty());
    assert_eq!(remove_groups(&pool, &vec![]).len(), 4);
    assert_eq!(remove_groups(&pool, &vec![vec![]]).len(), 3);
}
