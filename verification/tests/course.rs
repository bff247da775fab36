use std::collections::HashMap;
use tw_celoxis::celoxis::{CeloxisApi, CeloxisProject, CeloxisTask, UserPreferences};
use tw_celoxis::grouping::GroupedEntry;
use tw_celoxis::workflow::{
    refresh_choice, validate_selection, Action, Event, Phase, RefreshChoice, Workflow,
};

fn group(tags: &[&str], minutes: &[(i32, i64)]) -> GroupedEntry {
    GroupedEntry {
        tags: tags.iter().map(|t| t.to_string()).collect(),
        total_duration: minutes.iter().cloned().collect(),
        entries: HashMap::new(),
        all_submitted: false,
    }
}

fn prefs() -> UserPreferences {
    UserPreferences { username: "alice".to_string(), time_code: "engineering_labor".to_string() }
}

fn project(id: &str) -> CeloxisProject {
    CeloxisProject {
        id: id.to_string(),
        name: "Project".to_string(),
        description: None,
        state: "Active".to_string(),
    }
}

fn task(id: &str) -> CeloxisTask {
    CeloxisTask { id: id.to_string(), name: "Task".to_string() }
}

fn pool() -> Vec<GroupedEntry> {
    vec![
        group(&["a"], &[(1, 60)]),
        group(&["b"], &[(1, 30), (2, 15)]),
        group(&["c"], &[(3, 5)]),
    ]
}

#[test]
fn an_empty_pool_is_over_at_once() {
    let (w, action) = Workflow::new(vec![], prefs());
    assert_eq!(action, Action::Finish);
    assert_eq!(w.phase(), Phase::Done);
    let (w, action) = w.step(Event::ContinueAnswered(true));
    assert_eq!(action, Action::Ignore);
    assert_eq!(w.phase(), Phase::Done);
}

#[test]
fn groups_are_bound_and_leave_the_pool() {
    let (w, action) = Workflow::new(pool(), prefs());
    assert_eq!(action, Action::AskGroups);
    assert_eq!(w.phase(), Phase::SelectingGroups);
    let (w, action) = w.step(Event::GroupsChosen(vec![1, 0]));
    assert_eq!(action, Action::AskProject);
    let (w, action) = w.step(Event::ProjectChosen(Some(project("P1"))));
    assert_eq!(action, Action::AskTask);
    assert_eq!(w.project().as_ref().unwrap().id, "P1");
    let (w, action) = w.step(Event::TaskChosen(Some(task("T1"))));
    assert_eq!(action, Action::AskSummary);
    let (w, action) = w.step(Event::SummaryEntered("  ".to_string()));
    assert_eq!(action, Action::AskSummary);
    assert_eq!(w.phase(), Phase::EnteringSummary);
    assert!(w.assignments().is_empty());
    let (w, action) = w.step(Event::SummaryEntered("work".to_string()));
    assert_eq!(action, Action::AskContinue);
    assert_eq!(w.phase(), Phase::Pooling);
    assert_eq!(w.pool().len(), 1);
    assert_eq!(w.pool()[0].tags, vec!["c".to_string()]);
    assert_eq!(w.assignments().len(), 1);
    let a = &w.assignments()[0];
    assert_eq!(a.summary, "work");
    assert_eq!(a.user, "alice");
    assert_eq!(a.time_code, "engineering_labor");
    assert_eq!(a.celoxis_project.id, "P1");
    assert_eq!(a.celoxis_task.id, "T1");
    assert_eq!(a.groups.len(), 2);
    assert_eq!(a.groups[0].tags, vec!["b".to_string()]);
    assert_eq!(a.total_duration.get(&1), Some(&90));
    assert_eq!(a.total_duration.get(&2), Some(&15));
    assert!(w.project().is_none());

    let (w, action) = w.step(Event::ContinueAnswered(true));
    assert_eq!(action, Action::AskGroups);
    let (w, _) = w.step(Event::GroupsChosen(vec![0]));
    let (w, _) = w.step(Event::ProjectChosen(Some(project("P2"))));
    let (w, _) = w.step(Event::TaskChosen(Some(task("T2"))));
    let (w, action) = w.step(Event::SummaryEntered("more".to_string()));
    assert_eq!(action, Action::Finish);
    assert_eq!(w.phase(), Phase::Done);
    assert!(w.pool().is_empty());
    assert_eq!(w.assignments().len(), 2);
    assert_eq!(w.assignments()[1].celoxis_task.id, "T2");
}

#[test]
fn skipping_the_project_or_the_task_gives_the_attempt_up() {
    let (w, _) = Workflow::new(pool(), prefs());
    let (w, _) = w.step(Event::GroupsChosen(vec![0]));
    let (w, action) = w.step(Event::ProjectChosen(None));
    assert_eq!(action, Action::AskContinue);
    assert_eq!(w.phase(), Phase::Pooling);
    assert_eq!(w.pool().len(), 3);
    assert!(w.assignments().is_empty());

    let (w, _) = w.step(Event::ContinueAnswered(true));
    let (w, _) = w.step(Event::GroupsChosen(vec![0]));
    let (w, _) = w.step(Event::ProjectChosen(Some(project("P1"))));
    let (w, action) = w.step(Event::TaskChosen(None));
    assert_eq!(action, Action::AskContinue);
    assert_eq!(w.phase(), Phase::Pooling);
    assert_eq!(w.pool().len(), 3);
    assert!(w.project().is_none());

    let (w, action) = w.step(Event::ContinueAnswered(false));
    assert_eq!(action, Action::Finish);
    assert_eq!(w.phase(), Phase::Done);
}

#[test]
fn choosing_no_group_ends_the_course() {
    let (w, _) = Workflow::new(pool(), prefs());
    let (w, action) = w.step(Event::GroupsChosen(vec![]));
    assert_eq!(action, Action::Finish);
    assert_eq!(w.phase(), Phase::Done);
    assert_eq!(w.pool().len(), 3);
    let (w, _) = Workflow::new(pool(), prefs());
    let (w, action) = w.step(Event::GroupsChosen(vec![3, 4]));
    assert_eq!(action, Action::Finish);
    assert_eq!(w.phase(), Phase::Done);
}

#[test]
fn an_event_out_of_turn_changes_nothing() {
    let (w, _) = Workflow::new(pool(), prefs());
    let (w, action) = w.step(Event::SummaryEntered("x".to_string()));
    assert_eq!(action, Action::Ignore);
    assert_eq!(w.phase(), Phase::SelectingGroups);
    let (w, action) = w.step(Event::ProjectChosen(Some(project("P"))));
    assert_eq!(action, Action::Ignore);
    assert!(w.project().is_none());
    let (w, action) = w.step(Event::TaskChosen(None));
    assert_eq!(action, Action::Ignore);
    let (w, action) = w.step(Event::ContinueAnswered(false));
    assert_eq!(action, Action::Ignore);
    assert_eq!(w.phase(), Phase::SelectingGroups);
    assert_eq!(w.pool().len(), 3);
}

#[test]
fn groups_of_the_same_tags_leave_together() {
    let twins = vec![group(&["a"], &[(1, 60)]), group(&["a"], &[(2, 30)]), group(&["b"], &[])];
    let (w, _) = Workflow::new(twins, prefs());
    let (w, _) = w.step(Event::GroupsChosen(vec![0]));
    let (w, _) = w.step(Event::ProjectChosen(Some(project("P1"))));
    let (w, _) = w.step(Event::TaskChosen(Some(task("T1"))));
    let (w, _) = w.step(Event::SummaryEntered("s".to_string()));
    assert_eq!(w.pool().len(), 1);
    assert_eq!(w.pool()[0].tags, vec!["b".to_string()]);
    assert_eq!(w.assignments()[0].groups.len(), 1);
}

#[test]
fn minutes_beyond_reach_give_the_attempt_up() {
    let heavy = vec![group(&["a"], &[(1, i64::MAX)]), group(&["b"], &[(1, 1)])];
    let (w, _) = Workflow::new(heavy, prefs());
    let (w, _) = w.step(Event::GroupsChosen(vec![0, 1]));
    let (w, _) = w.step(Event::ProjectChosen(Some(project("P1"))));
    let (w, _) = w.step(Event::TaskChosen(Some(task("T1"))));
    let (w, action) = w.step(Event::SummaryEntered("s".to_string()));
    assert_eq!(action, Action::AskContinue);
    assert_eq!(w.phase(), Phase::Pooling);
    assert_eq!(w.pool().len(), 2);
    assert!(w.assignments().is_empty());
}

#[test]
fn tasks_are_fetched_when_the_cache_has_none() {
    let mut api = CeloxisApi::new(None, 0);
    assert_eq!(refresh_choice(&api, "P1"), RefreshChoice::Forced);
    api.store_tasks("P1", vec![], 1);
    assert_eq!(refresh_choice(&api, "P1"), RefreshChoice::AskUser);
    assert_eq!(refresh_choice(&api, "P2"), RefreshChoice::Forced);
}

#[test]
fn a_choice_of_no_group_is_refused_at_the_prompt() {
    assert_eq!(validate_selection(0), Some("Please select at least one group".to_string()));
    assert_eq!(validate_selection(1), None);
    assert_eq!(validate_selection(usize::MAX), None);
}
