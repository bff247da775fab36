use tw_celoxis::celoxis::{
    authorization_header, validate_required, CacheData, CeloxisApi, CeloxisProject, CeloxisTask,
    ProjectsStep, Required, TaskList, TasksStep,
};

fn project(id: &str, name: &str) -> CeloxisProject {
    CeloxisProject {
        id: id.to_string(),
        name: name.to_string(),
        description: None,
        state: "Active".to_string(),
    }
}

fn task(id: &str, name: &str) -> CeloxisTask {
    CeloxisTask { id: id.to_string(), name: name.to_string() }
}

fn names(list: &[CeloxisProject]) -> Vec<String> {
    list.iter().map(|p| format!("{}:{}", p.id, p.name)).collect()
}

#[test]
fn cold_cache_fetches_once_and_then_answers_from_the_cache() {
    let mut api = CeloxisApi::new(None, 100);
    assert_eq!(api.cache().last_updated(), 100);
    match api.get_projects(false) {
        ProjectsStep::Fetch { url, filter } => {
            assert_eq!(url, "https://app.celoxis.com/psa/api/v2/projects");
            assert_eq!(filter, "{state : Active}");
        }
        ProjectsStep::Cached(_) => panic!("an empty cache answered"),
    }
    let back = api.store_projects(vec![project("P1", "one"), project("P2", "two")], 200);
    assert_eq!(names(&back), vec!["P1:one", "P2:two"]);
    assert_eq!(api.cache().last_updated(), 200);
    match api.get_projects(false) {
        ProjectsStep::Cached(list) => assert_eq!(names(&list), vec!["P1:one", "P2:two"]),
        ProjectsStep::Fetch { .. } => panic!("a filled cache was passed over"),
    }
    assert!(matches!(api.get_projects(true), ProjectsStep::Fetch { .. }));
}

#[test]
fn fetched_projects_replace_the_cached_ones() {
    let mut api = CeloxisApi::new(None, 0);
    api.store_projects(vec![project("P1", "one"), project("P2", "two")], 1);
    let back = api.store_projects(
        vec![project("P3", "three"), project("P1", "uno"), project("P3", "tres")],
        2,
    );
    assert_eq!(back.len(), 3);
    assert_eq!(names(&api.cache().projects()), vec!["P3:tres", "P1:uno"]);
    assert_eq!(api.get_cached_project("P1").unwrap().name, "uno");
    assert!(api.get_cached_project("P2").is_none());
    assert!(api.get_cached_project("p1").is_none());
}

#[test]
fn tasks_are_cached_project_by_project() {
    let mut api = CeloxisApi::new(None, 0);
    match api.get_tasks("P\"1", false) {
        TasksStep::Fetch { url, filter } => {
            assert_eq!(url, "https://app.celoxis.com/psa/api/v2/tasks");
            assert_eq!(filter, "{\"project.id\":\"P\"1\"}");
        }
        TasksStep::Cached(_) => panic!("an empty cache answered"),
    }
    api.store_tasks("P1", vec![task("T1", "build"), task("T2", "test")], 5);
    api.store_tasks("P2", vec![], 6);
    assert_eq!(api.cache().last_updated(), 6);
    match api.get_tasks("P1", false) {
        TasksStep::Cached(list) => {
            assert_eq!(list.len(), 2);
            assert_eq!(list[1].id, "T2");
        }
        TasksStep::Fetch { .. } => panic!("cached tasks were passed over"),
    }
    assert!(matches!(api.get_tasks("P2", false), TasksStep::Cached(ref l) if l.is_empty()));
    assert!(matches!(api.get_tasks("P1", true), TasksStep::Fetch { .. }));
    assert!(matches!(api.get_tasks("P3", false), TasksStep::Fetch { .. }));
    api.store_tasks("P1", vec![task("T9", "ship")], 7);
    assert_eq!(api.get_cached_tasks("P1").unwrap().len(), 1);
    assert_eq!(api.get_cached_tasks("P1").unwrap()[0].name, "ship");
    assert!(api.get_cached_tasks("P3").is_none());
}

#[test]
fn preferences_are_asked_for_once() {
    let mut api = CeloxisApi::new(None, 0);
    assert!(api.ensure_user_prefs().is_none());
    assert_eq!(
        api.store_user_prefs("  ".to_string(), "code".to_string()).unwrap_err(),
        Required::Username
    );
    assert_eq!(
        api.store_user_prefs("alice".to_string(), "".to_string()).unwrap_err(),
        Required::TimeCode
    );
    assert!(api.ensure_user_prefs().is_none());
    let prefs =
        api.store_user_prefs("alice".to_string(), "engineering_labor".to_string()).unwrap();
    assert_eq!(prefs.username, "alice");
    let known = api.ensure_user_prefs().unwrap();
    assert_eq!(known.username, "alice");
    assert_eq!(known.time_code, "engineering_labor");
}

#[test]
fn a_cache_taken_apart_and_rebuilt_is_the_same() {
    let mut api = CeloxisApi::new(None, 42);
    api.store_projects(vec![project("P2", "two"), project("P1", "one")], 43);
    api.store_tasks("P1", vec![task("T1", "build")], 44);
    api.store_tasks("P2", vec![], 45);
    api.store_user_prefs("alice".to_string(), "engineering_labor".to_string()).unwrap();
    let cache = api.cache();
    let again = CacheData::from_parts(
        cache.projects(),
        cache.task_lists(),
        cache.last_updated(),
        cache.user_prefs(),
    );
    assert_eq!(names(&again.projects()), names(&cache.projects()));
    assert_eq!(again.last_updated(), 45);
    assert_eq!(again.user_prefs().unwrap().username, "alice");
    let lists = again.task_lists();
    assert_eq!(lists.len(), 2);
    assert_eq!(lists[0].project_id, "P1");
    assert_eq!(lists[0].tasks[0].name, "build");
    assert_eq!(lists[1].project_id, "P2");
    let api = CeloxisApi::new(Some(again), 99);
    assert_eq!(api.cache().last_updated(), 45);
    assert!(matches!(api.get_projects(false), ProjectsStep::Cached(_)));
}

#[test]
fn a_cache_from_parts_keeps_the_later_of_two() {
    let cache = CacheData::from_parts(
        vec![project("P1", "one"), project("P1", "uno")],
        vec![
            TaskList { project_id: "P1".to_string(), tasks: vec![task("T1", "a")] },
            TaskList { project_id: "P1".to_string(), tasks: vec![] },
        ],
        1,
        None,
    );
    assert_eq!(names(&cache.projects()), vec!["P1:uno"]);
    assert!(cache.tasks("P1").unwrap().is_empty());
    assert_eq!(cache.project("P1").unwrap().name, "uno");
}

#[test]
fn the_answer_to_a_submission_is_judged_by_its_status() {
    assert_eq!(
        CeloxisApi::time_entries_url(),
        "https://app.celoxis.com/psa/api/v2/timeEntries"
    );
    assert!(CeloxisApi::submit_time_entries(200, "").is_ok());
    assert!(CeloxisApi::submit_time_entries(299, "").is_ok());
    let refused = CeloxisApi::submit_time_entries(300, "{\"error\":1}").unwrap_err();
    assert_eq!(refused.status, 300);
    assert_eq!(refused.message, "Failed to submit time entries: {\"error\":1}");
    assert!(CeloxisApi::submit_time_entries(199, "").is_err());
    assert!(CeloxisApi::submit_time_entries(404, "").is_err());
}

#[test]
fn required_texts_and_the_bearer_header() {
    assert_eq!(validate_required(Required::ApiKey, "k"), None);
    assert_eq!(
        validate_required(Required::ApiKey, " \n"),
        Some("API key cannot be empty".to_string())
    );
    assert_eq!(
        validate_required(Required::Username, ""),
        Some("Username cannot be empty".to_string())
    );
    assert_eq!(
        validate_required(Required::TimeCode, "\u{a0}"),
        Some("Time code cannot be empty".to_string())
    );
    assert_eq!(
        validate_required(Required::Summary, "\t"),
        Some("Summary cannot be empty".to_string())
    );
    assert_eq!(authorization_header(" secret\n"), "bearer secret");
    assert_eq!(authorization_header("a b"), "bearer a b");
}

#[test]
fn a_cache_rebuilt_from_its_parts_in_another_order_answers_the_same() {
    let mut api = CeloxisApi::new(None, 42);
    api.store_projects(vec![project("P2", "two"), project("P1", "one"), project("P3", "x")], 43);
    api.store_tasks("P1", vec![task("T1", "build"), task("T2", "test")], 44);
    api.store_tasks("P2", vec![], 45);
    api.store_user_prefs("alice".to_string(), "engineering_labor".to_string()).unwrap();
    let cache = api.cache();
    let mut projects = cache.projects();
    let mut lists = cache.task_lists();
    projects.reverse();
    lists.reverse();
    let again =
        CacheData::from_parts(projects, lists, cache.last_updated(), cache.user_prefs());
    assert_eq!(again.projects().len(), 3);
    assert_eq!(again.task_lists().len(), 2);
    for id in ["P1", "P2", "P3", "P4", ""] {
        assert_eq!(
            again.project(id).map(|p| (p.id.clone(), p.name.clone(), p.state.clone())),
            cache.project(id).map(|p| (p.id.clone(), p.name.clone(), p.state.clone()))
        );
        let names = |c: &CacheData| -> Option<Vec<String>> {
            c.tasks(id).map(|l| l.iter().map(|t| format!("{}:{}", t.id, t.name)).collect())
        };
        assert_eq!(names(&again), names(cache));
    }
    assert_eq!(again.tasks("P1").unwrap().len(), 2);
    assert_eq!(again.last_updated(), cache.last_updated());
    assert_eq!(again.user_prefs().unwrap().time_code, "engineering_labor");
}
