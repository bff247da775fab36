//! The records of the remote service, the local cache of its reference data,
//! and the decisions of the client that stands between the two.
//!
//! The client never talks to the service itself. It says whether an answer
//! can come from the cache or has to be fetched, and it takes what was
//! fetched into the cache. Whoever drives it sends the request and writes the
//! cache back after every change.

use crate::entry::{clone_opt_text, opt_text};
use crate::text::{
    concat, first_index_of, is_blank, is_filled, lemma_first_index_found, lemma_first_index_is,
    lemma_first_index_none, lemma_first_index_of_distinct, same_text, trim, trimmed,
};
use vstd::prelude::*;

verus! {

/// Where the service answers.
pub const BASE_URL: &'static str = "https://app.celoxis.com/psa/api/v2";

/// The filter that asks the service for the active projects only.
pub const ACTIVE_PROJECTS: &'static str = "{state : Active}";

/// The identity under which time is booked, and the time code booked by
/// default.
#[derive(Debug)]
pub struct UserPreferences {
    pub username: String,
    pub time_code: String,
}

/// A project of the remote service.
#[derive(Debug)]
pub struct CeloxisProject {
    pub id: String,
    pub name: String,
    pub description: Option<String>,
    pub state: String,
}

/// A task of a project of the remote service.
#[derive(Debug)]
pub struct CeloxisTask {
    pub id: String,
    pub name: String,
}

/// The time booked on one task for one day, as it is sent to the service.
#[derive(Debug)]
pub struct CeloxisTimeEntry {
    /// The day, as `YYYY-MM-DD`.
    pub date: String,
    /// The time booked, in hundredths of an hour.
    pub hours_hundredths: i128,
    pub time_code: String,
    pub user: String,
    /// The identifier of the task.
    pub task: String,
    pub state: i32,
    pub comments: String,
}

/// What a `UserPreferences` holds.
pub struct PreferencesView {
    pub username: Seq<char>,
    pub time_code: Seq<char>,
}

/// What a `CeloxisProject` holds.
pub struct ProjectView {
    pub id: Seq<char>,
    pub name: Seq<char>,
    pub description: Option<Seq<char>>,
    pub state: Seq<char>,
}

/// What a `CeloxisTask` holds.
pub struct TaskView {
    pub id: Seq<char>,
    pub name: Seq<char>,
}

/// What a `CeloxisTimeEntry` holds.
pub struct RecordView {
    pub date: Seq<char>,
    pub hours_hundredths: int,
    pub time_code: Seq<char>,
    pub user: Seq<char>,
    pub task: Seq<char>,
    pub state: i32,
    pub comments: Seq<char>,
}

impl View for UserPreferences {
    type V = PreferencesView;

    open spec fn view(&self) -> PreferencesView {
        PreferencesView { username: self.username@, time_code: self.time_code@ }
    }
}

impl View for CeloxisProject {
    type V = ProjectView;

    open spec fn view(&self) -> ProjectView {
        ProjectView {
            id: self.id@,
            name: self.name@,
            description: opt_text(self.description),
            state: self.state@,
        }
    }
}

impl View for CeloxisTask {
    type V = TaskView;

    open spec fn view(&self) -> TaskView {
        TaskView { id: self.id@, name: self.name@ }
    }
}

impl View for CeloxisTimeEntry {
    type V = RecordView;

    open spec fn view(&self) -> RecordView {
        RecordView {
            date: self.date@,
            hours_hundredths: self.hours_hundredths as int,
            time_code: self.time_code@,
            user: self.user@,
            task: self.task@,
            state: self.state,
            comments: self.comments@,
        }
    }
}

impl Clone for UserPreferences {
    fn clone(&self) -> (r: Self)
        ensures
            r@ == self@,
    {
        UserPreferences { username: self.username.clone(), time_code: self.time_code.clone() }
    }
}

impl Clone for CeloxisProject {
    fn clone(&self) -> (r: Self)
        ensures
            r@ == self@,
    {
        CeloxisProject {
            id: self.id.clone(),
            name: self.name.clone(),
            description: clone_opt_text(&self.description),
            state: self.state.clone(),
        }
    }
}

impl Clone for CeloxisTask {
    fn clone(&self) -> (r: Self)
        ensures
            r@ == self@,
    {
        CeloxisTask { id: self.id.clone(), name: self.name.clone() }
    }
}

/// The views of a sequence of projects.
pub open spec fn project_views(v: Seq<CeloxisProject>) -> Seq<ProjectView> {
    v.map_values(|p: CeloxisProject| p@)
}

/// The views of a sequence of tasks.
pub open spec fn task_views(v: Seq<CeloxisTask>) -> Seq<TaskView> {
    v.map_values(|t: CeloxisTask| t@)
}

/// The views of a sequence of records.
pub open spec fn record_views(v: Seq<CeloxisTimeEntry>) -> Seq<RecordView> {
    v.map_values(|r: CeloxisTimeEntry| r@)
}

/// The view of preferences that may be missing.
pub open spec fn opt_prefs(p: Option<UserPreferences>) -> Option<PreferencesView> {
    match p {
        Some(prefs) => Some(prefs@),
        None => None,
    }
}

/// A copy of `v`.
pub fn clone_projects(v: &Vec<CeloxisProject>) -> (r: Vec<CeloxisProject>)
    ensures
        project_views(r@) == project_views(v@),
{
    let mut out: Vec<CeloxisProject> = Vec::new();
    let mut i: usize = 0;
    while i < v.len()
        invariant
            i <= v.len(),
            out.len() == i,
            forall|k: int| 0 <= k < i ==> (#[trigger] out[k])@ == v[k]@,
        decreases v.len() - i,
    {
        out.push(v[i].clone());
        i += 1;
    }
    assert(project_views(out@) =~= project_views(v@));
    out
}

/// A copy of `v`.
pub fn clone_tasks(v: &Vec<CeloxisTask>) -> (r: Vec<CeloxisTask>)
    ensures
        task_views(r@) == task_views(v@),
{
    let mut out: Vec<CeloxisTask> = Vec::new();
    let mut i: usize = 0;
    while i < v.len()
        invariant
            i <= v.len(),
            out.len() == i,
            forall|k: int| 0 <= k < i ==> (#[trigger] out[k])@ == v[k]@,
        decreases v.len() - i,
    {
        out.push(v[i].clone());
        i += 1;
    }
    assert(task_views(out@) =~= task_views(v@));
    out
}

/// The tasks of one project, as the cache holds them.
#[derive(Debug)]
pub struct TaskList {
    pub project_id: String,
    pub tasks: Vec<CeloxisTask>,
}

/// What a `TaskList` holds.
pub struct TaskListView {
    pub project_id: Seq<char>,
    pub tasks: Seq<TaskView>,
}

impl View for TaskList {
    type V = TaskListView;

    open spec fn view(&self) -> TaskListView {
        TaskListView { project_id: self.project_id@, tasks: task_views(self.tasks@) }
    }
}

/// The views of a sequence of task lists.
pub open spec fn list_views(v: Seq<TaskList>) -> Seq<TaskListView> {
    v.map_values(|l: TaskList| l@)
}

/// What a `CacheData` holds: the projects, no identifier twice; the tasks of
/// the projects that were asked for, no project twice; when the service last
/// answered; and the preferences, once they are known.
pub struct CacheView {
    pub projects: Seq<ProjectView>,
    pub tasks: Seq<TaskListView>,
    pub last_updated: i64,
    pub user_prefs: Option<PreferencesView>,
}

/// The identifiers of the projects, in their order.
pub open spec fn project_ids(projects: Seq<ProjectView>) -> Seq<Seq<char>> {
    projects.map_values(|p: ProjectView| p.id)
}

/// The identifiers of the projects whose tasks are held, in their order.
pub open spec fn list_ids(lists: Seq<TaskListView>) -> Seq<Seq<char>> {
    lists.map_values(|l: TaskListView| l.project_id)
}

/// `projects` with `p` in the place of the project of the same identifier,
/// or at the end where there is none.
pub open spec fn put_project(projects: Seq<ProjectView>, p: ProjectView) -> Seq<ProjectView> {
    match first_index_of(project_ids(projects), p.id) {
        Some(i) => projects.update(i, p),
        None => projects.push(p),
    }
}

/// `projects` after each of `items` has been put into it, in their order.
pub open spec fn put_projects(projects: Seq<ProjectView>, items: Seq<ProjectView>) -> Seq<
    ProjectView,
>
    decreases items.len(),
{
    if items.len() == 0 {
        projects
    } else {
        put_project(put_projects(projects, items.drop_last()), items.last())
    }
}

/// `lists` with `l` in the place of the list of the same project, or at the
/// end where there is none.
pub open spec fn put_list(lists: Seq<TaskListView>, l: TaskListView) -> Seq<TaskListView> {
    match first_index_of(list_ids(lists), l.project_id) {
        Some(i) => lists.update(i, l),
        None => lists.push(l),
    }
}

/// `lists` after each of `items` has been put into it, in their order.
pub open spec fn put_lists(lists: Seq<TaskListView>, items: Seq<TaskListView>) -> Seq<TaskListView>
    decreases items.len(),
{
    if items.len() == 0 {
        lists
    } else {
        put_list(put_lists(lists, items.drop_last()), items.last())
    }
}

/// The project of the identifier `id`.
pub open spec fn project_of(projects: Seq<ProjectView>, id: Seq<char>) -> Option<ProjectView> {
    match first_index_of(project_ids(projects), id) {
        Some(i) => Some(projects[i]),
        None => None,
    }
}

/// The tasks held for the project of the identifier `id`.
pub open spec fn tasks_of(lists: Seq<TaskListView>, id: Seq<char>) -> Option<Seq<TaskView>> {
    match first_index_of(list_ids(lists), id) {
        Some(i) => Some(lists[i].tasks),
        None => None,
    }
}

/// Whether no identifier occurs twice among the projects, nor a project
/// twice among the task lists.
pub open spec fn keys_distinct(c: CacheView) -> bool {
    &&& project_ids(c.projects).no_duplicates()
    &&& list_ids(c.tasks).no_duplicates()
}

/// Putting a project keeps the identifiers distinct.
pub proof fn lemma_put_project_distinct(projects: Seq<ProjectView>, p: ProjectView)
    requires
        project_ids(projects).no_duplicates(),
    ensures
        project_ids(put_project(projects, p)).no_duplicates(),
{
    let ids = project_ids(projects);
    lemma_first_index_found(ids, p.id);
    let after = put_project(projects, p);
    let ids2 = project_ids(after);
    match first_index_of(ids, p.id) {
        Some(i) => {
            assert(ids2 =~= ids);
        },
        None => {
            assert(ids2 =~= ids.push(p.id));
        },
    }
}

/// Putting a task list keeps the projects distinct.
pub proof fn lemma_put_list_distinct(lists: Seq<TaskListView>, l: TaskListView)
    requires
        list_ids(lists).no_duplicates(),
    ensures
        list_ids(put_list(lists, l)).no_duplicates(),
{
    let ids = list_ids(lists);
    lemma_first_index_found(ids, l.project_id);
    let after = put_list(lists, l);
    let ids2 = list_ids(after);
    match first_index_of(ids, l.project_id) {
        Some(i) => {
            assert(ids2 =~= ids);
        },
        None => {
            assert(ids2 =~= ids.push(l.project_id));
        },
    }
}

/// Projects of distinct identifiers, put one by one into an empty list, make
/// the list that they came in.
pub proof fn lemma_put_projects_is_identity(projects: Seq<ProjectView>)
    requires
        project_ids(projects).no_duplicates(),
    ensures
        put_projects(Seq::empty(), projects) == projects,
    decreases projects.len(),
{
    if projects.len() == 0 {
        assert(projects =~= Seq::<ProjectView>::empty());
    } else {
        let front = projects.drop_last();
        let last = projects.last();
        let ids = project_ids(projects);
        assert(project_ids(front) =~= ids.drop_last());
        lemma_put_projects_is_identity(front);
        lemma_first_index_found(project_ids(front), last.id);
        if first_index_of(project_ids(front), last.id) is Some {
            let i = first_index_of(project_ids(front), last.id)->0;
            assert(ids[i] == ids[ids.len() - 1]);
        }
        assert(front.push(last) =~= projects);
    }
}

/// Task lists of distinct projects, put one by one into an empty list, make
/// the list that they came in.
pub proof fn lemma_put_lists_is_identity(lists: Seq<TaskListView>)
    requires
        list_ids(lists).no_duplicates(),
    ensures
        put_lists(Seq::empty(), lists) == lists,
    decreases lists.len(),
{
    if lists.len() == 0 {
        assert(lists =~= Seq::<TaskListView>::empty());
    } else {
        let front = lists.drop_last();
        let last = lists.last();
        let ids = list_ids(lists);
        assert(list_ids(front) =~= ids.drop_last());
        lemma_put_lists_is_identity(front);
        lemma_first_index_found(list_ids(front), last.project_id);
        if first_index_of(list_ids(front), last.project_id) is Some {
            let i = first_index_of(list_ids(front), last.project_id)->0;
            assert(ids[i] == ids[ids.len() - 1]);
        }
        assert(front.push(last) =~= lists);
    }
}

/// The cache that holds the parts of `c`, put into an empty cache one by one.
pub open spec fn rebuilt(c: CacheView) -> CacheView {
    CacheView {
        projects: put_projects(Seq::empty(), c.projects),
        tasks: put_lists(Seq::empty(), c.tasks),
        last_updated: c.last_updated,
        user_prefs: c.user_prefs,
    }
}

/// A cache that is taken apart and put together again is the same cache:
/// nothing is lost or reordered on the way to a file and back, as far as it
/// lies with this library.
pub proof fn lemma_cache_round_trip(c: CacheView)
    requires
        keys_distinct(c),
    ensures
        rebuilt(c) == c,
{
    lemma_put_projects_is_identity(c.projects);
    lemma_put_lists_is_identity(c.tasks);
}

/// What is listed without a repeat is, in any other order, listed without a
/// repeat.
pub proof fn lemma_no_duplicates_any_order<A>(a: Seq<A>, b: Seq<A>)
    requires
        a.no_duplicates(),
        a.to_multiset() == b.to_multiset(),
    ensures
        b.no_duplicates(),
        forall|x: A| a.contains(x) <==> b.contains(x),
{
    broadcast use vstd::seq_lib::group_to_multiset_ensures;

    a.lemma_multiset_has_no_duplicates();
    b.lemma_multiset_has_no_duplicates_conv();
    a.to_multiset_ensures();
    b.to_multiset_ensures();
    assert forall|x: A| a.contains(x) <==> b.contains(x) by {
        assert(a.contains(x) <==> a.to_multiset().count(x) > 0);
        assert(b.contains(x) <==> b.to_multiset().count(x) > 0);
    }
}

/// Projects of distinct identifiers have distinct identifiers in any other
/// order, and the project of an identifier is the same in every order.
pub proof fn lemma_projects_any_order(a: Seq<ProjectView>, b: Seq<ProjectView>)
    requires
        project_ids(a).no_duplicates(),
        a.to_multiset() == b.to_multiset(),
    ensures
        project_ids(b).no_duplicates(),
        forall|id: Seq<char>| project_of(a, id) == project_of(b, id),
{
    let ia = project_ids(a);
    let ib = project_ids(b);
    assert(a.no_duplicates()) by {
        assert forall|i: int, j: int| 0 <= i < a.len() && 0 <= j < a.len() && i != j implies a[i]
            != a[j] by {
            assert(ia[i] != ia[j]);
        }
    }
    lemma_no_duplicates_any_order(a, b);
    assert forall|i: int, j: int| 0 <= i < ib.len() && 0 <= j < ib.len() && i != j implies ib[i]
        != ib[j] by {
        assert(b.contains(b[i]) && b.contains(b[j]));
        let x = choose|x: int| 0 <= x < a.len() && a[x] == b[i];
        let y = choose|y: int| 0 <= y < a.len() && a[y] == b[j];
        assert(b[i] != b[j]);
        assert(ia[x] != ia[y]);
    }
    assert forall|id: Seq<char>| project_of(a, id) == project_of(b, id) by {
        lemma_first_index_found(ia, id);
        lemma_first_index_found(ib, id);
        match first_index_of(ia, id) {
            Some(i) => {
                assert(a.contains(a[i]));
                let j = choose|j: int| 0 <= j < b.len() && b[j] == a[i];
                assert(ib[j] == id);
                lemma_first_index_of_distinct(ib, j);
            },
            None => {
                if first_index_of(ib, id) is Some {
                    let j = first_index_of(ib, id)->0;
                    assert(b.contains(b[j]));
                    let i = choose|i: int| 0 <= i < a.len() && a[i] == b[j];
                    assert(ia[i] == id);
                }
            },
        }
    }
}

/// Task lists of distinct projects are lists of distinct projects in any
/// other order, and the tasks of a project are the same in every order.
pub proof fn lemma_lists_any_order(a: Seq<TaskListView>, b: Seq<TaskListView>)
    requires
        list_ids(a).no_duplicates(),
        a.to_multiset() == b.to_multiset(),
    ensures
        list_ids(b).no_duplicates(),
        forall|id: Seq<char>| tasks_of(a, id) == tasks_of(b, id),
{
    let ia = list_ids(a);
    let ib = list_ids(b);
    assert(a.no_duplicates()) by {
        assert forall|i: int, j: int| 0 <= i < a.len() && 0 <= j < a.len() && i != j implies a[i]
            != a[j] by {
            assert(ia[i] != ia[j]);
        }
    }
    lemma_no_duplicates_any_order(a, b);
    assert forall|i: int, j: int| 0 <= i < ib.len() && 0 <= j < ib.len() && i != j implies ib[i]
        != ib[j] by {
        assert(b.contains(b[i]) && b.contains(b[j]));
        let x = choose|x: int| 0 <= x < a.len() && a[x] == b[i];
        let y = choose|y: int| 0 <= y < a.len() && a[y] == b[j];
        assert(b[i] != b[j]);
        assert(ia[x] != ia[y]);
    }
    assert forall|id: Seq<char>| tasks_of(a, id) == tasks_of(b, id) by {
        lemma_first_index_found(ia, id);
        lemma_first_index_found(ib, id);
        match first_index_of(ia, id) {
            Some(i) => {
                assert(a.contains(a[i]));
                let j = choose|j: int| 0 <= j < b.len() && b[j] == a[i];
                assert(ib[j] == id);
                lemma_first_index_of_distinct(ib, j);
            },
            None => {
                if first_index_of(ib, id) is Some {
                    let j = first_index_of(ib, id)->0;
                    assert(b.contains(b[j]));
                    let i = choose|i: int| 0 <= i < a.len() && a[i] == b[j];
                    assert(ia[i] == id);
                }
            },
        }
    }
}

/// A cache that is taken apart and put together from its parts in whatever
/// order holds what it held: the same projects and the same task lists, each
/// once; for every identifier the same project and the same tasks; the same
/// instant and the same preferences. So nothing is lost on the way to a file
/// that keeps no order and back, as far as it lies with this library.
pub proof fn lemma_cache_survives_any_order(
    c: CacheView,
    projects: Seq<ProjectView>,
    lists: Seq<TaskListView>,
)
    requires
        keys_distinct(c),
        projects.to_multiset() == c.projects.to_multiset(),
        lists.to_multiset() == c.tasks.to_multiset(),
    ensures
        ({
            let r = rebuilt(CacheView { projects, tasks: lists, ..c });
            &&& keys_distinct(r)
            &&& r.projects == projects
            &&& r.tasks == lists
            &&& r.last_updated == c.last_updated
            &&& r.user_prefs == c.user_prefs
            &&& forall|id: Seq<char>| project_of(r.projects, id) == project_of(c.projects, id)
            &&& forall|id: Seq<char>| tasks_of(r.tasks, id) == tasks_of(c.tasks, id)
        }),
{
    lemma_projects_any_order(c.projects, projects);
    lemma_lists_any_order(c.tasks, lists);
    lemma_put_projects_is_identity(projects);
    lemma_put_lists_is_identity(lists);
}

/// The reference data of the service, as it was last fetched.
#[derive(Debug)]
pub struct CacheData {
    projects: Vec<CeloxisProject>,
    tasks: Vec<TaskList>,
    last_updated: i64,
    user_prefs: Option<UserPreferences>,
}

impl View for CacheData {
    type V = CacheView;

    closed spec fn view(&self) -> CacheView {
        CacheView {
            projects: project_views(self.projects@),
            tasks: list_views(self.tasks@),
            last_updated: self.last_updated,
            user_prefs: opt_prefs(self.user_prefs),
        }
    }
}

impl CacheData {
    /// Whether the cache holds no identifier twice.
    pub closed spec fn well_formed(&self) -> bool {
        keys_distinct(self@)
    }

    /// A cache that holds nothing, as of the instant `now`.
    pub fn empty(now: i64) -> (r: CacheData)
        ensures
            r.well_formed(),
            r@ == (CacheView {
                projects: Seq::empty(),
                tasks: Seq::empty(),
                last_updated: now,
                user_prefs: None,
            }),
    {
        let r = CacheData {
            projects: Vec::new(),
            tasks: Vec::new(),
            last_updated: now,
            user_prefs: None,
        };
        assert(r@.projects =~= Seq::<ProjectView>::empty());
        assert(r@.tasks =~= Seq::<TaskListView>::empty());
        assert(project_ids(r@.projects) =~= Seq::<Seq<char>>::empty());
        assert(list_ids(r@.tasks) =~= Seq::<Seq<char>>::empty());
        r
    }

    /// When the service last answered.
    pub fn last_updated(&self) -> (r: i64)
        ensures
            r == self@.last_updated,
    {
        self.last_updated
    }

    /// Records when the service last answered.
    pub fn set_last_updated(&mut self, now: i64)
        ensures
            final(self)@ == (CacheView { last_updated: now, ..old(self)@ }),
            old(self).well_formed() ==> final(self).well_formed(),
    {
        self.last_updated = now;
    }

    /// The preferences, where they are known.
    pub fn user_prefs(&self) -> (r: Option<UserPreferences>)
        ensures
            opt_prefs(r) == self@.user_prefs,
    {
        match &self.user_prefs {
            Some(prefs) => Some(prefs.clone()),
            None => None,
        }
    }

    /// Takes the preferences into the cache.
    pub fn set_user_prefs(&mut self, prefs: UserPreferences)
        ensures
            final(self)@ == (CacheView { user_prefs: Some(prefs@), ..old(self)@ }),
            old(self).well_formed() ==> final(self).well_formed(),
    {
        self.user_prefs = Some(prefs);
    }

    /// The projects, in the order in which the cache holds them.
    pub fn projects(&self) -> (r: Vec<CeloxisProject>)
        ensures
            project_views(r@) == self@.projects,
    {
        clone_projects(&self.projects)
    }

    /// Where the cache holds the project of the identifier `id`.
    fn project_index(&self, id: &str) -> (r: Option<usize>)
        ensures
            match r {
                Some(i) => first_index_of(project_ids(self@.projects), id@) == Some(i as int) && i
                    < self.projects.len(),
                None => first_index_of(project_ids(self@.projects), id@) is None,
            },
    {
        let ghost ids = project_ids(self@.projects);
        let mut i: usize = 0;
        while i < self.projects.len()
            invariant
                i <= self.projects.len(),
                ids == project_ids(self@.projects),
                forall|j: int| 0 <= j < i ==> ids[j] != id@,
            decreases self.projects.len() - i,
        {
            if same_text(self.projects[i].id.as_str(), id) {
                proof {
                    lemma_first_index_is(ids, id@, i as int);
                }
                return Some(i);
            }
            i += 1;
        }
        proof {
            lemma_first_index_none(ids, id@);
        }
        None
    }

    /// Where the cache holds the tasks of the project of the identifier `id`.
    fn list_index(&self, id: &str) -> (r: Option<usize>)
        ensures
            match r {
                Some(i) => first_index_of(list_ids(self@.tasks), id@) == Some(i as int) && i
                    < self.tasks.len(),
                None => first_index_of(list_ids(self@.tasks), id@) is None,
            },
    {
        let ghost ids = list_ids(self@.tasks);
        let mut i: usize = 0;
        while i < self.tasks.len()
            invariant
                i <= self.tasks.len(),
                ids == list_ids(self@.tasks),
                forall|j: int| 0 <= j < i ==> ids[j] != id@,
            decreases self.tasks.len() - i,
        {
            if same_text(self.tasks[i].project_id.as_str(), id) {
                proof {
                    lemma_first_index_is(ids, id@, i as int);
                }
                return Some(i);
            }
            i += 1;
        }
        proof {
            lemma_first_index_none(ids, id@);
        }
        None
    }

    /// The project of the identifier `id`.
    pub fn project(&self, id: &str) -> (r: Option<&CeloxisProject>)
        ensures
            match r {
                Some(p) => project_of(self@.projects, id@) == Some(p@),
                None => project_of(self@.projects, id@) is None,
            },
    {
        match self.project_index(id) {
            Some(i) => Some(&self.projects[i]),
            None => None,
        }
    }

    /// The tasks held for the project of the identifier `id`.
    pub fn tasks(&self, id: &str) -> (r: Option<&Vec<CeloxisTask>>)
        ensures
            match r {
                Some(t) => tasks_of(self@.tasks, id@) == Some(task_views(t@)),
                None => tasks_of(self@.tasks, id@) is None,
            },
    {
        match self.list_index(id) {
            Some(i) => Some(&self.tasks[i].tasks),
            None => None,
        }
    }

    /// Puts a project into the cache, in the place of the one of the same
    /// identifier where there is one.
    pub fn put_project(&mut self, project: CeloxisProject)
        requires
            old(self).well_formed(),
        ensures
            final(self).well_formed(),
            final(self)@ == (CacheView {
                projects: put_project(old(self)@.projects, project@),
                ..old(self)@
            }),
    {
        proof {
            lemma_put_project_distinct(self@.projects, project@);
        }
        let ghost before = self@.projects;
        match self.project_index(project.id.as_str()) {
            Some(i) => {
                self.projects.set(i, project);
                assert(project_views(self.projects@) =~= before.update(i as int, project@));
            },
            None => {
                self.projects.push(project);
                assert(project_views(self.projects@) =~= before.push(project@));
            },
        }
    }

    /// Puts the tasks of a project into the cache, in the place of those held
    /// for the same project where there are any.
    pub fn put_tasks(&mut self, list: TaskList)
        requires
            old(self).well_formed(),
        ensures
            final(self).well_formed(),
            final(self)@ == (CacheView { tasks: put_list(old(self)@.tasks, list@), ..old(self)@ }),
    {
        proof {
            lemma_put_list_distinct(self@.tasks, list@);
        }
        let ghost before = self@.tasks;
        match self.list_index(list.project_id.as_str()) {
            Some(i) => {
                self.tasks.set(i, list);
                assert(list_views(self.tasks@) =~= before.update(i as int, list@));
            },
            None => {
                self.tasks.push(list);
                assert(list_views(self.tasks@) =~= before.push(list@));
            },
        }
    }

    /// The task lists, in the order in which the cache holds them.
    pub fn task_lists(&self) -> (r: Vec<TaskList>)
        ensures
            list_views(r@) == self@.tasks,
    {
        let mut out: Vec<TaskList> = Vec::new();
        let mut i: usize = 0;
        while i < self.tasks.len()
            invariant
                i <= self.tasks.len(),
                out.len() == i,
                forall|k: int| 0 <= k < i ==> (#[trigger] out[k])@ == self.tasks[k]@,
            decreases self.tasks.len() - i,
        {
            out.push(
                TaskList {
                    project_id: self.tasks[i].project_id.clone(),
                    tasks: clone_tasks(&self.tasks[i].tasks),
                },
            );
            i += 1;
        }
        assert(list_views(out@) =~= list_views(self.tasks@));
        out
    }

    /// Puts a cache together from its parts. Of two projects of the same
    /// identifier, and of two task lists of the same project, the later takes
    /// the place of the earlier.
    pub fn from_parts(
        projects: Vec<CeloxisProject>,
        task_lists: Vec<TaskList>,
        last_updated: i64,
        user_prefs: Option<UserPreferences>,
    ) -> (r: CacheData)
        ensures
            r.well_formed(),
            r@ == rebuilt(
                CacheView {
                    projects: project_views(projects@),
                    tasks: list_views(task_lists@),
                    last_updated,
                    user_prefs: opt_prefs(user_prefs),
                },
            ),
    {
        let mut cache = CacheData::empty(last_updated);
        let ghost pv = project_views(projects@);
        let ghost lv = list_views(task_lists@);
        let mut i: usize = 0;
        while i < projects.len()
            invariant
                i <= projects.len(),
                pv == project_views(projects@),
                cache.well_formed(),
                cache@ == (CacheView {
                    projects: put_projects(Seq::empty(), pv.take(i as int)),
                    tasks: Seq::empty(),
                    last_updated,
                    user_prefs: None,
                }),
            decreases projects.len() - i,
        {
            proof {
                assert(pv.take(i + 1).drop_last() =~= pv.take(i as int));
            }
            cache.put_project(projects[i].clone());
            i += 1;
        }
        assert(pv.take(projects.len() as int) =~= pv);
        let mut j: usize = 0;
        while j < task_lists.len()
            invariant
                j <= task_lists.len(),
                lv == list_views(task_lists@),
                cache.well_formed(),
                cache@ == (CacheView {
                    projects: put_projects(Seq::empty(), pv),
                    tasks: put_lists(Seq::empty(), lv.take(j as int)),
                    last_updated,
                    user_prefs: None,
                }),
            decreases task_lists.len() - j,
        {
            proof {
                assert(lv.take(j + 1).drop_last() =~= lv.take(j as int));
            }
            cache.put_tasks(
                TaskList {
                    project_id: task_lists[j].project_id.clone(),
                    tasks: clone_tasks(&task_lists[j].tasks),
                },
            );
            j += 1;
        }
        assert(lv.take(task_lists.len() as int) =~= lv);
        match user_prefs {
            Some(prefs) => {
                cache.set_user_prefs(prefs);
            },
            None => {},
        }
        cache
    }

    /// Forgets all projects.
    pub fn clear_projects(&mut self)
        requires
            old(self).well_formed(),
        ensures
            final(self).well_formed(),
            final(self)@ == (CacheView { projects: Seq::empty(), ..old(self)@ }),
    {
        self.projects = Vec::new();
        assert(project_views(self.projects@) =~= Seq::<ProjectView>::empty());
        assert(project_ids(self@.projects) =~= Seq::<Seq<char>>::empty());
    }
}

/// What has to happen before the projects are at hand.
#[derive(Debug)]
pub enum ProjectsStep {
    /// The cache holds them: here they are.
    Cached(Vec<CeloxisProject>),
    /// They have to be fetched from `url` with the query parameter `filter`.
    Fetch { url: String, filter: String },
}

/// What has to happen before the tasks of a project are at hand.
#[derive(Debug)]
pub enum TasksStep {
    /// The cache holds them: here they are.
    Cached(Vec<CeloxisTask>),
    /// They have to be fetched from `url` with the query parameter `filter`.
    Fetch { url: String, filter: String },
}

/// A text that the user has to enter.
#[derive(Debug, Clone, Copy, PartialEq, Eq, Structural)]
pub enum Required {
    ApiKey,
    Username,
    TimeCode,
    Summary,
}

/// Why the service did not take the time entries: its status and what it
/// wrote.
#[derive(Debug)]
pub struct SubmitError {
    pub status: u16,
    pub message: String,
}

/// What the user is told when a required text is left blank.
pub open spec fn blank_message(field: Required) -> Seq<char> {
    match field {
        Required::ApiKey => "API key cannot be empty"@,
        Required::Username => "Username cannot be empty"@,
        Required::TimeCode => "Time code cannot be empty"@,
        Required::Summary => "Summary cannot be empty"@,
    }
}

/// The filter that asks the service for the tasks of one project.
pub open spec fn tasks_filter(project_id: Seq<char>) -> Seq<char> {
    "{\"project.id\":\""@ + project_id + "\"}"@
}

/// Whether a status of the service reports success.
pub open spec fn is_success(status: u16) -> bool {
    200 <= status < 300
}

/// What the user is told when a required text is left blank.
pub fn required_message(field: Required) -> (r: String)
    ensures
        r@ == blank_message(field),
{
    let text = match field {
        Required::ApiKey => "API key cannot be empty",
        Required::Username => "Username cannot be empty",
        Required::TimeCode => "Time code cannot be empty",
        Required::Summary => "Summary cannot be empty",
    };
    text.to_owned()
}

/// Checks a text that the user has to enter: `None` where it holds more than
/// white space, else what the user is to be told.
pub fn validate_required(field: Required, input: &str) -> (r: Option<String>)
    ensures
        match r {
            None => !is_blank(input@),
            Some(message) => is_blank(input@) && message@ == blank_message(field),
        },
{
    if is_filled(input) {
        None
    } else {
        Some(required_message(field))
    }
}

/// The value of the `Authorization` header for the key `key`.
pub fn authorization_header(key: &str) -> (r: String)
    ensures
        r@ == "bearer "@ + trim(key@),
{
    let bare = trimmed(key);
    concat("bearer ", bare.as_str())
}

/// The client of the remote service, as far as it decides.
#[derive(Debug)]
pub struct CeloxisApi {
    cache: CacheData,
}

impl View for CeloxisApi {
    type V = CacheView;

    closed spec fn view(&self) -> CacheView {
        self.cache@
    }
}

impl CeloxisApi {
    /// Whether the cache of the client holds no identifier twice.
    pub closed spec fn well_formed(&self) -> bool {
        self.cache.well_formed()
    }

    /// A client over the cache that was found on disk, or over an empty cache
    /// as of `now` where none was found.
    pub fn new(loaded: Option<CacheData>, now: i64) -> (r: CeloxisApi)
        requires
            loaded matches Some(c) ==> c.well_formed(),
        ensures
            r.well_formed(),
            r@ == match loaded {
                Some(c) => c@,
                None => CacheView {
                    projects: Seq::empty(),
                    tasks: Seq::empty(),
                    last_updated: now,
                    user_prefs: None,
                },
            },
    {
        match loaded {
            Some(cache) => CeloxisApi { cache },
            None => CeloxisApi { cache: CacheData::empty(now) },
        }
    }

    /// The cache, to be written back.
    pub fn cache(&self) -> (r: &CacheData)
        ensures
            r@ == self@,
            self.well_formed() ==> r.well_formed(),
    {
        &self.cache
    }

    /// The projects from the cache, where it holds any and no refresh is
    /// forced; else the request that fetches the active projects.
    pub fn get_projects(&self, force_refresh: bool) -> (r: ProjectsStep)
        ensures
            match r {
                ProjectsStep::Cached(list) => !force_refresh && self@.projects.len() > 0
                    && project_views(list@) == self@.projects,
                ProjectsStep::Fetch { url, filter } => (force_refresh || self@.projects.len() == 0)
                    && url@ == BASE_URL@ + "/projects"@ && filter@ == ACTIVE_PROJECTS@,
            },
    {
        let list = self.cache.projects();
        assert(project_views(list@).len() == list.len());
        if !force_refresh && list.len() > 0 {
            ProjectsStep::Cached(list)
        } else {
            ProjectsStep::Fetch {
                url: concat(BASE_URL, "/projects"),
                filter: ACTIVE_PROJECTS.to_owned(),
            }
        }
    }

    /// Takes the projects that were fetched at `now` in the place of all that
    /// the cache held, and hands them back as they came.
    pub fn store_projects(&mut self, fetched: Vec<CeloxisProject>, now: i64) -> (r: Vec<
        CeloxisProject,
    >)
        requires
            old(self).well_formed(),
        ensures
            final(self).well_formed(),
            final(self)@ == (CacheView {
                projects: put_projects(Seq::empty(), project_views(fetched@)),
                last_updated: now,
                ..old(self)@
            }),
            r@ == fetched@,
    {
        self.cache.clear_projects();
        let ghost items = project_views(fetched@);
        let mut i: usize = 0;
        while i < fetched.len()
            invariant
                i <= fetched.len(),
                items == project_views(fetched@),
                self.cache.well_formed(),
                self.cache@ == (CacheView {
                    projects: put_projects(Seq::empty(), items.take(i as int)),
                    ..old(self).cache@
                }),
            decreases fetched.len() - i,
        {
            proof {
                assert(items.take(i + 1).drop_last() =~= items.take(i as int));
            }
            self.cache.put_project(fetched[i].clone());
            i += 1;
        }
        assert(items.take(fetched.len() as int) =~= items);
        self.cache.set_last_updated(now);
        fetched
    }

    /// The tasks of a project from the cache, where it holds them and no
    /// refresh is forced; else the request that fetches them.
    pub fn get_tasks(&self, project_id: &str, force_refresh: bool) -> (r: TasksStep)
        ensures
            match r {
                TasksStep::Cached(list) => !force_refresh && tasks_of(self@.tasks, project_id@)
                    == Some(task_views(list@)),
                TasksStep::Fetch { url, filter } => (force_refresh || tasks_of(
                    self@.tasks,
                    project_id@,
                ) is None) && url@ == BASE_URL@ + "/tasks"@ && filter@ == tasks_filter(project_id@),
            },
    {
        if !force_refresh {
            match self.cache.tasks(project_id) {
                Some(list) => {
                    return TasksStep::Cached(clone_tasks(list));
                },
                None => {},
            }
        }
        let opened = concat("{\"project.id\":\"", project_id);
        TasksStep::Fetch {
            url: concat(BASE_URL, "/tasks"),
            filter: concat(opened.as_str(), "\"}"),
        }
    }

    /// Takes the tasks that were fetched for a project at `now` in the place
    /// of those that the cache held for it, and hands them back as they came.
    pub fn store_tasks(&mut self, project_id: &str, fetched: Vec<CeloxisTask>, now: i64) -> (r:
        Vec<CeloxisTask>)
        requires
            old(self).well_formed(),
        ensures
            final(self).well_formed(),
            final(self)@ == (CacheView {
                tasks: put_list(
                    old(self)@.tasks,
                    TaskListView { project_id: project_id@, tasks: task_views(fetched@) },
                ),
                last_updated: now,
                ..old(self)@
            }),
            r@ == fetched@,
    {
        let list = TaskList { project_id: project_id.to_owned(), tasks: clone_tasks(&fetched) };
        self.cache.put_tasks(list);
        self.cache.set_last_updated(now);
        fetched
    }

    /// The project of the identifier `project_id`, as the cache holds it.
    pub fn get_cached_project(&self, project_id: &str) -> (r: Option<&CeloxisProject>)
        ensures
            match r {
                Some(p) => project_of(self@.projects, project_id@) == Some(p@),
                None => project_of(self@.projects, project_id@) is None,
            },
    {
        self.cache.project(project_id)
    }

    /// The tasks of the project of the identifier `project_id`, as the cache
    /// holds them.
    pub fn get_cached_tasks(&self, project_id: &str) -> (r: Option<&Vec<CeloxisTask>>)
        ensures
            match r {
                Some(t) => tasks_of(self@.tasks, project_id@) == Some(task_views(t@)),
                None => tasks_of(self@.tasks, project_id@) is None,
            },
    {
        self.cache.tasks(project_id)
    }

    /// The preferences, where the cache holds them. Where it holds none they
    /// have to be asked for and handed to `store_user_prefs`.
    pub fn ensure_user_prefs(&self) -> (r: Option<UserPreferences>)
        ensures
            opt_prefs(r) == self@.user_prefs,
    {
        self.cache.user_prefs()
    }

    /// Takes the preferences that the user entered into the cache and hands
    /// them back. Neither text may be blank: the first that is names the
    /// error, and the cache stays as it was.
    pub fn store_user_prefs(&mut self, username: String, time_code: String) -> (r: Result<
        UserPreferences,
        Required,
    >)
        ensures
            old(self).well_formed() ==> final(self).well_formed(),
            match r {
                Ok(prefs) => {
                    &&& !is_blank(username@)
                    &&& !is_blank(time_code@)
                    &&& prefs@ == (PreferencesView { username: username@, time_code: time_code@ })
                    &&& final(self)@ == (CacheView { user_prefs: Some(prefs@), ..old(self)@ })
                },
                Err(field) => {
                    &&& final(self)@ == old(self)@
                    &&& field == if is_blank(username@) {
                        Required::Username
                    } else {
                        Required::TimeCode
                    }
                    &&& is_blank(username@) || is_blank(time_code@)
                },
            },
    {
        if !is_filled(username.as_str()) {
            return Err(Required::Username);
        }
        if !is_filled(time_code.as_str()) {
            return Err(Required::TimeCode);
        }
        let prefs = UserPreferences { username, time_code };
        self.cache.set_user_prefs(prefs.clone());
        Ok(prefs)
    }

    /// Where the time entries are posted.
    pub fn time_entries_url() -> (r: String)
        ensures
            r@ == BASE_URL@ + "/timeEntries"@,
    {
        concat(BASE_URL, "/timeEntries")
    }

    /// Judges the answer of the service to the time entries that were posted
    /// to `time_entries_url`: success where the status says so, else the
    /// status and what the service wrote.
    pub fn submit_time_entries(status: u16, body: &str) -> (r: Result<(), SubmitError>)
        ensures
            match r {
                Ok(_) => is_success(status),
                Err(e) => !is_success(status) && e.status == status && e.message@
                    == "Failed to submit time entries: "@ + body@,
            },
    {
        if 200 <= status && status < 300 {
            Ok(())
        } else {
            Err(SubmitError { status, message: concat("Failed to submit time entries: ", body) })
        }
    }
}

} // verus!
