//! The course of assigning groups to tasks, as a state machine.
//!
//! The user is asked for groups, for a project, for a task of it and for a
//! summary of the work; then the groups are bound to the task and leave the
//! pool. The machine never asks anyone itself: it takes what the user
//! answered as an event and says what is to be asked next. Binding the
//! groups happens within the step that takes the summary.

use crate::assignment::{
    assignment_views, left_over, merge_fits, merged, picked, process_selected_groups,
    remove_groups, tags_of, tags_of_groups, AssignmentView, TaskAssignment,
};
use crate::celoxis::{
    tasks_of, CeloxisApi, CeloxisProject, CeloxisTask, PreferencesView, ProjectView, TaskView,
    UserPreferences,
};
use crate::grouping::{group_views, GroupView, GroupedEntry};
use crate::text::{is_blank, is_filled};
use vstd::prelude::*;

verus! {

/// Where the course of assigning stands.
#[derive(Debug, Clone, Copy, PartialEq, Eq, Structural)]
pub enum Phase {
    /// Groups are left, and the user is asked whether to go on.
    Pooling,
    /// The user chooses groups.
    SelectingGroups,
    /// The user chooses a project for the groups.
    SelectingProject,
    /// The user chooses a task of the project.
    SelectingTask,
    /// The user writes a summary of the work.
    EnteringSummary,
    /// Nothing more is asked.
    Done,
}

/// What is to be done next.
#[derive(Debug, Clone, Copy, PartialEq, Eq, Structural)]
pub enum Action {
    AskGroups,
    AskProject,
    AskTask,
    AskSummary,
    AskContinue,
    /// The course is over: the assignments can be reviewed and submitted.
    Finish,
    /// The event does not belong to the phase; nothing has changed.
    Ignore,
}

/// What the user answered.
#[derive(Debug)]
pub enum Event {
    /// The places in the pool of the groups that were chosen.
    GroupsChosen(Vec<usize>),
    /// The project that was chosen; `None` where the user skipped the choice.
    ProjectChosen(Option<CeloxisProject>),
    /// The task that was chosen; `None` where the user chose none.
    TaskChosen(Option<CeloxisTask>),
    SummaryEntered(String),
    /// Whether the user wants to assign more groups.
    ContinueAnswered(bool),
}

/// What an `Event` holds.
pub enum EventView {
    GroupsChosen(Seq<usize>),
    ProjectChosen(Option<ProjectView>),
    TaskChosen(Option<TaskView>),
    SummaryEntered(Seq<char>),
    ContinueAnswered(bool),
}

impl View for Event {
    type V = EventView;

    open spec fn view(&self) -> EventView {
        match self {
            Event::GroupsChosen(places) => EventView::GroupsChosen(places@),
            Event::ProjectChosen(Some(p)) => EventView::ProjectChosen(Some(p@)),
            Event::ProjectChosen(None) => EventView::ProjectChosen(None),
            Event::TaskChosen(Some(t)) => EventView::TaskChosen(Some(t@)),
            Event::TaskChosen(None) => EventView::TaskChosen(None),
            Event::SummaryEntered(text) => EventView::SummaryEntered(text@),
            Event::ContinueAnswered(more) => EventView::ContinueAnswered(*more),
        }
    }
}

/// The course of assigning the groups of a pool to tasks.
#[derive(Debug)]
pub struct Workflow {
    phase: Phase,
    pool: Vec<GroupedEntry>,
    selected: Vec<GroupedEntry>,
    project: Option<CeloxisProject>,
    task: Option<CeloxisTask>,
    assignments: Vec<TaskAssignment>,
    prefs: UserPreferences,
}

/// What a `Workflow` holds: the phase, the groups that are not yet assigned,
/// the groups, the project and the task of the attempt under way, the
/// assignments made so far, and the preferences under which time is booked.
pub struct WorkflowView {
    pub phase: Phase,
    pub pool: Seq<GroupView>,
    pub selected: Seq<GroupView>,
    pub project: Option<ProjectView>,
    pub task: Option<TaskView>,
    pub assignments: Seq<AssignmentView>,
    pub prefs: PreferencesView,
}

/// How the tasks of a project are to be had.
#[derive(Debug, Clone, Copy, PartialEq, Eq, Structural)]
pub enum RefreshChoice {
    /// The cache holds them: the user decides whether to fetch them anew,
    /// and is taken to decline unless they say otherwise.
    AskUser,
    /// The cache holds none: they have to be fetched.
    Forced,
}

/// The state after an attempt was given up: the pool as it was, nothing
/// chosen, and the question whether to go on.
pub open spec fn given_up(w: WorkflowView) -> (WorkflowView, Action) {
    (
        WorkflowView {
            phase: Phase::Pooling,
            selected: Seq::empty(),
            project: None,
            task: None,
            ..w
        },
        Action::AskContinue,
    )
}

/// The assignment that binds the chosen groups to the chosen task.
pub open spec fn bound(w: WorkflowView, summary: Seq<char>) -> AssignmentView {
    AssignmentView {
        groups: w.selected,
        total_duration: merged(w.selected),
        celoxis_project: w.project->0,
        celoxis_task: w.task->0,
        summary,
        time_code: w.prefs.time_code,
        user: w.prefs.username,
    }
}

/// The state after the chosen groups were bound to the chosen task: the
/// assignment joins the others, and every group of the pool that has the
/// tags of a chosen group leaves it. Where a project or a task is missing, or
/// the minutes of the chosen groups cannot be added up, the attempt is given
/// up instead.
pub open spec fn recorded(w: WorkflowView, summary: Seq<char>) -> (WorkflowView, Action) {
    if w.project is None || w.task is None || !merge_fits(w.selected) {
        given_up(w)
    } else {
        let pool = left_over(w.pool, tags_of_groups(w.selected));
        let cleared = WorkflowView {
            pool,
            selected: Seq::empty(),
            project: None,
            task: None,
            assignments: w.assignments.push(bound(w, summary)),
            ..w
        };
        if pool.len() == 0 {
            (WorkflowView { phase: Phase::Done, ..cleared }, Action::Finish)
        } else {
            (WorkflowView { phase: Phase::Pooling, ..cleared }, Action::AskContinue)
        }
    }
}

/// The state that follows `w` on the event `e`, and what is to be done next.
pub open spec fn next(w: WorkflowView, e: EventView) -> (WorkflowView, Action) {
    match (w.phase, e) {
        (Phase::Pooling, EventView::ContinueAnswered(more)) => if more {
            (WorkflowView { phase: Phase::SelectingGroups, ..w }, Action::AskGroups)
        } else {
            (WorkflowView { phase: Phase::Done, ..w }, Action::Finish)
        },
        (Phase::SelectingGroups, EventView::GroupsChosen(places)) => {
            let groups = picked(w.pool, places);
            if groups.len() == 0 {
                (WorkflowView { phase: Phase::Done, ..w }, Action::Finish)
            } else {
                (
                    WorkflowView { phase: Phase::SelectingProject, selected: groups, ..w },
                    Action::AskProject,
                )
            }
        },
        (Phase::SelectingProject, EventView::ProjectChosen(Some(p))) => (
            WorkflowView { phase: Phase::SelectingTask, project: Some(p), ..w },
            Action::AskTask,
        ),
        (Phase::SelectingProject, EventView::ProjectChosen(None)) => given_up(w),
        (Phase::SelectingTask, EventView::TaskChosen(Some(t))) => (
            WorkflowView { phase: Phase::EnteringSummary, task: Some(t), ..w },
            Action::AskSummary,
        ),
        (Phase::SelectingTask, EventView::TaskChosen(None)) => given_up(w),
        (Phase::EnteringSummary, EventView::SummaryEntered(text)) => if is_blank(text) {
            (w, Action::AskSummary)
        } else {
            recorded(w, text)
        },
        _ => (w, Action::Ignore),
    }
}

/// Whether the state holds what its phase needs: a project once a task is
/// chosen, and a task too once the summary is written.
pub open spec fn coherent(w: WorkflowView) -> bool {
    &&& w.phase == Phase::SelectingTask ==> w.project is Some
    &&& w.phase == Phase::EnteringSummary ==> w.project is Some && w.task is Some
}

/// The state in which the course begins: choosing groups where there are
/// any, over where there are none.
pub open spec fn beginning(pool: Seq<GroupView>, prefs: PreferencesView) -> (WorkflowView, Action) {
    let w = WorkflowView {
        phase: Phase::SelectingGroups,
        pool,
        selected: Seq::empty(),
        project: None,
        task: None,
        assignments: Seq::empty(),
        prefs,
    };
    if pool.len() == 0 {
        (WorkflowView { phase: Phase::Done, ..w }, Action::Finish)
    } else {
        (w, Action::AskGroups)
    }
}

/// Every step leaves the state coherent.
pub proof fn lemma_next_coherent(w: WorkflowView, e: EventView)
    requires
        coherent(w),
    ensures
        coherent(next(w, e).0),
{
}

/// How the tasks of the project of the identifier `project_id` are to be
/// had: fetched where the cache holds none, else as the user decides.
pub fn refresh_choice(api: &CeloxisApi, project_id: &str) -> (r: RefreshChoice)
    ensures
        r == if tasks_of(api@.tasks, project_id@) is Some {
            RefreshChoice::AskUser
        } else {
            RefreshChoice::Forced
        },
{
    match api.get_cached_tasks(project_id) {
        Some(_) => RefreshChoice::AskUser,
        None => RefreshChoice::Forced,
    }
}

/// Checks a choice of groups before it is handed in: `None` where a group
/// was chosen, else what the user is to be told.
pub fn validate_selection(count: usize) -> (r: Option<String>)
    ensures
        match r {
            None => count > 0,
            Some(message) => count == 0 && message@ == "Please select at least one group"@,
        },
{
    if count > 0 {
        None
    } else {
        Some("Please select at least one group".to_owned())
    }
}

impl View for Workflow {
    type V = WorkflowView;

    closed spec fn view(&self) -> WorkflowView {
        WorkflowView {
            phase: self.phase,
            pool: group_views(self.pool@),
            selected: group_views(self.selected@),
            project: match self.project {
                Some(p) => Some(p@),
                None => None,
            },
            task: match self.task {
                Some(t) => Some(t@),
                None => None,
            },
            assignments: assignment_views(self.assignments@),
            prefs: self.prefs@,
        }
    }
}

impl Workflow {
    /// Begins the course over the groups of `pool`.
    pub fn new(pool: Vec<GroupedEntry>, prefs: UserPreferences) -> (r: (Workflow, Action))
        ensures
            (r.0@, r.1) == beginning(group_views(pool@), prefs@),
            coherent(r.0@),
    {
        let empty = pool.len() == 0;
        assert(group_views(pool@).len() == pool.len());
        let w = Workflow {
            phase: if empty {
                Phase::Done
            } else {
                Phase::SelectingGroups
            },
            pool,
            selected: Vec::new(),
            project: None,
            task: None,
            assignments: Vec::new(),
            prefs,
        };
        assert(w@.selected =~= Seq::<GroupView>::empty());
        assert(w@.assignments =~= Seq::<AssignmentView>::empty());
        if empty {
            (w, Action::Finish)
        } else {
            (w, Action::AskGroups)
        }
    }

    /// Where the course stands.
    pub fn phase(&self) -> (r: Phase)
        ensures
            r == self@.phase,
    {
        self.phase
    }

    /// The groups that are not yet assigned.
    pub fn pool(&self) -> (r: &Vec<GroupedEntry>)
        ensures
            group_views(r@) == self@.pool,
    {
        &self.pool
    }

    /// The project of the attempt under way.
    pub fn project(&self) -> (r: &Option<CeloxisProject>)
        ensures
            self@.project == match *r {
                Some(p) => Some(p@),
                None => None,
            },
    {
        &self.project
    }

    /// The assignments made so far.
    pub fn assignments(&self) -> (r: &Vec<TaskAssignment>)
        ensures
            assignment_views(r@) == self@.assignments,
    {
        &self.assignments
    }

    /// Gives the attempt under way up.
    fn give_up(self) -> (r: (Workflow, Action))
        ensures
            (r.0@, r.1) == given_up(self@),
    {
        let w = Workflow {
            phase: Phase::Pooling,
            pool: self.pool,
            selected: Vec::new(),
            project: None,
            task: None,
            assignments: self.assignments,
            prefs: self.prefs,
        };
        assert(w@.selected =~= Seq::<GroupView>::empty());
        (w, Action::AskContinue)
    }

    /// Binds the chosen groups to the chosen task.
    fn record(self, summary: String) -> (r: (Workflow, Action))
        ensures
            (r.0@, r.1) == recorded(self@, summary@),
    {
        let taken = tags_of(&self.selected);
        let left = remove_groups(&self.pool, &taken);
        let Workflow { phase, pool, selected, project, task, assignments, prefs } = self;
        let made = match (project, task) {
            (Some(p), Some(t)) => TaskAssignment::record(selected, p, t, summary, &prefs),
            _ => None,
        };
        let mut assignments = assignments;
        match made {
            None => {
                let w = Workflow {
                    phase: Phase::Pooling,
                    pool,
                    selected: Vec::new(),
                    project: None,
                    task: None,
                    assignments,
                    prefs,
                };
                assert(w@.selected =~= Seq::<GroupView>::empty());
                (w, Action::AskContinue)
            },
            Some(assignment) => {
                proof {
                    assert(assignment_views(assignments@.push(assignment)) =~= assignment_views(
                        assignments@,
                    ).push(assignment@));
                    assert(group_views(left@).len() == left.len());
                }
                assignments.push(assignment);
                let over = left.len() == 0;
                let w = Workflow {
                    phase: if over {
                        Phase::Done
                    } else {
                        Phase::Pooling
                    },
                    pool: left,
                    selected: Vec::new(),
                    project: None,
                    task: None,
                    assignments,
                    prefs,
                };
                assert(w@.selected =~= Seq::<GroupView>::empty());
                if over {
                    (w, Action::Finish)
                } else {
                    (w, Action::AskContinue)
                }
            },
        }
    }

    /// Takes what the user answered and says what is to be done next. An
    /// event that does not belong to the phase changes nothing.
    pub fn step(self, event: Event) -> (r: (Workflow, Action))
        ensures
            (r.0@, r.1) == next(self@, event@),
            coherent(self@) ==> coherent(r.0@),
    {
        proof {
            if coherent(self@) {
                lemma_next_coherent(self@, event@);
            }
        }
        match event {
            Event::ContinueAnswered(more) => {
                if self.phase == Phase::Pooling {
                    let phase = if more {
                        Phase::SelectingGroups
                    } else {
                        Phase::Done
                    };
                    let w = Workflow { phase, ..self };
                    if more {
                        (w, Action::AskGroups)
                    } else {
                        (w, Action::Finish)
                    }
                } else {
                    (self, Action::Ignore)
                }
            },
            Event::GroupsChosen(places) => {
                if self.phase == Phase::SelectingGroups {
                    match process_selected_groups(&self.pool, &places) {
                        Ok(groups) => (
                            Workflow { phase: Phase::SelectingProject, selected: groups, ..self },
                            Action::AskProject,
                        ),
                        Err(_) => (Workflow { phase: Phase::Done, ..self }, Action::Finish),
                    }
                } else {
                    (self, Action::Ignore)
                }
            },
            Event::ProjectChosen(choice) => {
                if self.phase == Phase::SelectingProject {
                    match choice {
                        Some(p) => (
                            Workflow { phase: Phase::SelectingTask, project: Some(p), ..self },
                            Action::AskTask,
                        ),
                        None => self.give_up(),
                    }
                } else {
                    (self, Action::Ignore)
                }
            },
            Event::TaskChosen(choice) => {
                if self.phase == Phase::SelectingTask {
                    match choice {
                        Some(t) => (
                            Workflow { phase: Phase::EnteringSummary, task: Some(t), ..self },
                            Action::AskSummary,
                        ),
                        None => self.give_up(),
                    }
                } else {
                    (self, Action::Ignore)
                }
            },
            Event::SummaryEntered(text) => {
                if self.phase == Phase::EnteringSummary {
                    if is_filled(text.as_str()) {
                        self.record(text)
                    } else {
                        (self, Action::AskSummary)
                    }
                } else {
                    (self, Action::Ignore)
                }
            },
        }
    }
}

} // verus!
