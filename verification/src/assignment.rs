//! Binding groups of intervals to a task, and turning the binding into the
//! records that the service takes: one for each day.

use crate::calendar::{day_text, write_day, ISO_DAY};
use crate::celoxis::{
    record_views, CeloxisProject, CeloxisTask, CeloxisTimeEntry, ProjectView, RecordView,
    TaskView, UserPreferences,
};
use crate::durations::{
    hundredths, insert_day, is_rising, lemma_rising_holds, minutes_on, rising, sorted_days,
    to_hundredths,
};
use crate::grouping::{group_views, GroupView, GroupedEntry};
use crate::tagkey::same_key;
use crate::text::texts;
use std::collections::HashMap;
use vstd::prelude::*;

verus! {

/// Groups of intervals bound to one task of one project.
#[derive(Debug)]
pub struct TaskAssignment {
    /// The groups that the binding consumed.
    pub groups: Vec<GroupedEntry>,
    /// The minutes of all the groups together, day by day.
    pub total_duration: HashMap<i32, i64>,
    pub celoxis_project: CeloxisProject,
    pub celoxis_task: CeloxisTask,
    pub summary: String,
    pub time_code: String,
    pub user: String,
}

/// What a `TaskAssignment` holds.
pub struct AssignmentView {
    pub groups: Seq<GroupView>,
    pub total_duration: Map<i32, i64>,
    pub celoxis_project: ProjectView,
    pub celoxis_task: TaskView,
    pub summary: Seq<char>,
    pub time_code: Seq<char>,
    pub user: Seq<char>,
}

impl View for TaskAssignment {
    type V = AssignmentView;

    open spec fn view(&self) -> AssignmentView {
        AssignmentView {
            groups: group_views(self.groups@),
            total_duration: self.total_duration@,
            celoxis_project: self.celoxis_project@,
            celoxis_task: self.celoxis_task@,
            summary: self.summary@,
            time_code: self.time_code@,
            user: self.user@,
        }
    }
}

/// The views of a sequence of assignments.
pub open spec fn assignment_views(v: Seq<TaskAssignment>) -> Seq<AssignmentView> {
    v.map_values(|a: TaskAssignment| a@)
}

/// The minutes that a group holds for `day`; none where it has no such day.
pub open spec fn day_minutes(g: GroupView, day: i32) -> int {
    if g.total_duration.contains_key(day) {
        g.total_duration[day] as int
    } else {
        0
    }
}

/// The minutes that the groups hold for `day`, taken together.
pub open spec fn merged_minutes(groups: Seq<GroupView>, day: i32) -> int
    decreases groups.len(),
{
    if groups.len() == 0 {
        0
    } else {
        merged_minutes(groups.drop_last(), day) + day_minutes(groups.last(), day)
    }
}

/// Whether one of the groups has the day `day`.
pub open spec fn some_has_day(groups: Seq<GroupView>, day: i32) -> bool {
    exists|g: int| 0 <= g < groups.len() && (#[trigger] groups[g]).total_duration.contains_key(day)
}

/// The minutes of the groups taken together: for each day that one of them
/// has, the sum of what they hold for it.
pub open spec fn merged(groups: Seq<GroupView>) -> Map<i32, i64> {
    Map::new(
        |day: i32| some_has_day(groups, day),
        |day: i32| merged_minutes(groups, day) as i64,
    )
}

/// Whether the sum for every day can be held in an `i64`.
pub open spec fn merge_fits(groups: Seq<GroupView>) -> bool {
    forall|day: i32| i64::MIN <= #[trigger] merged_minutes(groups, day) <= i64::MAX
}

/// The record that an assignment gives for one of its days.
pub open spec fn record_for(a: AssignmentView, day: i32) -> RecordView {
    RecordView {
        date: day_text(day, ISO_DAY@)->0,
        hours_hundredths: hundredths(a.total_duration[day] as int),
        time_code: a.time_code,
        user: a.user,
        task: a.celoxis_task.id,
        state: 0,
        comments: a.summary,
    }
}

/// Whether every day of the assignment can be written.
pub open spec fn days_writable(a: AssignmentView) -> bool {
    forall|day: i32|
        a.total_duration.contains_key(day) ==> (#[trigger] day_text(day, ISO_DAY@)) is Some
}

/// The records of an assignment: one for each of its days, in rising order
/// of the days.
pub open spec fn records_of(a: AssignmentView) -> Seq<RecordView> {
    rising(a.total_duration.dom()).map_values(|day: i32| record_for(a, day))
}

/// The groups of `pool` whose tags are not among `taken`, in their order.
pub open spec fn left_below(pool: Seq<GroupView>, taken: Seq<Seq<Seq<char>>>, n: nat) -> Seq<
    GroupView,
>
    decreases n,
{
    if n == 0 {
        Seq::empty()
    } else {
        let rest = left_below(pool, taken, (n - 1) as nat);
        if taken.contains(pool[n - 1].tags) {
            rest
        } else {
            rest.push(pool[n - 1])
        }
    }
}

/// The groups of `pool` whose tags are not among `taken`, in their order.
pub open spec fn left_over(pool: Seq<GroupView>, taken: Seq<Seq<Seq<char>>>) -> Seq<GroupView> {
    left_below(pool, taken, pool.len())
}

/// The tags of each group.
pub open spec fn tags_of_groups(groups: Seq<GroupView>) -> Seq<Seq<Seq<char>>> {
    groups.map_values(|g: GroupView| g.tags)
}

/// Where no group has a day, the groups hold no minutes for it.
pub proof fn lemma_absent_day(groups: Seq<GroupView>, day: i32)
    requires
        !some_has_day(groups, day),
    ensures
        merged_minutes(groups, day) == 0,
    decreases groups.len(),
{
    if groups.len() > 0 {
        let front = groups.drop_last();
        assert(!groups[groups.len() - 1].total_duration.contains_key(day));
        assert forall|g: int| 0 <= g < front.len() implies !(#[trigger] front[g]).total_duration.contains_key(
            day,
        ) by {
            assert(front[g] == groups[g]);
        }
        lemma_absent_day(front, day);
    }
}

/// Whether `keys` holds the tags `tags`.
pub fn holds_key(keys: &Vec<Vec<String>>, tags: &Vec<String>) -> (r: bool)
    ensures
        r == keys@.map_values(|k: Vec<String>| texts(k@)).contains(texts(tags@)),
{
    let ghost all = keys@.map_values(|k: Vec<String>| texts(k@));
    let mut i: usize = 0;
    while i < keys.len()
        invariant
            i <= keys.len(),
            all == keys@.map_values(|k: Vec<String>| texts(k@)),
            forall|j: int| 0 <= j < i ==> all[j] != texts(tags@),
        decreases keys.len() - i,
    {
        if same_key(&keys[i], tags) {
            assert(all[i as int] == texts(tags@));
            return true;
        }
        i += 1;
    }
    false
}

/// The days that one of the groups has, in rising order.
fn days_of_groups(groups: &Vec<GroupedEntry>) -> (r: Vec<i32>)
    ensures
        forall|i: int, j: int| 0 <= i < j < r.len() ==> r[i] < r[j],
        forall|day: i32| r@.contains(day) <==> some_has_day(group_views(groups@), day),
{
    broadcast use vstd::std_specs::hash::group_hash_axioms;

    let ghost gv = group_views(groups@);
    let mut days: Vec<i32> = Vec::new();
    let mut g: usize = 0;
    while g < groups.len()
        invariant
            g <= groups.len(),
            gv == group_views(groups@),
            forall|i: int, j: int| 0 <= i < j < days.len() ==> days[i] < days[j],
            forall|day: i32| days@.contains(day) <==> some_has_day(gv.take(g as int), day),
        decreases groups.len() - g,
    {
        let own = sorted_days(&groups[g].total_duration);
        let ghost dom = groups[g as int].total_duration@.dom();
        let ghost before = days@;
        proof {
            lemma_rising_holds(dom);
        }
        let mut k: usize = 0;
        while k < own.len()
            invariant
                k <= own.len(),
                is_rising(own@, dom),
                forall|i: int, j: int| 0 <= i < j < days.len() ==> days[i] < days[j],
                forall|day: i32|
                    days@.contains(day) <==> (before.contains(day) || own@.take(k as int).contains(
                        day,
                    )),
            decreases own.len() - k,
        {
            proof {
                let seen = own@.take(k as int);
                let next = own@.take(k + 1);
                assert(next =~= seen.push(own@[k as int]));
                assert forall|d: i32| next.contains(d) <==> (seen.contains(d) || d == own@[k as int]) by {
                    if seen.contains(d) {
                        let w = choose|w: int| 0 <= w < seen.len() && seen[w] == d;
                        assert(next[w] == d);
                    }
                    if d == own@[k as int] {
                        assert(next[k as int] == d);
                    }
                    if next.contains(d) && d != own@[k as int] {
                        let w = choose|w: int| 0 <= w < next.len() && next[w] == d;
                        assert(seen[w] == d);
                    }
                }
            }
            let ghost prior = days@;
            insert_day(&mut days, own[k]);
            proof {
                let seen = own@.take(k as int);
                let next = own@.take(k + 1);
                assert forall|d: i32|
                    days@.contains(d) <==> (before.contains(d) || next.contains(d)) by {
                    assert(days@.contains(d) <==> (prior.contains(d) || d == own@[k as int]));
                    assert(prior.contains(d) <==> (before.contains(d) || seen.contains(d)));
                    assert(next.contains(d) <==> (seen.contains(d) || d == own@[k as int]));
                }
            }
            k += 1;
        }
        proof {
            assert(own@.take(own.len() as int) =~= own@);
            let seen = gv.take(g as int);
            let next = gv.take(g + 1);
            assert(next =~= seen.push(gv[g as int]));
            assert(gv[g as int].total_duration == groups[g as int].total_duration@);
            assert forall|day: i32| days@.contains(day) <==> some_has_day(next, day) by {
                if some_has_day(next, day) {
                    let w = choose|w: int|
                        0 <= w < next.len() && (#[trigger] next[w]).total_duration.contains_key(day);
                    if w < g {
                        assert(seen[w] == next[w]);
                        assert(some_has_day(seen, day));
                    } else {
                        assert(dom.contains(day));
                    }
                }
                if before.contains(day) {
                    let w = choose|w: int|
                        0 <= w < seen.len() && (#[trigger] seen[w]).total_duration.contains_key(day);
                    assert(next[w] == seen[w]);
                }
                if own@.contains(day) {
                    assert(next[g as int].total_duration.contains_key(day));
                }
            }
        }
        g += 1;
    }
    assert(gv.take(groups.len() as int) =~= gv);
    days
}

/// The minutes that the groups hold for `day`, taken together.
fn minutes_of_day(groups: &Vec<GroupedEntry>, day: i32) -> (r: i128)
    ensures
        r == merged_minutes(group_views(groups@), day),
{
    let ghost gv = group_views(groups@);
    let mut sum: i128 = 0;
    let mut g: usize = 0;
    while g < groups.len()
        invariant
            g <= groups.len(),
            gv == group_views(groups@),
            sum == merged_minutes(gv.take(g as int), day),
            -(g as int) * 0x8000_0000_0000_0000 <= sum <= g as int * 0x8000_0000_0000_0000,
        decreases groups.len() - g,
    {
        proof {
            assert(gv.take(g + 1).drop_last() =~= gv.take(g as int));
            assert(gv[g as int].total_duration == groups[g as int].total_duration@);
        }
        let minutes = match minutes_on(&groups[g].total_duration, day) {
            Some(minutes) => minutes,
            None => 0,
        };
        sum = sum + minutes as i128;
        g += 1;
    }
    assert(gv.take(groups.len() as int) =~= gv);
    sum
}

/// The minutes of the groups taken together, day by day: `None` exactly
/// where the sum for some day cannot be held in an `i64`.
pub fn merge_durations(groups: &Vec<GroupedEntry>) -> (r: Option<HashMap<i32, i64>>)
    ensures
        r is Some <==> merge_fits(group_views(groups@)),
        r matches Some(m) ==> m@ == merged(group_views(groups@)),
{
    broadcast use vstd::std_specs::hash::group_hash_axioms;

    let ghost gv = group_views(groups@);
    let days = days_of_groups(groups);
    let mut total: HashMap<i32, i64> = HashMap::new();
    let mut k: usize = 0;
    while k < days.len()
        invariant
            k <= days.len(),
            gv == group_views(groups@),
            forall|day: i32| days@.contains(day) <==> some_has_day(gv, day),
            forall|day: i32| total@.contains_key(day) <==> days@.take(k as int).contains(day),
            forall|day: i32|
                total@.contains_key(day) ==> #[trigger] total@[day] == merged_minutes(gv, day),
        decreases days.len() - k,
    {
        let day = days[k];
        let sum = minutes_of_day(groups, day);
        if sum < i64::MIN as i128 || sum > i64::MAX as i128 {
            assert(!(i64::MIN <= merged_minutes(gv, day) <= i64::MAX));
            return None;
        }
        proof {
            let seen = days@.take(k as int);
            let next = days@.take(k + 1);
            assert(next =~= seen.push(day));
            assert forall|d: i32| next.contains(d) <==> (seen.contains(d) || d == day) by {
                if seen.contains(d) {
                    let w = choose|w: int| 0 <= w < seen.len() && seen[w] == d;
                    assert(next[w] == d);
                }
                if d == day {
                    assert(next[k as int] == d);
                }
                if next.contains(d) && d != day {
                    let w = choose|w: int| 0 <= w < next.len() && next[w] == d;
                    assert(seen[w] == d);
                }
            }
        }
        total.insert(day, sum as i64);
        k += 1;
    }
    proof {
        assert(days@.take(days.len() as int) =~= days@);
        assert forall|day: i32| i64::MIN <= #[trigger] merged_minutes(gv, day) <= i64::MAX by {
            if some_has_day(gv, day) {
                assert(total@.contains_key(day));
                assert(total@[day] == merged_minutes(gv, day));
            } else {
                lemma_absent_day(gv, day);
            }
        }
        assert(total@ =~= merged(gv));
    }
    Some(total)
}

/// Why groups cannot be bound to a task.
#[derive(Debug, Clone, Copy, PartialEq, Eq, Structural)]
pub enum SelectionError {
    /// No group was chosen.
    NoGroupsSelected,
}

/// The groups of `pool` at the first `n` of the indices `chosen`, in the
/// order of the indices; an index beyond the pool chooses nothing.
pub open spec fn picked_below(pool: Seq<GroupView>, chosen: Seq<usize>, n: nat) -> Seq<GroupView>
    decreases n,
{
    if n == 0 {
        Seq::empty()
    } else {
        let rest = picked_below(pool, chosen, (n - 1) as nat);
        if chosen[n - 1] < pool.len() {
            rest.push(pool[chosen[n - 1] as int])
        } else {
            rest
        }
    }
}

/// The groups of `pool` at the indices `chosen`.
pub open spec fn picked(pool: Seq<GroupView>, chosen: Seq<usize>) -> Seq<GroupView> {
    picked_below(pool, chosen, chosen.len())
}

/// Copies the groups that were chosen from the pool. Choosing none is an
/// error.
pub fn process_selected_groups(pool: &Vec<GroupedEntry>, chosen: &Vec<usize>) -> (r: Result<
    Vec<GroupedEntry>,
    SelectionError,
>)
    ensures
        match r {
            Ok(groups) => group_views(groups@).len() > 0 && group_views(groups@) == picked(
                group_views(pool@),
                chosen@,
            ),
            Err(e) => picked(group_views(pool@), chosen@).len() == 0 && e
                == SelectionError::NoGroupsSelected,
        },
{
    let ghost pv = group_views(pool@);
    let mut out: Vec<GroupedEntry> = Vec::new();
    let mut i: usize = 0;
    assert(group_views(out@) =~= picked_below(pv, chosen@, 0));
    while i < chosen.len()
        invariant
            i <= chosen.len(),
            pv == group_views(pool@),
            group_views(out@) == picked_below(pv, chosen@, i as nat),
        decreases chosen.len() - i,
    {
        if chosen[i] < pool.len() {
            let copy = pool[chosen[i]].clone();
            assert(group_views(out@.push(copy)) =~= group_views(out@).push(copy@));
            out.push(copy);
        }
        i += 1;
    }
    assert(group_views(out@).len() == out.len());
    if out.len() == 0 {
        Err(SelectionError::NoGroupsSelected)
    } else {
        Ok(out)
    }
}

/// The tags of each group, copied.
pub fn tags_of(groups: &Vec<GroupedEntry>) -> (r: Vec<Vec<String>>)
    ensures
        r@.map_values(|k: Vec<String>| texts(k@)) == tags_of_groups(group_views(groups@)),
{
    let mut out: Vec<Vec<String>> = Vec::new();
    let mut i: usize = 0;
    while i < groups.len()
        invariant
            i <= groups.len(),
            out.len() == i,
            forall|k: int| 0 <= k < i ==> texts((#[trigger] out[k])@) == texts(groups[k].tags@),
        decreases groups.len() - i,
    {
        out.push(crate::entry::clone_texts(&groups[i].tags));
        i += 1;
    }
    assert(out@.map_values(|k: Vec<String>| texts(k@)) =~= tags_of_groups(group_views(groups@)));
    out
}

/// Takes from the pool every group whose tags are among `taken`, and hands
/// back the rest in their order.
pub fn remove_groups(pool: &Vec<GroupedEntry>, taken: &Vec<Vec<String>>) -> (r: Vec<GroupedEntry>)
    ensures
        group_views(r@) == left_over(
            group_views(pool@),
            taken@.map_values(|k: Vec<String>| texts(k@)),
        ),
{
    let ghost pv = group_views(pool@);
    let ghost tv = taken@.map_values(|k: Vec<String>| texts(k@));
    let mut out: Vec<GroupedEntry> = Vec::new();
    let mut i: usize = 0;
    assert(group_views(out@) =~= left_below(pv, tv, 0));
    while i < pool.len()
        invariant
            i <= pool.len(),
            pv == group_views(pool@),
            tv == taken@.map_values(|k: Vec<String>| texts(k@)),
            group_views(out@) == left_below(pv, tv, i as nat),
        decreases pool.len() - i,
    {
        if !holds_key(taken, &pool[i].tags) {
            let copy = pool[i].clone();
            assert(group_views(out@.push(copy)) =~= group_views(out@).push(copy@));
            out.push(copy);
        }
        i += 1;
    }
    out
}

impl TaskAssignment {
    /// Binds the groups to a task of a project, with a summary of the work,
    /// to be booked under the user and the time code of the preferences. The
    /// minutes of the groups are added up day by day; `None` exactly where
    /// the sum for some day cannot be held in an `i64`.
    pub fn record(
        groups: Vec<GroupedEntry>,
        project: CeloxisProject,
        task: CeloxisTask,
        summary: String,
        prefs: &UserPreferences,
    ) -> (r: Option<TaskAssignment>)
        ensures
            r is Some <==> merge_fits(group_views(groups@)),
            r matches Some(a) ==> a@ == (AssignmentView {
                groups: group_views(groups@),
                total_duration: merged(group_views(groups@)),
                celoxis_project: project@,
                celoxis_task: task@,
                summary: summary@,
                time_code: prefs@.time_code,
                user: prefs@.username,
            }),
    {
        match merge_durations(&groups) {
            None => None,
            Some(total_duration) => Some(
                TaskAssignment {
                    groups,
                    total_duration,
                    celoxis_project: project,
                    celoxis_task: task,
                    summary,
                    time_code: prefs.time_code.clone(),
                    user: prefs.username.clone(),
                },
            ),
        }
    }

    /// The records that the service takes for this assignment: one for each
    /// day, in rising order of the days, the minutes of the day turned into
    /// hundredths of an hour. `None` exactly where a day cannot be written.
    pub fn to_celoxis_entries(&self) -> (r: Option<Vec<CeloxisTimeEntry>>)
        ensures
            r is Some <==> days_writable(self@),
            r matches Some(records) ==> record_views(records@) == records_of(self@),
    {
        broadcast use vstd::std_specs::hash::group_hash_axioms;

        let days = sorted_days(&self.total_duration);
        let ghost dom = self.total_duration@.dom();
        proof {
            lemma_rising_holds(dom);
        }
        let mut out: Vec<CeloxisTimeEntry> = Vec::new();
        let mut i: usize = 0;
        while i < days.len()
            invariant
                i <= days.len(),
                days@ == rising(dom),
                dom == self.total_duration@.dom(),
                is_rising(days@, dom),
                out.len() == i,
                forall|k: int| 0 <= k < i ==> (#[trigger] out[k])@ == record_for(self@, days[k]),
                forall|k: int| 0 <= k < i ==> (#[trigger] day_text(days[k], ISO_DAY@)) is Some,
            decreases days.len() - i,
        {
            let day = days[i];
            assert(days@.contains(days@[i as int]));
            let date = match write_day(day, ISO_DAY) {
                Some(date) => date,
                None => {
                    assert(self@.total_duration.contains_key(day));
                    return None;
                },
            };
            let minutes = match minutes_on(&self.total_duration, day) {
                Some(minutes) => minutes,
                None => 0,
            };
            out.push(
                CeloxisTimeEntry {
                    date,
                    hours_hundredths: to_hundredths(minutes),
                    time_code: self.time_code.clone(),
                    user: self.user.clone(),
                    task: self.celoxis_task.id.clone(),
                    state: 0,
                    comments: self.summary.clone(),
                },
            );
            i += 1;
        }
        proof {
            assert(record_views(out@) =~= records_of(self@));
            assert forall|day: i32| self@.total_duration.contains_key(day) implies (#[trigger] day_text(
                day,
                ISO_DAY@,
            )) is Some by {
                assert(days@.contains(day));
                let k = choose|k: int| 0 <= k < days@.len() && days@[k] == day;
                assert(day_text(days[k], ISO_DAY@) is Some);
            }
        }
        Some(out)
    }
}

} // verus!
