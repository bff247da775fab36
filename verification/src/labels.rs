//! What the user is shown to choose from, and what the choice stands for.
//!
//! A menu is a list of labels. The user hands back labels; the place of a
//! label in the list says which group, project or task was meant.

use crate::celoxis::{task_views, CeloxisProject, CeloxisTask, TaskView};
use crate::durations::{hundredths, map_total, total_of};
use crate::grouping::{GroupView, GroupedEntry};
use crate::tagkey::{str_le, text_le};
use crate::text::{
    decimal, decimal_text, digit_char, first_index_of, from_chars, has_prefix, index_of_text,
    occurs_in_range, texts, to_chars, trim,
};
use vstd::prelude::*;
use vstd::string::StringExecFns;

verus! {

/// `s` in lower case, as `str::to_lowercase` gives it.
pub uninterp spec fn lowercase(s: Seq<char>) -> Seq<char>;

/// What `{:?}` writes for a list of texts.
pub uninterp spec fn debug_list(items: Seq<Seq<char>>) -> Seq<char>;

/// Calls `str::to_lowercase`. The contract only names the outcome.
#[verifier::external_body]
pub(crate) fn to_lower(s: &str) -> (r: String)
    ensures
        r@ == lowercase(s@),
{
    s.to_lowercase()
}

/// Writes a list of texts with `{:?}`. The contract only names the outcome.
#[verifier::external_body]
pub(crate) fn debug_text(items: &Vec<String>) -> (r: String)
    ensures
        r@ == debug_list(texts(items@)),
{
    format!("{:?}", items)
}

/// `s` without `prefix` at its beginning, as often as it stands there.
pub open spec fn strip_all(s: Seq<char>, prefix: Seq<char>) -> Seq<char>
    decreases s.len(),
{
    if prefix.len() > 0 && has_prefix(s, prefix) {
        strip_all(s.skip(prefix.len() as int), prefix)
    } else {
        s
    }
}

/// What the tags say of the work and of its project.
pub struct TagSummary {
    pub description: Option<Seq<char>>,
    pub project: Option<Seq<char>>,
}

/// What the first `n` tags say: a tag that begins with `description:` names
/// the work, one that begins with `project:` the project; a later tag
/// overrides an earlier one.
pub open spec fn summary_below(tags: Seq<Seq<char>>, n: nat) -> TagSummary
    decreases n,
{
    if n == 0 {
        TagSummary { description: None, project: None }
    } else {
        let rest = summary_below(tags, (n - 1) as nat);
        let tag = tags[n - 1];
        if has_prefix(tag, "description:"@) {
            TagSummary { description: Some(strip_all(tag, "description:"@)), ..rest }
        } else if has_prefix(tag, "project:"@) {
            TagSummary { project: Some(strip_all(tag, "project:"@)), ..rest }
        } else {
            rest
        }
    }
}

/// How a group is named to the user.
pub open spec fn display_info(tags: Seq<Seq<char>>) -> Seq<char> {
    let summary = summary_below(tags, tags.len());
    match (summary.description, summary.project) {
        (Some(d), Some(p)) => trim(d) + " (Project: "@ + trim(p) + ")"@,
        (Some(d), None) => trim(d),
        (None, Some(p)) => "Project: "@ + trim(p),
        (None, None) => "Tags: "@ + debug_list(tags),
    }
}

/// A number of minutes as hours with two decimals.
pub open spec fn hours_text(minutes: int) -> Seq<char> {
    let h = hundredths(minutes);
    let size = if h < 0 {
        -h
    } else {
        h
    };
    let sign = if h < 0 {
        "-"@
    } else {
        Seq::empty()
    };
    sign + decimal((size / 100) as nat) + "."@ + seq![
        digit_char(size / 10 % 10),
        digit_char(size % 10),
    ]
}

/// The label of the group at index `index` of the pool.
pub open spec fn group_label_of(index: nat, g: GroupView) -> Seq<char> {
    "Group "@ + decimal(index + 1) + " - "@ + display_info(g.tags) + " - Total: "@ + hours_text(
        map_total(g.total_duration),
    ) + "h "@ + if g.all_submitted {
        "[Submitted]"@
    } else {
        Seq::empty()
    }
}

/// The label of a project or of a task.
pub open spec fn item_label(id: Seq<char>, name: Seq<char>) -> Seq<char> {
    id + " - "@ + name
}

/// The places in `labels` of the first `n` of `selections`, in their order;
/// a selection that is no label has no place.
pub open spec fn places_below(labels: Seq<Seq<char>>, selections: Seq<Seq<char>>, n: nat) -> Seq<
    usize,
>
    decreases n,
{
    if n == 0 {
        Seq::empty()
    } else {
        let rest = places_below(labels, selections, (n - 1) as nat);
        match first_index_of(labels, selections[n - 1]) {
            Some(i) => rest.push(i as usize),
            None => rest,
        }
    }
}

/// The name of a task, in lower case.
pub open spec fn sort_key(t: TaskView) -> Seq<char> {
    lowercase(t.name)
}

/// `list` with `t` behind the last task that does not come after it.
pub open spec fn insert_task(list: Seq<TaskView>, t: TaskView) -> Seq<TaskView>
    decreases list.len(),
{
    if list.len() == 0 {
        seq![t]
    } else if text_le(sort_key(list.last()), sort_key(t)) {
        list.push(t)
    } else {
        insert_task(list.drop_last(), t).push(list.last())
    }
}

/// The tasks in the order of their names in lower case; tasks of the same
/// name stay in the order in which they came.
pub open spec fn sorted_tasks(tasks: Seq<TaskView>) -> Seq<TaskView>
    decreases tasks.len(),
{
    if tasks.len() == 0 {
        Seq::empty()
    } else {
        insert_task(sorted_tasks(tasks.drop_last()), tasks.last())
    }
}

/// Whether the tasks stand in the order of their names in lower case.
pub open spec fn in_name_order(tasks: Seq<TaskView>) -> bool {
    forall|i: int, j: int|
        0 <= i < j < tasks.len() ==> text_le(sort_key(#[trigger] tasks[i]), sort_key(#[trigger] tasks[j]))
}

/// Inserting keeps the order and adds the one task.
pub proof fn lemma_insert_task(list: Seq<TaskView>, t: TaskView)
    requires
        in_name_order(list),
    ensures
        in_name_order(insert_task(list, t)),
        insert_task(list, t).to_multiset() == list.to_multiset().insert(t),
        insert_task(list, t).len() == list.len() + 1,
        forall|x: TaskView| insert_task(list, t).contains(x) ==> x == t || list.contains(x),
    decreases list.len(),
{
    broadcast use vstd::seq_lib::group_to_multiset_ensures;

    let after = insert_task(list, t);
    if list.len() == 0 {
        assert(after =~= Seq::<TaskView>::empty().push(t));
        assert(list =~= Seq::<TaskView>::empty());
    } else if text_le(sort_key(list.last()), sort_key(t)) {
        assert forall|i: int, j: int| 0 <= i < j < after.len() implies text_le(
            sort_key(#[trigger] after[i]),
            sort_key(#[trigger] after[j]),
        ) by {
            if j == list.len() {
                if i < list.len() - 1 {
                    assert(text_le(sort_key(list[i]), sort_key(list[list.len() - 1])));
                    crate::tagkey::lemma_text_le_transitive(
                        sort_key(list[i]),
                        sort_key(list.last()),
                        sort_key(t),
                    );
                }
            } else {
                assert(text_le(sort_key(list[i]), sort_key(list[j])));
            }
        }
        assert forall|x: TaskView| after.contains(x) implies x == t || list.contains(x) by {
            let k = choose|k: int| 0 <= k < after.len() && after[k] == x;
            if k < list.len() {
                assert(list[k] == x);
            }
        }
    } else {
        let front = list.drop_last();
        let last = list.last();
        assert forall|i: int, j: int| 0 <= i < j < front.len() implies text_le(
            sort_key(#[trigger] front[i]),
            sort_key(#[trigger] front[j]),
        ) by {
            assert(text_le(sort_key(list[i]), sort_key(list[j])));
        }
        lemma_insert_task(front, t);
        let mid = insert_task(front, t);
        crate::tagkey::lemma_text_le_total(sort_key(last), sort_key(t));
        assert forall|i: int, j: int| 0 <= i < j < after.len() implies text_le(
            sort_key(#[trigger] after[i]),
            sort_key(#[trigger] after[j]),
        ) by {
            if j == mid.len() {
                assert(mid.contains(mid[i]));
                if mid[i] != t {
                    assert(front.contains(mid[i]));
                    let k = choose|k: int| 0 <= k < front.len() && front[k] == mid[i];
                    assert(text_le(sort_key(list[k]), sort_key(list[list.len() - 1])));
                }
            } else {
                assert(text_le(sort_key(mid[i]), sort_key(mid[j])));
            }
        }
        assert(list =~= front.push(last));
        assert forall|x: TaskView| after.contains(x) implies x == t || list.contains(x) by {
            let k = choose|k: int| 0 <= k < after.len() && after[k] == x;
            if k < mid.len() {
                assert(mid[k] == x);
                assert(mid.contains(x));
                if x != t {
                    assert(front.contains(x));
                    let w = choose|w: int| 0 <= w < front.len() && front[w] == x;
                    assert(list[w] == x);
                }
            } else {
                assert(list[list.len() - 1] == x);
            }
        }
        assert(after.to_multiset() =~= list.to_multiset().insert(t));
    }
}

/// The sorted tasks stand in the order of their names and are the tasks that
/// came, each as often as it came.
pub proof fn lemma_sorted_tasks(tasks: Seq<TaskView>)
    ensures
        in_name_order(sorted_tasks(tasks)),
        sorted_tasks(tasks).to_multiset() == tasks.to_multiset(),
        sorted_tasks(tasks).len() == tasks.len(),
    decreases tasks.len(),
{
    broadcast use vstd::seq_lib::group_to_multiset_ensures;

    if tasks.len() == 0 {
        assert(sorted_tasks(tasks) =~= tasks);
    } else {
        lemma_sorted_tasks(tasks.drop_last());
        lemma_insert_task(sorted_tasks(tasks.drop_last()), tasks.last());
        assert(tasks =~= tasks.drop_last().push(tasks.last()));
    }
}

/// Inserting behind the last task that does not come after `t` is inserting
/// at the index up to which the tasks from the end come after `t`.
pub proof fn lemma_insert_at(list: Seq<TaskView>, t: TaskView, p: int)
    requires
        0 <= p <= list.len(),
        forall|k: int| p <= k < list.len() ==> !text_le(sort_key(#[trigger] list[k]), sort_key(t)),
        p > 0 ==> text_le(sort_key(list[p - 1]), sort_key(t)),
    ensures
        insert_task(list, t) == list.insert(p, t),
    decreases list.len(),
{
    if list.len() == 0 {
        assert(list.insert(p, t) =~= seq![t]);
    } else if p == list.len() {
        assert(list.insert(p, t) =~= list.push(t));
    } else {
        assert(!text_le(sort_key(list[list.len() - 1]), sort_key(t)));
        let front = list.drop_last();
        assert forall|k: int| p <= k < front.len() implies !text_le(
            sort_key(#[trigger] front[k]),
            sort_key(t),
        ) by {
            assert(front[k] == list[k]);
        }
        lemma_insert_at(front, t, p);
        assert(list.insert(p, t) =~= front.insert(p, t).push(list.last()));
    }
}

/// `s` without `prefix` at its beginning, as often as it stands there.
pub fn strip_prefixes(s: &str, prefix: &str) -> (r: String)
    ensures
        r@ == strip_all(s@, prefix@),
{
    let v = to_chars(s);
    let pat = to_chars(prefix);
    let n = v.len();
    let mut at: usize = 0;
    assert(v@.skip(0) =~= v@);
    while pat.len() > 0 && pat.len() <= n - at && occurs_in_range(&v, at, n, &pat, at)
        invariant
            at <= n,
            n == v.len(),
            pat@ == prefix@,
            v@ == s@,
            strip_all(s@, prefix@) == strip_all(v@.skip(at as int), prefix@),
        decreases n - at,
    {
        proof {
            assert(v@.subrange(at as int, n as int) =~= v@.skip(at as int));
            assert(v@.skip(at as int).skip(pat.len() as int) =~= v@.skip(at + pat.len()));
        }
        at += pat.len();
    }
    proof {
        assert(v@.subrange(at as int, n as int) =~= v@.skip(at as int));
    }
    from_chars(&v, at, n)
}

/// Whether `s` begins with `prefix`.
pub fn starts_with(s: &str, prefix: &str) -> (r: bool)
    ensures
        r == has_prefix(s@, prefix@),
{
    let v = to_chars(s);
    let pat = to_chars(prefix);
    assert(v@.subrange(0, v.len() as int) =~= v@);
    occurs_in_range(&v, 0, v.len(), &pat, 0)
}

/// `s` without its leading and trailing white space.
fn trim_text(s: &String) -> (r: String)
    ensures
        r@ == trim(s@),
{
    crate::text::trimmed(s.as_str())
}

/// How a group of the tags `tags` is named to the user.
pub fn describe_tags(tags: &Vec<String>) -> (r: String)
    ensures
        r@ == display_info(texts(tags@)),
{
    let ghost tv = texts(tags@);
    let mut description: Option<String> = None;
    let mut project: Option<String> = None;
    let mut i: usize = 0;
    while i < tags.len()
        invariant
            i <= tags.len(),
            tv == texts(tags@),
            crate::entry::opt_text(description) == summary_below(tv, i as nat).description,
            crate::entry::opt_text(project) == summary_below(tv, i as nat).project,
        decreases tags.len() - i,
    {
        let tag = tags[i].as_str();
        if starts_with(tag, "description:") {
            description = Some(strip_prefixes(tag, "description:"));
        } else if starts_with(tag, "project:") {
            project = Some(strip_prefixes(tag, "project:"));
        }
        i += 1;
    }
    match (description, project) {
        (Some(d), Some(p)) => {
            let mut out = trim_text(&d);
            out.append(" (Project: ");
            out.append(trim_text(&p).as_str());
            out.append(")");
            out
        },
        (Some(d), None) => trim_text(&d),
        (None, Some(p)) => {
            let mut out = "Project: ".to_owned();
            out.append(trim_text(&p).as_str());
            out
        },
        (None, None) => {
            let mut out = "Tags: ".to_owned();
            out.append(debug_text(tags).as_str());
            out
        },
    }
}

/// Writes a number of minutes as hours with two decimals.
pub fn format_hours(minutes: i128) -> (r: String)
    requires
        -0x8000_0000_0000_0000_0000_0000 <= minutes <= 0x8000_0000_0000_0000_0000_0000,
    ensures
        r@ == hours_text(minutes as int),
{
    let scaled: i128 = minutes * 100;
    let h: i128 = if scaled >= 0 {
        (2 * scaled + 60) / 120
    } else {
        let flipped: i128 = -scaled;
        -((2 * flipped + 60) / 120)
    };
    let size: u128 = if h < 0 {
        (-h) as u128
    } else {
        h as u128
    };
    let mut out = String::new();
    if h < 0 {
        out.append("-");
    }
    out.append(decimal_text(size / 100).as_str());
    out.append(".");
    out.push(((size / 10 % 10) as u8 + 0x30) as char);
    out.push(((size % 10) as u8 + 0x30) as char);
    proof {
        reveal_strlit("-");
        reveal_strlit(".");
        let sign = if h < 0 {
            "-"@
        } else {
            Seq::empty()
        };
        assert(out@ =~= sign + decimal((size / 100) as nat) + "."@ + seq![
            digit_char(size as int / 10 % 10),
            digit_char(size as int % 10),
        ]);
    }
    out
}

/// The label of the group at index `index` of the pool.
pub fn group_label(index: usize, group: &GroupedEntry) -> (r: String)
    ensures
        r@ == group_label_of(index as nat, group@),
{
    let mut out = "Group ".to_owned();
    out.append(decimal_text(index as u128 + 1).as_str());
    out.append(" - ");
    out.append(describe_tags(&group.tags).as_str());
    out.append(" - Total: ");
    out.append(format_hours(total_of(&group.total_duration)).as_str());
    out.append("h ");
    if group.all_submitted {
        out.append("[Submitted]");
    }
    assert(out@ =~= group_label_of(index as nat, group@));
    out
}

/// The labels of the groups of the pool, in their order.
pub fn group_labels(pool: &Vec<GroupedEntry>) -> (r: Vec<String>)
    ensures
        r.len() == pool.len(),
        forall|i: int| 0 <= i < r.len() ==> (#[trigger] r[i])@ == group_label_of(i as nat, pool[i]@),
{
    let mut out: Vec<String> = Vec::new();
    let mut i: usize = 0;
    while i < pool.len()
        invariant
            i <= pool.len(),
            out.len() == i,
            forall|k: int| 0 <= k < i ==> (#[trigger] out[k])@ == group_label_of(k as nat, pool[k]@),
        decreases pool.len() - i,
    {
        out.push(group_label(i, &pool[i]));
        i += 1;
    }
    out
}

/// The label of a project.
pub fn project_label(project: &CeloxisProject) -> (r: String)
    ensures
        r@ == item_label(project@.id, project@.name),
{
    let mut out = project.id.clone();
    out.append(" - ");
    out.append(project.name.as_str());
    out
}

/// The label of a task.
pub fn task_label(task: &CeloxisTask) -> (r: String)
    ensures
        r@ == item_label(task@.id, task@.name),
{
    let mut out = task.id.clone();
    out.append(" - ");
    out.append(task.name.as_str());
    out
}

/// The places in `labels` of the labels that the user handed back, in the
/// order in which they came. What is no label is passed over; of two equal
/// labels the first is meant.
pub fn selected_places(labels: &Vec<String>, selections: &Vec<String>) -> (r: Vec<usize>)
    ensures
        r@ == places_below(texts(labels@), texts(selections@), selections.len() as nat),
        forall|k: int| 0 <= k < r.len() ==> (#[trigger] r[k]) < labels.len(),
{
    let mut out: Vec<usize> = Vec::new();
    let mut i: usize = 0;
    while i < selections.len()
        invariant
            i <= selections.len(),
            out@ == places_below(texts(labels@), texts(selections@), i as nat),
            forall|k: int| 0 <= k < out.len() ==> (#[trigger] out[k]) < labels.len(),
        decreases selections.len() - i,
    {
        match index_of_text(labels, selections[i].as_str()) {
            Some(place) => {
                proof {
                    crate::text::lemma_first_index_found(texts(labels@), selections[i as int]@);
                }
                out.push(place);
            },
            None => {},
        }
        i += 1;
    }
    out
}

/// The tasks in the order of their names in lower case; tasks of the same
/// name stay in the order in which they came.
pub fn sort_tasks(tasks: &Vec<CeloxisTask>) -> (r: Vec<CeloxisTask>)
    ensures
        task_views(r@) == sorted_tasks(task_views(tasks@)),
        in_name_order(task_views(r@)),
        task_views(r@).to_multiset() == task_views(tasks@).to_multiset(),
{
    let ghost tv = task_views(tasks@);
    proof {
        lemma_sorted_tasks(tv);
    }
    let mut out: Vec<CeloxisTask> = Vec::new();
    let mut i: usize = 0;
    assert(task_views(out@) =~= sorted_tasks(tv.take(0)));
    while i < tasks.len()
        invariant
            i <= tasks.len(),
            tv == task_views(tasks@),
            task_views(out@) == sorted_tasks(tv.take(i as int)),
        decreases tasks.len() - i,
    {
        let key = to_lower(tasks[i].name.as_str());
        let ghost before = task_views(out@);
        let mut p: usize = out.len();
        while p > 0 && !str_le(to_lower(out[p - 1].name.as_str()).as_str(), key.as_str())
            invariant
                p <= out.len(),
                before == task_views(out@),
                key@ == sort_key(tv[i as int]),
                i < tasks.len(),
                forall|k: int|
                    p <= k < before.len() ==> !text_le(
                        sort_key(#[trigger] before[k]),
                        sort_key(tv[i as int]),
                    ),
            decreases p,
        {
            p -= 1;
        }
        let copy = tasks[i].clone();
        proof {
            lemma_insert_at(before, tv[i as int], p as int);
            assert(tv.take(i + 1).drop_last() =~= tv.take(i as int));
            assert(task_views(out@.insert(p as int, copy)) =~= before.insert(p as int, copy@));
        }
        out.insert(p, copy);
        i += 1;
    }
    assert(tv.take(tasks.len() as int) =~= tv);
    out
}

} // verus!
