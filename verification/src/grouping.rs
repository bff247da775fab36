//! Groups intervals by their sorted tags and, within a group, by calendar day.
//!
//! The intervals come with the day on which each of them counts, and with the
//! instant that stands in for the end of an interval that is still running.
//! A cell is what one group holds for one day: the intervals of that key and
//! day in the order of the input, and the sum of their whole minutes.

use crate::calendar::{clock_range, day_at_hand, local_day, utc_day, utc_now, Instant};
use crate::durations::insert_day;
use crate::entry::{entry_views, EntryView, TimeEntry};
use crate::tagkey::{same_key, sort_tags, sorted_tags};
use crate::text::texts;
use std::collections::HashMap;
use vstd::prelude::*;

verus! {

/// The intervals that share one key, day by day.
#[derive(Debug)]
pub struct GroupedEntry {
    /// The key of the group: the sorted tags of each of its intervals.
    pub tags: Vec<String>,
    /// The minutes tracked on each day.
    pub total_duration: HashMap<i32, i64>,
    /// The intervals that count on each day.
    pub entries: HashMap<i32, Vec<TimeEntry>>,
    /// Whether every interval of the group has been pushed upstream.
    pub all_submitted: bool,
}

/// What a `GroupedEntry` holds, as mathematical values.
pub struct GroupView {
    pub tags: Seq<Seq<char>>,
    pub total_duration: Map<i32, i64>,
    pub entries: Map<i32, Seq<EntryView>>,
    pub all_submitted: bool,
}

impl View for GroupedEntry {
    type V = GroupView;

    open spec fn view(&self) -> GroupView {
        GroupView {
            tags: texts(self.tags@),
            total_duration: self.total_duration@,
            entries: self.entries@.map_values(|v: Vec<TimeEntry>| entry_views(v@)),
            all_submitted: self.all_submitted,
        }
    }
}

impl Clone for GroupedEntry {
    fn clone(&self) -> (r: Self)
        ensures
            r@ == self@,
    {
        GroupedEntry {
            tags: crate::entry::clone_texts(&self.tags),
            total_duration: self.total_duration.clone(),
            entries: self.entries.clone(),
            all_submitted: self.all_submitted,
        }
    }
}

/// The views of a sequence of groups.
pub open spec fn group_views(v: Seq<GroupedEntry>) -> Seq<GroupView> {
    v.map_values(|g: GroupedEntry| g@)
}

/// The whole minutes in a number of nanoseconds, rounded toward zero.
pub open spec fn whole_minutes(nanos: int) -> int {
    if nanos >= 0 {
        nanos / 60_000_000_000
    } else {
        -((-nanos) / 60_000_000_000)
    }
}

/// The whole minutes from the start of `e` to its end, or to `now` while it
/// is still running.
pub open spec fn entry_minutes(e: EntryView, now: Instant) -> int {
    match e.end {
        Some(end) => whole_minutes(end.total_nanos() - e.start.total_nanos()),
        None => whole_minutes(now.total_nanos() - e.start.total_nanos()),
    }
}

/// The sum of the whole minutes of the intervals in `s`.
pub open spec fn total_minutes(s: Seq<EntryView>, now: Instant) -> int
    decreases s.len(),
{
    if s.len() == 0 {
        0
    } else {
        total_minutes(s.drop_last(), now) + entry_minutes(s.last(), now)
    }
}

/// The key under which `e` is grouped.
pub open spec fn entry_key(e: EntryView) -> Seq<Seq<char>> {
    sorted_tags(e.tags)
}

/// Whether the interval at index `i` has the key `key` and counts on `day`.
pub open spec fn in_cell(
    entries: Seq<EntryView>,
    days: Seq<i32>,
    key: Seq<Seq<char>>,
    day: i32,
    i: int,
) -> bool {
    0 <= i < entries.len() && entry_key(entries[i]) == key && days[i] == day
}

/// The indices below `n` of the intervals of one cell, in rising order.
pub open spec fn cell_indices_below(
    entries: Seq<EntryView>,
    days: Seq<i32>,
    key: Seq<Seq<char>>,
    day: i32,
    n: nat,
) -> Seq<int>
    decreases n,
{
    if n == 0 {
        Seq::empty()
    } else {
        let rest = cell_indices_below(entries, days, key, day, (n - 1) as nat);
        if in_cell(entries, days, key, day, n - 1) {
            rest.push(n - 1)
        } else {
            rest
        }
    }
}

/// The indices of the intervals of one cell, in rising order.
pub open spec fn cell_indices(
    entries: Seq<EntryView>,
    days: Seq<i32>,
    key: Seq<Seq<char>>,
    day: i32,
) -> Seq<int> {
    cell_indices_below(entries, days, key, day, entries.len())
}

/// The intervals of one cell, in the order of the input.
pub open spec fn cell_entries(
    entries: Seq<EntryView>,
    days: Seq<i32>,
    key: Seq<Seq<char>>,
    day: i32,
) -> Seq<EntryView> {
    cell_indices(entries, days, key, day).map_values(|i: int| entries[i])
}

/// The minutes of one cell.
pub open spec fn cell_minutes(
    entries: Seq<EntryView>,
    days: Seq<i32>,
    now: Instant,
    key: Seq<Seq<char>>,
    day: i32,
) -> int {
    total_minutes(cell_entries(entries, days, key, day), now)
}

/// Whether some interval has the key `key` and counts on `day`.
pub open spec fn cell_exists(
    entries: Seq<EntryView>,
    days: Seq<i32>,
    key: Seq<Seq<char>>,
    day: i32,
) -> bool {
    exists|i: int| in_cell(entries, days, key, day, i)
}

/// Whether every interval with the key `key` has been pushed upstream.
pub open spec fn key_submitted(entries: Seq<EntryView>, key: Seq<Seq<char>>) -> bool {
    forall|i: int| 0 <= i < entries.len() && entry_key(entries[i]) == key ==> entries[i].submitted
}

/// The group of the key `key`: one cell for each day on which an interval of
/// that key counts.
pub open spec fn group_of(
    entries: Seq<EntryView>,
    days: Seq<i32>,
    now: Instant,
    key: Seq<Seq<char>>,
) -> GroupView {
    GroupView {
        tags: key,
        total_duration: Map::new(
            |day: i32| cell_exists(entries, days, key, day),
            |day: i32| cell_minutes(entries, days, now, key, day) as i64,
        ),
        entries: Map::new(
            |day: i32| cell_exists(entries, days, key, day),
            |day: i32| cell_entries(entries, days, key, day),
        ),
        all_submitted: key_submitted(entries, key),
    }
}

/// The keys of the first `n` intervals, each once, in the order in which they
/// first occur.
pub open spec fn group_keys_below(entries: Seq<EntryView>, n: nat) -> Seq<Seq<Seq<char>>>
    decreases n,
{
    if n == 0 {
        Seq::empty()
    } else {
        let rest = group_keys_below(entries, (n - 1) as nat);
        let key = entry_key(entries[n - 1]);
        if rest.contains(key) {
            rest
        } else {
            rest.push(key)
        }
    }
}

/// The keys of the intervals, each once, in the order in which they first
/// occur.
pub open spec fn group_keys(entries: Seq<EntryView>) -> Seq<Seq<Seq<char>>> {
    group_keys_below(entries, entries.len())
}

/// The groups of the intervals: one for each key, in the order in which the
/// keys first occur.
pub open spec fn grouping(entries: Seq<EntryView>, days: Seq<i32>, now: Instant) -> Seq<GroupView> {
    group_keys(entries).map_values(|key: Seq<Seq<char>>| group_of(entries, days, now, key))
}

/// Whether the minutes of every cell of the key `key` can be held in an `i64`.
pub open spec fn key_fits(
    entries: Seq<EntryView>,
    days: Seq<i32>,
    now: Instant,
    key: Seq<Seq<char>>,
) -> bool {
    forall|day: i32|
        i64::MIN <= #[trigger] cell_minutes(entries, days, now, key, day) <= i64::MAX
}

/// Whether the minutes of every cell can be held in an `i64`.
pub open spec fn all_fit(entries: Seq<EntryView>, days: Seq<i32>, now: Instant) -> bool {
    forall|key: Seq<Seq<char>>| #[trigger] key_fits(entries, days, now, key)
}

/// Whether one of the first `n` intervals has the key `key` and counts on
/// `day`.
pub open spec fn cell_exists_below(
    entries: Seq<EntryView>,
    days: Seq<i32>,
    key: Seq<Seq<char>>,
    day: i32,
    n: int,
) -> bool {
    exists|i: int| i < n && in_cell(entries, days, key, day, i)
}

/// Whether `keys` holds, for each interval, the key under which it is grouped.
pub open spec fn keys_match(keys: Seq<Vec<String>>, entries: Seq<EntryView>) -> bool {
    &&& keys.len() == entries.len()
    &&& forall|i: int| 0 <= i < keys.len() ==> texts((#[trigger] keys[i])@) == entry_key(entries[i])
}

/// Every index of a cell is an index of an interval of that cell, and the
/// indices rise.
pub proof fn lemma_cell_indices(
    entries: Seq<EntryView>,
    days: Seq<i32>,
    key: Seq<Seq<char>>,
    day: i32,
    n: nat,
)
    requires
        n <= entries.len(),
    ensures
        forall|k: int|
            0 <= k < cell_indices_below(entries, days, key, day, n).len() ==> {
                let i = #[trigger] cell_indices_below(entries, days, key, day, n)[k];
                i < n && in_cell(entries, days, key, day, i)
            },
        forall|k: int, l: int|
            0 <= k < l < cell_indices_below(entries, days, key, day, n).len()
                ==> cell_indices_below(entries, days, key, day, n)[k] < cell_indices_below(
                entries,
                days,
                key,
                day,
                n,
            )[l],
        forall|i: int|
            i < n && in_cell(entries, days, key, day, i) ==> cell_indices_below(
                entries,
                days,
                key,
                day,
                n,
            ).contains(i),
    decreases n,
{
    if n > 0 {
        lemma_cell_indices(entries, days, key, day, (n - 1) as nat);
        let rest = cell_indices_below(entries, days, key, day, (n - 1) as nat);
        let all = cell_indices_below(entries, days, key, day, n);
        assert forall|i: int| i < n && in_cell(entries, days, key, day, i) implies all.contains(
            i,
        ) by {
            if i < n - 1 {
                let k = choose|k: int| 0 <= k < rest.len() && rest[k] == i;
                assert(all[k] == i);
            } else {
                assert(all[all.len() - 1] == i);
            }
        }
    }
}

/// A cell that no interval belongs to is empty and has no minutes.
pub proof fn lemma_absent_cell(
    entries: Seq<EntryView>,
    days: Seq<i32>,
    now: Instant,
    key: Seq<Seq<char>>,
    day: i32,
)
    requires
        !cell_exists(entries, days, key, day),
    ensures
        cell_entries(entries, days, key, day).len() == 0,
        cell_minutes(entries, days, now, key, day) == 0,
{
    lemma_cell_indices(entries, days, key, day, entries.len());
    let idx = cell_indices(entries, days, key, day);
    if idx.len() > 0 {
        assert(in_cell(entries, days, key, day, idx[0]));
    }
}

/// The keys of the groups are the keys of the intervals, each once.
pub proof fn lemma_group_keys(entries: Seq<EntryView>, n: nat)
    requires
        n <= entries.len(),
    ensures
        group_keys_below(entries, n).no_duplicates(),
        forall|key: Seq<Seq<char>>|
            group_keys_below(entries, n).contains(key) <==> exists|i: int|
                0 <= i < n && entry_key(#[trigger] entries[i]) == key,
    decreases n,
{
    if n > 0 {
        lemma_group_keys(entries, (n - 1) as nat);
        let rest = group_keys_below(entries, (n - 1) as nat);
        let all = group_keys_below(entries, n);
        let last = entry_key(entries[n - 1]);
        assert forall|key: Seq<Seq<char>>| all.contains(key) <==> exists|i: int|
            0 <= i < n && entry_key(#[trigger] entries[i]) == key by {
            if all.contains(key) {
                if rest.contains(key) {
                    let i = choose|i: int| 0 <= i < n - 1 && entry_key(#[trigger] entries[i]) == key;
                    assert(0 <= i < n && entry_key(entries[i]) == key);
                } else {
                    let k = choose|k: int| 0 <= k < all.len() && all[k] == key;
                    if k < rest.len() {
                        assert(rest[k] == key);
                    }
                    assert(key == last);
                    assert(entry_key(entries[n - 1]) == key);
                }
            }
            if exists|i: int| 0 <= i < n && entry_key(#[trigger] entries[i]) == key {
                let i = choose|i: int| 0 <= i < n && entry_key(#[trigger] entries[i]) == key;
                if i < n - 1 {
                    assert(rest.contains(key));
                    let k = choose|k: int| 0 <= k < rest.len() && rest[k] == key;
                    assert(all[k] == key);
                } else {
                    if rest.contains(key) {
                        let k = choose|k: int| 0 <= k < rest.len() && rest[k] == key;
                        assert(all[k] == key);
                    } else {
                        assert(all[all.len() - 1] == key);
                    }
                }
            }
        }
    }
}

/// The whole minutes of one interval.
pub fn minutes_of(entry: &TimeEntry, now: Instant) -> (r: i64)
    ensures
        r == entry_minutes(entry@, now),
{
    let end: Instant = match entry.end {
        Some(t) => t,
        None => now,
    };
    let secs: i128 = end.secs as i128 - entry.start.secs as i128;
    let span: i128 = secs * 1_000_000_000 + (end.nanos as i128 - entry.start.nanos as i128);
    if span >= 0 {
        (span / 60_000_000_000) as i64
    } else {
        -(((-span) / 60_000_000_000) as i64)
    }
}

/// The key of each interval.
pub fn keys_of(entries: &Vec<TimeEntry>) -> (keys: Vec<Vec<String>>)
    ensures
        keys_match(keys@, entry_views(entries@)),
{
    let mut keys: Vec<Vec<String>> = Vec::new();
    let mut i: usize = 0;
    while i < entries.len()
        invariant
            i <= entries.len(),
            keys.len() == i,
            forall|k: int|
                0 <= k < i ==> texts((#[trigger] keys[k])@) == entry_key(entry_views(entries@)[k]),
        decreases entries.len() - i,
    {
        keys.push(sort_tags(&entries[i].tags));
        i += 1;
    }
    keys
}

/// For each key, the index of the first interval that has it, in rising
/// order.
fn first_of_each_key(entries: &Vec<TimeEntry>, keys: &Vec<Vec<String>>) -> (firsts: Vec<usize>)
    requires
        keys_match(keys@, entry_views(entries@)),
    ensures
        firsts.len() == group_keys(entry_views(entries@)).len(),
        forall|j: int|
            0 <= j < firsts.len() ==> (#[trigger] firsts[j]) < entries.len() && entry_key(
                entry_views(entries@)[firsts[j] as int],
            ) == group_keys(entry_views(entries@))[j],
{
    let ghost ev = entry_views(entries@);
    let mut firsts: Vec<usize> = Vec::new();
    let mut i: usize = 0;
    while i < keys.len()
        invariant
            i <= keys.len(),
            ev == entry_views(entries@),
            keys_match(keys@, ev),
            firsts.len() == group_keys_below(ev, i as nat).len(),
            forall|j: int|
                0 <= j < firsts.len() ==> (#[trigger] firsts[j]) < entries.len() && entry_key(
                    ev[firsts[j] as int],
                ) == group_keys_below(ev, i as nat)[j],
        decreases keys.len() - i,
    {
        let ghost seen = group_keys_below(ev, i as nat);
        let mut j: usize = 0;
        let mut found = false;
        while j < firsts.len() && !found
            invariant
                j <= firsts.len(),
                i < keys.len(),
                ev == entry_views(entries@),
                keys_match(keys@, ev),
                seen == group_keys_below(ev, i as nat),
                firsts.len() == seen.len(),
                forall|k: int|
                    0 <= k < firsts.len() ==> (#[trigger] firsts[k]) < entries.len() && entry_key(
                        ev[firsts[k] as int],
                    ) == seen[k],
                found ==> seen.contains(entry_key(ev[i as int])),
                !found ==> forall|k: int| 0 <= k < j ==> seen[k] != entry_key(ev[i as int]),
            decreases firsts.len() - j + if found { 0int } else { 1int },
        {
            if same_key(&keys[firsts[j]], &keys[i]) {
                assert(seen[j as int] == entry_key(ev[i as int]));
                found = true;
            } else {
                j += 1;
            }
        }
        if !found {
            firsts.push(i);
        }
        i += 1;
    }
    firsts
}

/// An interval belongs to a cell among the first `n + 1` exactly where it
/// belongs to it among the first `n` or is the one at index `n`.
pub proof fn lemma_cell_exists_step(
    entries: Seq<EntryView>,
    days: Seq<i32>,
    key: Seq<Seq<char>>,
    day: i32,
    n: int,
)
    ensures
        cell_exists_below(entries, days, key, day, n + 1) <==> (cell_exists_below(
            entries,
            days,
            key,
            day,
            n,
        ) || in_cell(entries, days, key, day, n)),
{
    if cell_exists_below(entries, days, key, day, n + 1) {
        let w = choose|w: int| w < n + 1 && in_cell(entries, days, key, day, w);
        if w < n {
            assert(w < n && in_cell(entries, days, key, day, w));
        }
    }
    if cell_exists_below(entries, days, key, day, n) {
        let w = choose|w: int| w < n && in_cell(entries, days, key, day, w);
        assert(w < n + 1 && in_cell(entries, days, key, day, w));
    }
    if in_cell(entries, days, key, day, n) {
        assert(n < n + 1 && in_cell(entries, days, key, day, n));
    }
}

/// The days on which intervals of the key `key` count, in rising order, and
/// whether all intervals of that key have been pushed upstream.
fn days_of_key(
    entries: &Vec<TimeEntry>,
    keys: &Vec<Vec<String>>,
    days: &Vec<i32>,
    key: &Vec<String>,
) -> (r: (Vec<i32>, bool))
    requires
        keys_match(keys@, entry_views(entries@)),
        days.len() == entries.len(),
    ensures
        forall|day: i32|
            r.0@.contains(day) <==> cell_exists(entry_views(entries@), days@, texts(key@), day),
        r.1 == key_submitted(entry_views(entries@), texts(key@)),
{
    let ghost ev = entry_views(entries@);
    let ghost kt = texts(key@);
    let mut found: Vec<i32> = Vec::new();
    let mut all_submitted = true;
    let mut i: usize = 0;
    while i < entries.len()
        invariant
            i <= entries.len(),
            ev == entry_views(entries@),
            kt == texts(key@),
            keys_match(keys@, ev),
            days.len() == entries.len(),
            forall|a: int, b: int| 0 <= a < b < found.len() ==> found[a] < found[b],
            forall|day: i32| found@.contains(day) <==> cell_exists_below(ev, days@, kt, day, i as int),
            all_submitted == forall|k: int|
                0 <= k < i && entry_key(ev[k]) == kt ==> ev[k].submitted,
        decreases entries.len() - i,
    {
        let member = same_key(&keys[i], key);
        if member {
            if !entries[i].submitted {
                all_submitted = false;
            }
            insert_day(&mut found, days[i]);
        }
        proof {
            assert forall|d: i32| found@.contains(d) <==> cell_exists_below(
                ev,
                days@,
                kt,
                d,
                i + 1,
            ) by {
                lemma_cell_exists_step(ev, days@, kt, d, i as int);
                assert(in_cell(ev, days@, kt, d, i as int) <==> (member && d == days[i as int]));
            }
        }
        i += 1;
    }
    proof {
        assert forall|day: i32| found@.contains(day) <==> cell_exists(ev, days@, kt, day) by {
            if cell_exists(ev, days@, kt, day) {
                let w = choose|w: int| in_cell(ev, days@, kt, day, w);
                assert(w < entries.len() && in_cell(ev, days@, kt, day, w));
            }
            if found@.contains(day) {
                let w = choose|w: int| w < entries.len() && in_cell(ev, days@, kt, day, w);
                assert(in_cell(ev, days@, kt, day, w));
            }
        }
    }
    (found, all_submitted)
}

/// The intervals of one cell, copied in the order of the input, and the sum
/// of their minutes.
fn collect_cell(
    entries: &Vec<TimeEntry>,
    keys: &Vec<Vec<String>>,
    days: &Vec<i32>,
    now: Instant,
    key: &Vec<String>,
    day: i32,
) -> (r: (Vec<TimeEntry>, i128))
    requires
        keys_match(keys@, entry_views(entries@)),
        days.len() == entries.len(),
    ensures
        entry_views(r.0@) == cell_entries(entry_views(entries@), days@, texts(key@), day),
        r.1 == cell_minutes(entry_views(entries@), days@, now, texts(key@), day),
{
    let ghost ev = entry_views(entries@);
    let ghost kt = texts(key@);
    let mut cell: Vec<TimeEntry> = Vec::new();
    let mut sum: i128 = 0;
    let mut i: usize = 0;
    assert(entry_views(cell@) =~= cell_indices_below(ev, days@, kt, day, 0).map_values(
        |k: int| ev[k],
    ));
    while i < entries.len()
        invariant
            i <= entries.len(),
            ev == entry_views(entries@),
            kt == texts(key@),
            keys_match(keys@, ev),
            days.len() == entries.len(),
            entry_views(cell@) == cell_indices_below(ev, days@, kt, day, i as nat).map_values(
                |k: int| ev[k],
            ),
            sum == total_minutes(entry_views(cell@), now),
            -(i as int) * 0x4000_0000_0000_0000 <= sum <= i as int * 0x4000_0000_0000_0000,
        decreases entries.len() - i,
    {
        if same_key(&keys[i], key) && days[i] == day {
            let copy = entries[i].clone();
            let minutes = minutes_of(&entries[i], now);
            proof {
                let before = entry_views(cell@);
                let after = entry_views(cell@.push(copy));
                assert(after =~= before.push(ev[i as int]));
                assert(after.drop_last() =~= before);
                assert(after =~= cell_indices_below(ev, days@, kt, day, (i + 1) as nat).map_values(
                    |k: int| ev[k],
                ));
                assert(-0x4000_0000_0000_0000 <= minutes <= 0x4000_0000_0000_0000);
            }
            cell.push(copy);
            sum = sum + minutes as i128;
        }
        i += 1;
    }
    (cell, sum)
}

/// The group of the key `key`, unless the minutes of one of its cells cannot
/// be held in an `i64`.
fn build_group(
    entries: &Vec<TimeEntry>,
    keys: &Vec<Vec<String>>,
    days: &Vec<i32>,
    now: Instant,
    key: &Vec<String>,
) -> (r: Option<GroupedEntry>)
    requires
        keys_match(keys@, entry_views(entries@)),
        days.len() == entries.len(),
    ensures
        r is Some <==> key_fits(entry_views(entries@), days@, now, texts(key@)),
        r matches Some(g) ==> g@ == group_of(entry_views(entries@), days@, now, texts(key@)),
{
    broadcast use vstd::std_specs::hash::group_hash_axioms;

    let ghost ev = entry_views(entries@);
    let ghost kt = texts(key@);
    let (found, all_submitted) = days_of_key(entries, keys, days, key);
    let mut total_duration: HashMap<i32, i64> = HashMap::new();
    let mut cells: HashMap<i32, Vec<TimeEntry>> = HashMap::new();
    let mut j: usize = 0;
    while j < found.len()
        invariant
            j <= found.len(),
            ev == entry_views(entries@),
            kt == texts(key@),
            keys_match(keys@, ev),
            days.len() == entries.len(),
            forall|day: i32| found@.contains(day) <==> cell_exists(ev, days@, kt, day),
            forall|day: i32| total_duration@.contains_key(day) <==> found@.take(j as int).contains(day),
            forall|day: i32| cells@.contains_key(day) <==> found@.take(j as int).contains(day),
            forall|day: i32|
                total_duration@.contains_key(day) ==> #[trigger] total_duration@[day]
                    == cell_minutes(ev, days@, now, kt, day),
            forall|day: i32|
                cells@.contains_key(day) ==> entry_views((#[trigger] cells@[day])@) == cell_entries(
                    ev,
                    days@,
                    kt,
                    day,
                ),
        decreases found.len() - j,
    {
        let day = found[j];
        let (cell, sum) = collect_cell(entries, keys, days, now, key, day);
        if sum < i64::MIN as i128 || sum > i64::MAX as i128 {
            assert(!(i64::MIN <= cell_minutes(ev, days@, now, kt, day) <= i64::MAX));
            return None;
        }
        proof {
            assert(found@.take(j + 1) =~= found@.take(j as int).push(day));
            assert forall|d: i32| found@.take(j + 1).contains(d) <==> (d == day || found@.take(
                j as int,
            ).contains(d)) by {
                if found@.take(j as int).contains(d) {
                    let k = choose|k: int|
                        0 <= k < found@.take(j as int).len() && found@.take(j as int)[k] == d;
                    assert(found@.take(j + 1)[k] == d);
                }
                if d == day {
                    assert(found@.take(j + 1)[j as int] == d);
                }
            }
        }
        total_duration.insert(day, sum as i64);
        cells.insert(day, cell);
        j += 1;
    }
    proof {
        assert(found@.take(found.len() as int) =~= found@);
        assert forall|day: i32|
            i64::MIN <= #[trigger] cell_minutes(ev, days@, now, kt, day) <= i64::MAX by {
            if cell_exists(ev, days@, kt, day) {
                assert(total_duration@.contains_key(day));
                assert(total_duration@[day] == cell_minutes(ev, days@, now, kt, day));
            } else {
                lemma_absent_cell(ev, days@, now, kt, day);
            }
        }
    }
    let group = GroupedEntry {
        tags: crate::entry::clone_texts(key),
        total_duration,
        entries: cells,
        all_submitted,
    };
    proof {
        let want = group_of(ev, days@, now, kt);
        assert(group@.total_duration =~= want.total_duration);
        assert(group@.entries =~= want.entries);
    }
    Some(group)
}

/// Groups the intervals, of which the one at index `i` counts on `days[i]`,
/// with `now` standing in for the end of an interval that is still running.
/// There is one group for each key, in the order in which the keys first
/// occur. The result is `None` exactly where the minutes of some cell cannot
/// be held in an `i64`.
pub fn group_entries(entries: &Vec<TimeEntry>, days: &Vec<i32>, now: Instant) -> (r: Option<
    Vec<GroupedEntry>,
>)
    requires
        days.len() == entries.len(),
    ensures
        r is Some <==> all_fit(entry_views(entries@), days@, now),
        r matches Some(groups) ==> group_views(groups@) == grouping(
            entry_views(entries@),
            days@,
            now,
        ),
{
    let ghost ev = entry_views(entries@);
    let keys = keys_of(entries);
    let firsts = first_of_each_key(entries, &keys);
    let mut groups: Vec<GroupedEntry> = Vec::new();
    let mut j: usize = 0;
    while j < firsts.len()
        invariant
            j <= firsts.len(),
            ev == entry_views(entries@),
            keys_match(keys@, ev),
            days.len() == entries.len(),
            firsts.len() == group_keys(ev).len(),
            forall|k: int|
                0 <= k < firsts.len() ==> (#[trigger] firsts[k]) < entries.len() && entry_key(
                    ev[firsts[k] as int],
                ) == group_keys(ev)[k],
            groups.len() == j,
            forall|k: int|
                0 <= k < j ==> (#[trigger] groups[k])@ == group_of(
                    ev,
                    days@,
                    now,
                    group_keys(ev)[k],
                ),
            forall|k: int| 0 <= k < j ==> key_fits(ev, days@, now, #[trigger] group_keys(ev)[k]),
        decreases firsts.len() - j,
    {
        let key = &keys[firsts[j]];
        match build_group(entries, &keys, days, now, key) {
            Some(group) => {
                groups.push(group);
            },
            None => {
                assert(!key_fits(ev, days@, now, texts(key@)));
                return None;
            },
        }
        j += 1;
    }
    proof {
        assert(group_views(groups@) =~= grouping(ev, days@, now));
        lemma_group_keys(ev, ev.len());
        assert forall|key: Seq<Seq<char>>| #[trigger] key_fits(ev, days@, now, key) by {
            if group_keys(ev).contains(key) {
                let k = choose|k: int| 0 <= k < group_keys(ev).len() && group_keys(ev)[k] == key;
                assert(key_fits(ev, days@, now, group_keys(ev)[k]));
            } else {
                assert forall|day: i32|
                    i64::MIN <= #[trigger] cell_minutes(ev, days@, now, key, day) <= i64::MAX by {
                    if cell_exists(ev, days@, key, day) {
                        let i = choose|i: int| in_cell(ev, days@, key, day, i);
                        assert(entry_key(ev[i]) == key);
                    }
                    lemma_absent_cell(ev, days@, now, key, day);
                }
            }
        }
    }
    Some(groups)
}

/// The intervals read for one range of days.
#[derive(Debug)]
pub struct TimeData {
    pub entries: Vec<TimeEntry>,
}

/// Whether `days` holds, for each interval, a day next to or equal to the day
/// on which the interval begins in UTC.
pub open spec fn near_utc_days(entries: Seq<EntryView>, days: Seq<i32>) -> bool {
    &&& days.len() == entries.len()
    &&& forall|i: int|
        0 <= i < entries.len() ==> utc_day(entries[i].start.secs) - 1 <= #[trigger] days[i]
            <= utc_day(entries[i].start.secs) + 1
}

/// Whether `groups` is the grouping of the intervals under the days `days`
/// and the instant `now`, every cell within the reach of an `i64`.
pub open spec fn grouped_at(
    groups: Seq<GroupView>,
    entries: Seq<EntryView>,
    days: Seq<i32>,
    now: Instant,
) -> bool {
    &&& near_utc_days(entries, days)
    &&& clock_range(now)
    &&& all_fit(entries, days, now)
    &&& groups == grouping(entries, days, now)
}

/// Whether the day of every interval is at hand.
pub open spec fn days_at_hand(entries: Seq<EntryView>) -> bool {
    forall|i: int| 0 <= i < entries.len() ==> day_at_hand((#[trigger] entries[i]).start.secs)
}

/// Whether the minutes fit whatever the zone and the clock say: under all
/// days next to the UTC days and every instant that the clock can show.
pub open spec fn fit_anywhere(entries: Seq<EntryView>) -> bool {
    forall|days: Seq<i32>, now: Instant|
        near_utc_days(entries, days) && clock_range(now) ==> #[trigger] all_fit(entries, days, now)
}

/// The most intervals of which the minutes are known to fit without a look
/// at the zone or at the clock.
pub const MAX_INTERVALS: usize = 0x100_0000;

/// Whether the intervals are few enough, and begin and end near enough to
/// the present, for their minutes to fit in any case: no more than
/// `MAX_INTERVALS`, and every start and end an instant whose day is at hand.
pub open spec fn within_reach(entries: Seq<EntryView>) -> bool {
    &&& entries.len() <= MAX_INTERVALS
    &&& forall|i: int|
        0 <= i < entries.len() ==> day_at_hand((#[trigger] entries[i]).start.secs) && (
        entries[i].end matches Some(end) ==> day_at_hand(end.secs))
}

/// The minutes of one interval within reach are fewer than `2^38`.
pub proof fn lemma_entry_minutes_small(e: EntryView, now: Instant)
    requires
        day_at_hand(e.start.secs),
        e.end matches Some(end) ==> day_at_hand(end.secs),
        clock_range(now),
    ensures
        -0x40_0000_0000 <= entry_minutes(e, now) <= 0x40_0000_0000,
{
}

/// A cell holds no more intervals than there are.
pub proof fn lemma_cell_size(
    entries: Seq<EntryView>,
    days: Seq<i32>,
    key: Seq<Seq<char>>,
    day: i32,
    n: nat,
)
    ensures
        cell_indices_below(entries, days, key, day, n).len() <= n,
    decreases n,
{
    if n > 0 {
        lemma_cell_size(entries, days, key, day, (n - 1) as nat);
    }
}

/// Intervals of which each has fewer than `2^38` minutes have together fewer
/// than `2^38` times their number.
pub proof fn lemma_total_minutes_small(s: Seq<EntryView>, now: Instant)
    requires
        forall|k: int|
            0 <= k < s.len() ==> -0x40_0000_0000 <= entry_minutes(#[trigger] s[k], now)
                <= 0x40_0000_0000,
    ensures
        -0x40_0000_0000 * s.len() <= total_minutes(s, now) <= 0x40_0000_0000 * s.len(),
    decreases s.len(),
{
    if s.len() > 0 {
        let front = s.drop_last();
        assert forall|k: int| 0 <= k < front.len() implies -0x40_0000_0000 <= entry_minutes(
            #[trigger] front[k],
            now,
        ) <= 0x40_0000_0000 by {
            assert(front[k] == s[k]);
        }
        lemma_total_minutes_small(front, now);
        assert(-0x40_0000_0000 <= entry_minutes(s[s.len() - 1], now) <= 0x40_0000_0000);
    }
}

/// The minutes of intervals within reach fit, whatever the zone and the
/// clock say.
pub proof fn lemma_within_reach_fits(entries: Seq<EntryView>)
    requires
        within_reach(entries),
    ensures
        days_at_hand(entries),
        fit_anywhere(entries),
{
    assert forall|days: Seq<i32>, now: Instant|
        near_utc_days(entries, days) && clock_range(now) implies #[trigger] all_fit(
        entries,
        days,
        now,
    ) by {
        assert forall|key: Seq<Seq<char>>| #[trigger] key_fits(entries, days, now, key) by {
            assert forall|day: i32|
                i64::MIN <= #[trigger] cell_minutes(entries, days, now, key, day) <= i64::MAX by {
                let idx = cell_indices(entries, days, key, day);
                let cell = cell_entries(entries, days, key, day);
                lemma_cell_indices(entries, days, key, day, entries.len());
                lemma_cell_size(entries, days, key, day, entries.len());
                assert forall|k: int| 0 <= k < cell.len() implies -0x40_0000_0000
                    <= entry_minutes(#[trigger] cell[k], now) <= 0x40_0000_0000 by {
                    assert(in_cell(entries, days, key, day, idx[k]));
                    lemma_entry_minutes_small(entries[idx[k]], now);
                }
                lemma_total_minutes_small(cell, now);
            }
        }
    }
}

/// The day on which each interval begins in the machine's time zone, unless
/// the day of one of them cannot be had.
fn local_days(entries: &Vec<TimeEntry>) -> (r: Option<Vec<i32>>)
    ensures
        r matches Some(days) ==> near_utc_days(entry_views(entries@), days@),
        days_at_hand(entry_views(entries@)) ==> r is Some,
{
    let mut days: Vec<i32> = Vec::new();
    let mut i: usize = 0;
    while i < entries.len()
        invariant
            i <= entries.len(),
            days.len() == i,
            forall|k: int|
                0 <= k < i ==> utc_day(entry_views(entries@)[k].start.secs) - 1
                    <= #[trigger] days[k] <= utc_day(entry_views(entries@)[k].start.secs) + 1,
        decreases entries.len() - i,
    {
        match local_day(entries[i].start.secs) {
            Some(day) => {
                days.push(day);
            },
            None => {
                assert(!day_at_hand(entry_views(entries@)[i as int].start.secs));
                return None;
            },
        }
        i += 1;
    }
    Some(days)
}

impl TimeData {
    /// Groups the intervals by their sorted tags and by the day on which each
    /// begins in the machine's time zone, an interval that is still running
    /// counted up to the present instant. Neither the zone nor the clock is
    /// known here: the result is the grouping under some days next to the UTC
    /// days and some instant that the clock can show.
    ///
    /// There is a result wherever the day of every interval is at hand and
    /// the minutes fit whatever the zone and the clock say; that is so, for
    /// one, where the intervals are within reach. There is none only where
    /// the day of an interval cannot be had or the minutes of a cell are
    /// beyond an `i64`.
    pub fn group_entries_by_tags(&self) -> (r: Option<Vec<GroupedEntry>>)
        ensures
            r matches Some(groups) ==> exists|days: Seq<i32>, now: Instant| #[trigger]
                grouped_at(group_views(groups@), entry_views(self.entries@), days, now),
            days_at_hand(entry_views(self.entries@)) && fit_anywhere(entry_views(self.entries@))
                ==> r is Some,
            within_reach(entry_views(self.entries@)) ==> r is Some,
            self.entries.len() == 0 ==> (r matches Some(groups) && groups.len() == 0),
    {
        let ghost ev = entry_views(self.entries@);
        proof {
            if within_reach(ev) {
                lemma_within_reach_fits(ev);
            }
        }
        let now = utc_now();
        let days = match local_days(&self.entries) {
            Some(days) => days,
            None => {
                return None;
            },
        };
        let groups = group_entries(&self.entries, &days, now);
        proof {
            if days_at_hand(ev) && fit_anywhere(ev) {
                assert(all_fit(ev, days@, now));
            }
            if groups is Some {
                assert(grouped_at(group_views(groups->0@), ev, days@, now));
                assert(group_views(groups->0@).len() == groups->0.len());
            }
        }
        groups
    }
}

} // verus!
