//! What holds of every grouping: the cells part the input, the order of the
//! input does not matter, and only time makes a running interval grow.

use crate::calendar::Instant;
use crate::entry::EntryView;
use crate::grouping::{
    cell_entries, cell_exists, cell_indices, cell_indices_below, cell_minutes, entry_key,
    entry_minutes, group_keys, group_of, grouping, in_cell, key_submitted, lemma_cell_indices,
    lemma_group_keys, total_minutes, whole_minutes, GroupView,
};
use crate::tagkey::lemma_key_ignores_tag_order;
use vstd::prelude::*;
use vstd::seq_lib::{to_multiset_build, to_multiset_remove};

verus! {

/// Whether the interval at index `i` lies in the cell of the day `day` of the
/// group at index `g`. The list of that cell holds, in rising order of `k`,
/// the interval at each index `k` that lies in it.
pub open spec fn lies_in(
    entries: Seq<EntryView>,
    days: Seq<i32>,
    now: Instant,
    g: int,
    day: i32,
    i: int,
) -> bool {
    &&& 0 <= g < grouping(entries, days, now).len()
    &&& grouping(entries, days, now)[g].entries.contains_key(day)
    &&& cell_indices(entries, days, grouping(entries, days, now)[g].tags, day).contains(i)
}

/// The intervals paired with the days on which they count.
pub open spec fn dated(entries: Seq<EntryView>, days: Seq<i32>) -> Seq<(EntryView, i32)> {
    Seq::new(entries.len(), |i: int| (entries[i], days[i]))
}

/// Whether two groups have the same tags, the same days, on each day the same
/// minutes and the same intervals, in whatever order, and the same flag.
pub open spec fn same_contents(a: GroupView, b: GroupView) -> bool {
    &&& a.tags == b.tags
    &&& a.total_duration == b.total_duration
    &&& a.all_submitted == b.all_submitted
    &&& a.entries.dom() == b.entries.dom()
    &&& forall|day: i32|
        a.entries.contains_key(day) ==> (#[trigger] a.entries[day]).to_multiset()
            == b.entries[day].to_multiset()
}

/// Whether `a` has the same contents as some group of `b`.
pub open spec fn has_match(a: GroupView, b: Seq<GroupView>) -> bool {
    exists|j: int| 0 <= j < b.len() && same_contents(a, #[trigger] b[j])
}

/// Whether each group of `a` has the same contents as some group of `b`.
pub open spec fn found_among(a: Seq<GroupView>, b: Seq<GroupView>) -> bool {
    forall|i: int| 0 <= i < a.len() ==> has_match(#[trigger] a[i], b)
}

/// Whether the interval at index `i` lies in the cell of its own day of some
/// group.
pub open spec fn has_cell(entries: Seq<EntryView>, days: Seq<i32>, now: Instant, i: int) -> bool {
    exists|g: int| lies_in(entries, days, now, g, days[i], i)
}

/// The groups part the input: no two groups have the same tags, every
/// interval lies in a cell of a group, and in one cell only. A cell holds no
/// interval twice, and the list of a cell holds the intervals that lie in it.
pub proof fn lemma_grouping_parts_input(entries: Seq<EntryView>, days: Seq<i32>, now: Instant)
    requires
        days.len() == entries.len(),
    ensures
        forall|g: int, h: int|
            0 <= g < h < grouping(entries, days, now).len() ==> (#[trigger] grouping(
                entries,
                days,
                now,
            )[g]).tags != (#[trigger] grouping(entries, days, now)[h]).tags,
        forall|i: int| 0 <= i < entries.len() ==> #[trigger] has_cell(entries, days, now, i),
        forall|i: int, g: int, day: i32, h: int, other: i32|
            #[trigger] lies_in(entries, days, now, g, day, i) && #[trigger] lies_in(
                entries,
                days,
                now,
                h,
                other,
                i,
            ) ==> g == h && day == other,
        forall|g: int, day: i32|
            0 <= g < grouping(entries, days, now).len() ==> (#[trigger] cell_indices(
                entries,
                days,
                grouping(entries, days, now)[g].tags,
                day,
            )).no_duplicates(),
        forall|g: int, day: i32|
            0 <= g < grouping(entries, days, now).len() && grouping(
                entries,
                days,
                now,
            )[g].entries.contains_key(day) ==> #[trigger] grouping(entries, days, now)[g].entries[day]
                == cell_indices(
                entries,
                days,
                grouping(entries, days, now)[g].tags,
                day,
            ).map_values(|k: int| entries[k]),
{
    let groups = grouping(entries, days, now);
    let keys = group_keys(entries);
    lemma_group_keys(entries, entries.len());
    assert forall|g: int| 0 <= g < groups.len() implies (#[trigger] groups[g]).tags == keys[g] by {}
    assert forall|i: int| 0 <= i < entries.len() implies #[trigger] has_cell(
        entries,
        days,
        now,
        i,
    ) by {
        let key = entry_key(entries[i]);
        assert(keys.contains(key));
        let g = choose|g: int| 0 <= g < keys.len() && keys[g] == key;
        assert(in_cell(entries, days, key, days[i], i));
        lemma_cell_indices(entries, days, key, days[i], entries.len());
        assert(lies_in(entries, days, now, g, days[i], i));
    }
    assert forall|i: int, g: int, day: i32, h: int, other: i32|
        #[trigger] lies_in(entries, days, now, g, day, i) && #[trigger] lies_in(
            entries,
            days,
            now,
            h,
            other,
            i,
        ) implies g == h && day == other by {
        lemma_cell_holds_members(entries, days, keys[g], day, i);
        lemma_cell_holds_members(entries, days, keys[h], other, i);
    }
    assert forall|g: int, day: i32| 0 <= g < groups.len() implies (#[trigger] cell_indices(
        entries,
        days,
        groups[g].tags,
        day,
    )).no_duplicates() by {
        lemma_cell_indices(entries, days, groups[g].tags, day, entries.len());
    }
}

/// An index that a cell holds is the index of an interval of that key and
/// day.
pub proof fn lemma_cell_holds_members(
    entries: Seq<EntryView>,
    days: Seq<i32>,
    key: Seq<Seq<char>>,
    day: i32,
    i: int,
)
    requires
        cell_indices(entries, days, key, day).contains(i),
    ensures
        in_cell(entries, days, key, day, i),
{
    lemma_cell_indices(entries, days, key, day, entries.len());
    let idx = cell_indices(entries, days, key, day);
    let k = choose|k: int| 0 <= k < idx.len() && idx[k] == i;
    assert(in_cell(entries, days, key, day, idx[k]));
}

/// Intervals whose tags differ only in the order in which they were written
/// lie in the same group.
pub proof fn lemma_tag_order_does_not_part(
    entries: Seq<EntryView>,
    days: Seq<i32>,
    now: Instant,
    i: int,
    j: int,
    g: int,
    h: int,
)
    requires
        days.len() == entries.len(),
        0 <= i < entries.len(),
        0 <= j < entries.len(),
        entries[i].tags.to_multiset() == entries[j].tags.to_multiset(),
        lies_in(entries, days, now, g, days[i], i),
        lies_in(entries, days, now, h, days[j], j),
    ensures
        g == h,
{
    lemma_key_ignores_tag_order(entries[i].tags, entries[j].tags);
    lemma_group_keys(entries, entries.len());
    let keys = group_keys(entries);
    lemma_cell_holds_members(entries, days, keys[g], days[i], i);
    lemma_cell_holds_members(entries, days, keys[h], days[j], j);
}

/// Taking one interval out of a list takes its minutes out of the sum.
pub proof fn lemma_total_minutes_remove(s: Seq<EntryView>, j: int, now: Instant)
    requires
        0 <= j < s.len(),
    ensures
        total_minutes(s, now) == total_minutes(s.remove(j), now) + entry_minutes(s[j], now),
    decreases s.len(),
{
    if j == s.len() - 1 {
        assert(s.remove(j) =~= s.drop_last());
    } else {
        lemma_total_minutes_remove(s.drop_last(), j, now);
        assert(s.remove(j).drop_last() =~= s.drop_last().remove(j));
        assert(s.remove(j).last() == s.last());
    }
}

/// The sum of the minutes of a list does not depend on its order.
pub proof fn lemma_total_minutes_any_order(a: Seq<EntryView>, b: Seq<EntryView>, now: Instant)
    requires
        a.to_multiset() == b.to_multiset(),
    ensures
        total_minutes(a, now) == total_minutes(b, now),
    decreases a.len(),
{
    broadcast use vstd::seq_lib::group_to_multiset_ensures;
    broadcast use vstd::multiset::group_multiset_axioms;

    a.to_multiset_ensures();
    b.to_multiset_ensures();
    if a.len() == 0 {
        assert(b.len() == 0);
    } else {
        let x = a.last();
        assert(a.contains(x));
        assert(b.to_multiset().count(x) > 0);
        assert(b.contains(x));
        let j = choose|j: int| 0 <= j < b.len() && b[j] == x;
        assert(a.remove(a.len() - 1) =~= a.drop_last());
        to_multiset_remove(a, a.len() - 1);
        to_multiset_remove(b, j);
        lemma_total_minutes_any_order(a.drop_last(), b.remove(j), now);
        lemma_total_minutes_remove(b, j, now);
    }
}

/// How often a cell holds an interval: as often as the input holds it with the
/// day of the cell, where its key is the key of the cell, and never otherwise.
pub proof fn lemma_cell_counts(
    entries: Seq<EntryView>,
    days: Seq<i32>,
    key: Seq<Seq<char>>,
    day: i32,
    n: nat,
    x: EntryView,
)
    requires
        days.len() == entries.len(),
        n <= entries.len(),
    ensures
        cell_indices_below(entries, days, key, day, n).map_values(
            |i: int| entries[i],
        ).to_multiset().count(x) == if entry_key(x) == key {
            dated(entries, days).take(n as int).to_multiset().count((x, day))
        } else {
            0
        },
    decreases n,
{
    broadcast use vstd::multiset::group_multiset_axioms;

    let pairs = dated(entries, days);
    let pick = |i: int| entries[i];
    if n == 0 {
        assert(cell_indices_below(entries, days, key, day, n).map_values(pick) =~= Seq::<
            EntryView,
        >::empty());
        assert(pairs.take(0) =~= Seq::<(EntryView, i32)>::empty());
        Seq::<EntryView>::empty().to_multiset_ensures();
        Seq::<(EntryView, i32)>::empty().to_multiset_ensures();
        assert(Seq::<EntryView>::empty().to_multiset().len() == 0);
        assert(Seq::<(EntryView, i32)>::empty().to_multiset().len() == 0);
    } else {
        let m = (n - 1) as nat;
        lemma_cell_counts(entries, days, key, day, m, x);
        let rest = cell_indices_below(entries, days, key, day, m);
        assert(pairs.take(n as int) =~= pairs.take(m as int).push(pairs[m as int]));
        to_multiset_build(pairs.take(m as int), pairs[m as int]);
        if in_cell(entries, days, key, day, m as int) {
            assert(rest.push(m as int).map_values(pick) =~= rest.map_values(pick).push(
                entries[m as int],
            ));
            to_multiset_build(rest.map_values(pick), entries[m as int]);
        }
    }
}

/// What occurs in one input at some index occurs in the other.
pub proof fn lemma_pair_occurs(
    e1: Seq<EntryView>,
    d1: Seq<i32>,
    e2: Seq<EntryView>,
    d2: Seq<i32>,
    i: int,
) -> (j: int)
    requires
        d1.len() == e1.len(),
        d2.len() == e2.len(),
        dated(e1, d1).to_multiset() == dated(e2, d2).to_multiset(),
        0 <= i < e1.len(),
    ensures
        0 <= j < e2.len(),
        e2[j] == e1[i],
        d2[j] == d1[i],
{
    broadcast use vstd::seq_lib::group_to_multiset_ensures;

    let p1 = dated(e1, d1);
    let p2 = dated(e2, d2);
    p1.to_multiset_ensures();
    p2.to_multiset_ensures();
    assert(p1[i] == (e1[i], d1[i]));
    assert(p1.contains(p1[i]));
    assert(p2.to_multiset().count(p1[i]) > 0);
    assert(p2.contains(p1[i]));
    let j = choose|j: int| 0 <= j < p2.len() && p2[j] == p1[i];
    j
}

/// One half of `lemma_grouping_ignores_order`: what the first input gives is
/// found in what the second gives.
pub proof fn lemma_cells_ignore_order(
    e1: Seq<EntryView>,
    d1: Seq<i32>,
    e2: Seq<EntryView>,
    d2: Seq<i32>,
    now: Instant,
    key: Seq<Seq<char>>,
    day: i32,
)
    requires
        d1.len() == e1.len(),
        d2.len() == e2.len(),
        dated(e1, d1).to_multiset() == dated(e2, d2).to_multiset(),
    ensures
        cell_entries(e1, d1, key, day).to_multiset() == cell_entries(e2, d2, key, day).to_multiset(),
        cell_minutes(e1, d1, now, key, day) == cell_minutes(e2, d2, now, key, day),
        cell_exists(e1, d1, key, day) ==> cell_exists(e2, d2, key, day),
        key_submitted(e2, key) ==> key_submitted(e1, key),
        group_keys(e1).contains(key) ==> group_keys(e2).contains(key),
{
    broadcast use vstd::multiset::group_multiset_axioms;

    let c1 = cell_entries(e1, d1, key, day);
    let c2 = cell_entries(e2, d2, key, day);
    assert forall|x: EntryView| c1.to_multiset().count(x) == c2.to_multiset().count(x) by {
        lemma_cell_counts(e1, d1, key, day, e1.len(), x);
        lemma_cell_counts(e2, d2, key, day, e2.len(), x);
        assert(dated(e1, d1).take(e1.len() as int) =~= dated(e1, d1));
        assert(dated(e2, d2).take(e2.len() as int) =~= dated(e2, d2));
    }
    assert(c1.to_multiset() =~= c2.to_multiset());
    lemma_total_minutes_any_order(c1, c2, now);
    if cell_exists(e1, d1, key, day) {
        let i = choose|i: int| in_cell(e1, d1, key, day, i);
        let j = lemma_pair_occurs(e1, d1, e2, d2, i);
        assert(in_cell(e2, d2, key, day, j));
    }
    if key_submitted(e2, key) {
        assert forall|i: int| 0 <= i < e1.len() && entry_key(e1[i]) == key implies e1[i].submitted by {
            let j = lemma_pair_occurs(e1, d1, e2, d2, i);
        }
    }
    lemma_group_keys(e1, e1.len());
    lemma_group_keys(e2, e2.len());
    if group_keys(e1).contains(key) {
        let i = choose|i: int| 0 <= i < e1.len() && entry_key(#[trigger] e1[i]) == key;
        let j = lemma_pair_occurs(e1, d1, e2, d2, i);
        assert(entry_key(e2[j]) == key);
    }
}

/// The group of a key has the same contents whatever the order of the input.
pub proof fn lemma_group_ignores_order(
    e1: Seq<EntryView>,
    d1: Seq<i32>,
    e2: Seq<EntryView>,
    d2: Seq<i32>,
    now: Instant,
    key: Seq<Seq<char>>,
)
    requires
        d1.len() == e1.len(),
        d2.len() == e2.len(),
        dated(e1, d1).to_multiset() == dated(e2, d2).to_multiset(),
    ensures
        same_contents(group_of(e1, d1, now, key), group_of(e2, d2, now, key)),
{
    let a = group_of(e1, d1, now, key);
    let b = group_of(e2, d2, now, key);
    assert forall|day: i32|
        cell_exists(e1, d1, key, day) == cell_exists(e2, d2, key, day) && cell_minutes(
            e1,
            d1,
            now,
            key,
            day,
        ) == cell_minutes(e2, d2, now, key, day) && cell_entries(e1, d1, key, day).to_multiset()
            == cell_entries(e2, d2, key, day).to_multiset() by {
        lemma_cells_ignore_order(e1, d1, e2, d2, now, key, day);
        lemma_cells_ignore_order(e2, d2, e1, d1, now, key, day);
    }
    lemma_cells_ignore_order(e1, d1, e2, d2, now, key, 0);
    lemma_cells_ignore_order(e2, d2, e1, d1, now, key, 0);
    assert(a.total_duration =~= b.total_duration);
    assert(a.entries.dom() =~= b.entries.dom());
}

/// Grouping does not depend on the order of the input: where two inputs hold
/// the same intervals with the same days, each as often as the other, every
/// group of the one has the same tags, days, minutes and flag as a group of
/// the other, and holds on each day the same intervals.
pub proof fn lemma_grouping_ignores_order(
    e1: Seq<EntryView>,
    d1: Seq<i32>,
    e2: Seq<EntryView>,
    d2: Seq<i32>,
    now: Instant,
)
    requires
        d1.len() == e1.len(),
        d2.len() == e2.len(),
        dated(e1, d1).to_multiset() == dated(e2, d2).to_multiset(),
    ensures
        found_among(grouping(e1, d1, now), grouping(e2, d2, now)),
        found_among(grouping(e2, d2, now), grouping(e1, d1, now)),
        grouping(e1, d1, now).len() == grouping(e2, d2, now).len(),
{
    lemma_found_among(e1, d1, e2, d2, now);
    lemma_found_among(e2, d2, e1, d1, now);
    lemma_group_keys(e1, e1.len());
    lemma_group_keys(e2, e2.len());
    let k1 = group_keys(e1);
    let k2 = group_keys(e2);
    assert forall|key: Seq<Seq<char>>| k1.contains(key) <==> k2.contains(key) by {
        lemma_cells_ignore_order(e1, d1, e2, d2, now, key, 0);
        lemma_cells_ignore_order(e2, d2, e1, d1, now, key, 0);
    }
    assert(k1.to_set() =~= k2.to_set());
    k1.unique_seq_to_set();
    k2.unique_seq_to_set();
}

/// Every group of the first input has the same contents as a group of the
/// second.
proof fn lemma_found_among(
    e1: Seq<EntryView>,
    d1: Seq<i32>,
    e2: Seq<EntryView>,
    d2: Seq<i32>,
    now: Instant,
)
    requires
        d1.len() == e1.len(),
        d2.len() == e2.len(),
        dated(e1, d1).to_multiset() == dated(e2, d2).to_multiset(),
    ensures
        found_among(grouping(e1, d1, now), grouping(e2, d2, now)),
{
    let g1 = grouping(e1, d1, now);
    let g2 = grouping(e2, d2, now);
    assert forall|i: int| 0 <= i < g1.len() implies has_match(#[trigger] g1[i], g2) by {
        let key = group_keys(e1)[i];
        assert(group_keys(e1).contains(key));
        lemma_cells_ignore_order(e1, d1, e2, d2, now, key, 0);
        let j = choose|j: int| 0 <= j < group_keys(e2).len() && group_keys(e2)[j] == key;
        lemma_group_ignores_order(e1, d1, e2, d2, now, key);
        assert(same_contents(g1[i], g2[j]));
    }
}

/// Whole minutes never fall as the nanoseconds rise.
pub proof fn lemma_whole_minutes_monotone(a: int, b: int)
    requires
        a <= b,
    ensures
        whole_minutes(a) <= whole_minutes(b),
{
}

/// A later `now` takes no minutes from any interval, and leaves an interval
/// that has ended as it was.
pub proof fn lemma_minutes_never_fall(e: EntryView, now: Instant, later: Instant)
    requires
        now.total_nanos() <= later.total_nanos(),
    ensures
        entry_minutes(e, now) <= entry_minutes(e, later),
        e.end is Some ==> entry_minutes(e, now) == entry_minutes(e, later),
{
    lemma_whole_minutes_monotone(
        now.total_nanos() - e.start.total_nanos(),
        later.total_nanos() - e.start.total_nanos(),
    );
}

/// An interval that is running at `now` has gained a minute a minute later.
pub proof fn lemma_running_interval_grows(e: EntryView, now: Instant, later: Instant)
    requires
        e.end is None,
        e.start.total_nanos() <= now.total_nanos(),
        now.total_nanos() + 60_000_000_000 <= later.total_nanos(),
    ensures
        entry_minutes(e, now) < entry_minutes(e, later),
{
}

/// The minutes of a list never fall as `now` moves on, and they rise where
/// the minutes of one of its intervals rise.
pub proof fn lemma_total_minutes_grow(s: Seq<EntryView>, now: Instant, later: Instant)
    requires
        now.total_nanos() <= later.total_nanos(),
    ensures
        total_minutes(s, now) <= total_minutes(s, later),
        (exists|k: int| 0 <= k < s.len() && entry_minutes(s[k], now) < entry_minutes(s[k], later))
            <==> total_minutes(s, now) < total_minutes(s, later),
    decreases s.len(),
{
    if s.len() > 0 {
        let rest = s.drop_last();
        lemma_total_minutes_grow(rest, now, later);
        lemma_minutes_never_fall(s.last(), now, later);
        if exists|k: int| 0 <= k < s.len() && entry_minutes(s[k], now) < entry_minutes(s[k], later) {
            let k = choose|k: int|
                0 <= k < s.len() && entry_minutes(s[k], now) < entry_minutes(s[k], later);
            if k < rest.len() {
                assert(rest[k] == s[k]);
            }
        }
        if total_minutes(s, now) < total_minutes(s, later) {
            if total_minutes(rest, now) < total_minutes(rest, later) {
                let k = choose|k: int|
                    0 <= k < rest.len() && entry_minutes(rest[k], now) < entry_minutes(
                        rest[k],
                        later,
                    );
                assert(s[k] == rest[k]);
            } else {
                assert(entry_minutes(s[s.len() - 1], now) < entry_minutes(s[s.len() - 1], later));
            }
        }
    }
}

/// The minutes of a cell are the sum of the whole minutes of its intervals, a
/// running interval counted up to `now`. As `now` moves on they never fall,
/// and they rise exactly where the cell holds an interval whose own minutes
/// rise; an interval that has ended is never one of these.
pub proof fn lemma_cell_minutes_grow(
    entries: Seq<EntryView>,
    days: Seq<i32>,
    key: Seq<Seq<char>>,
    day: i32,
    now: Instant,
    later: Instant,
)
    requires
        now.total_nanos() <= later.total_nanos(),
    ensures
        cell_minutes(entries, days, now, key, day) == total_minutes(
            cell_entries(entries, days, key, day),
            now,
        ),
        cell_minutes(entries, days, now, key, day) <= cell_minutes(entries, days, later, key, day),
        cell_minutes(entries, days, now, key, day) < cell_minutes(entries, days, later, key, day)
            <==> exists|k: int|
            0 <= k < cell_entries(entries, days, key, day).len() && cell_entries(
                entries,
                days,
                key,
                day,
            )[k].end is None && entry_minutes(cell_entries(entries, days, key, day)[k], now)
                < entry_minutes(cell_entries(entries, days, key, day)[k], later),
{
    let cell = cell_entries(entries, days, key, day);
    lemma_total_minutes_grow(cell, now, later);
    if exists|k: int| 0 <= k < cell.len() && entry_minutes(cell[k], now) < entry_minutes(cell[k], later) {
        let k = choose|k: int|
            0 <= k < cell.len() && entry_minutes(cell[k], now) < entry_minutes(cell[k], later);
        lemma_minutes_never_fall(cell[k], now, later);
        assert(cell[k].end is None);
    }
}

/// A cell that holds an interval which is running at `now` has more minutes
/// a minute later.
pub proof fn lemma_running_cell_grows(
    entries: Seq<EntryView>,
    days: Seq<i32>,
    key: Seq<Seq<char>>,
    day: i32,
    now: Instant,
    later: Instant,
    k: int,
)
    requires
        0 <= k < cell_entries(entries, days, key, day).len(),
        cell_entries(entries, days, key, day)[k].end is None,
        cell_entries(entries, days, key, day)[k].start.total_nanos() <= now.total_nanos(),
        now.total_nanos() + 60_000_000_000 <= later.total_nanos(),
    ensures
        cell_minutes(entries, days, now, key, day) < cell_minutes(entries, days, later, key, day),
{
    lemma_running_interval_grows(cell_entries(entries, days, key, day)[k], now, later);
    lemma_cell_minutes_grow(entries, days, key, day, now, later);
}

} // verus!
