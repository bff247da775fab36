//! Minutes by day: walking such a map in the order of its days, summing it,
//! merging several into one, and turning minutes into hundredths of an hour.

use std::collections::HashMap;
use vstd::std_specs::iter::IteratorSpec;
use vstd::prelude::*;

verus! {

/// Whether `days` holds the members of `dom`, each once, in rising order.
pub open spec fn is_rising(days: Seq<i32>, dom: Set<i32>) -> bool {
    &&& forall|i: int, j: int| 0 <= i < j < days.len() ==> days[i] < days[j]
    &&& forall|d: i32| days.contains(d) <==> dom.contains(d)
}

/// The members of `dom` in rising order.
pub open spec fn rising(dom: Set<i32>) -> Seq<i32> {
    choose|days: Seq<i32>| is_rising(days, dom)
}

/// The sum of the minutes that `m` holds for the days in `days`.
pub open spec fn minutes_over(m: Map<i32, i64>, days: Seq<i32>) -> int
    decreases days.len(),
{
    if days.len() == 0 {
        0
    } else {
        minutes_over(m, days.drop_last()) + m[days.last()]
    }
}

/// The sum of all the minutes that `m` holds.
pub open spec fn map_total(m: Map<i32, i64>) -> int {
    minutes_over(m, rising(m.dom()))
}

/// `a / b` rounded to the nearest integer, a half rounded away from zero.
pub open spec fn round_div(a: int, b: int) -> int
    recommends
        b > 0,
{
    if a >= 0 {
        (2 * a + b) / (2 * b)
    } else {
        -((-2 * a + b) / (2 * b))
    }
}

/// A number of minutes as hundredths of an hour, rounded to the nearest.
pub open spec fn hundredths(minutes: int) -> int {
    round_div(minutes * 100, 60)
}

/// There is one way only to list a set in rising order.
pub proof fn lemma_rising_unique(a: Seq<i32>, b: Seq<i32>, dom: Set<i32>)
    requires
        is_rising(a, dom),
        is_rising(b, dom),
    ensures
        a == b,
    decreases a.len(),
{
    if a.len() == 0 {
        if b.len() > 0 {
            assert(b.contains(b[0]));
            assert(a.contains(b[0]));
        }
        assert(a =~= b);
    } else if b.len() == 0 {
        assert(a.contains(a[0]));
        assert(b.contains(a[0]));
    } else {
        let x = a.last();
        let y = b.last();
        assert(a.contains(x));
        assert(b.contains(x));
        assert(b.contains(y));
        assert(a.contains(y));
        let i = choose|i: int| 0 <= i < b.len() && b[i] == x;
        let j = choose|j: int| 0 <= j < a.len() && a[j] == y;
        assert(x == y) by {
            if i < b.len() - 1 {
                assert(b[i] < b[b.len() - 1]);
            }
            if j < a.len() - 1 {
                assert(a[j] < a[a.len() - 1]);
            }
        }
        let rest = dom.remove(x);
        assert(is_rising(a.drop_last(), rest)) by {
            lemma_drop_last_rising(a, dom);
        }
        assert(is_rising(b.drop_last(), rest)) by {
            lemma_drop_last_rising(b, dom);
        }
        lemma_rising_unique(a.drop_last(), b.drop_last(), rest);
        assert(a =~= a.drop_last().push(x));
        assert(b =~= b.drop_last().push(y));
    }
}

/// A rising list without its last day lists the set without that day.
pub proof fn lemma_drop_last_rising(a: Seq<i32>, dom: Set<i32>)
    requires
        is_rising(a, dom),
        a.len() > 0,
    ensures
        is_rising(a.drop_last(), dom.remove(a.last())),
{
    let front = a.drop_last();
    let x = a.last();
    assert forall|d: i32| front.contains(d) <==> dom.remove(x).contains(d) by {
        if front.contains(d) {
            let k = choose|k: int| 0 <= k < front.len() && front[k] == d;
            assert(a[k] == d);
            assert(a[k] < a[a.len() - 1]);
            assert(a.contains(d));
        }
        if dom.remove(x).contains(d) {
            assert(a.contains(d));
            let k = choose|k: int| 0 <= k < a.len() && a[k] == d;
            assert(front[k] == d);
        }
    }
}

/// What is listed in rising order is the rising list.
pub proof fn lemma_is_the_rising(days: Seq<i32>, dom: Set<i32>)
    requires
        is_rising(days, dom),
    ensures
        rising(dom) == days,
{
    lemma_rising_unique(rising(dom), days, dom);
}

/// Puts `day` into the rising list `days`, unless it is there.
pub(crate) fn insert_day(days: &mut Vec<i32>, day: i32)
    requires
        forall|i: int, j: int| 0 <= i < j < old(days).len() ==> old(days)[i] < old(days)[j],
    ensures
        forall|i: int, j: int| 0 <= i < j < final(days).len() ==> final(days)[i] < final(days)[j],
        forall|d: i32| final(days)@.contains(d) <==> (old(days)@.contains(d) || d == day),
{
    let ghost before = days@;
    let mut p: usize = 0;
    while p < days.len() && days[p] < day
        invariant
            p <= days.len(),
            days@ == before,
            forall|k: int| 0 <= k < p ==> days[k] < day,
        decreases days.len() - p,
    {
        p += 1;
    }
    if p < days.len() && days[p] == day {
        assert(days@.contains(day));
    } else {
        days.insert(p, day);
        proof {
            let after = days@;
            assert(after == before.insert(p as int, day));
            assert forall|i: int, j: int| 0 <= i < j < after.len() implies after[i] < after[j] by {
                let bi = if i < p { i } else { i - 1 };
                let bj = if j < p { j } else { j - 1 };
                if i != p && j != p {
                    assert(before[bi] < before[bj]);
                } else if i == p {
                    assert(before[p as int] <= before[bj]) by {
                        if p as int != bj {
                            assert(before[p as int] < before[bj]);
                        }
                    }
                }
            }
            assert forall|d: i32| after.contains(d) <==> (before.contains(d) || d == day) by {
                if before.contains(d) {
                    let k = choose|k: int| 0 <= k < before.len() && before[k] == d;
                    let ak = if k < p { k } else { k + 1 };
                    assert(after[ak] == d);
                }
                if d == day {
                    assert(after[p as int] == d);
                }
                if after.contains(d) && d != day {
                    let k = choose|k: int| 0 <= k < after.len() && after[k] == d;
                    let bk = if k < p { k } else { k - 1 };
                    assert(before[bk] == d);
                }
            }
        }
    }
}

/// The days of `m` in rising order.
pub fn sorted_days(m: &HashMap<i32, i64>) -> (r: Vec<i32>)
    ensures
        r@ == rising(m@.dom()),
{
    broadcast use vstd::std_specs::hash::group_hash_axioms;

    let mut days: Vec<i32> = Vec::new();
    let keys = m.keys();
    let ghost all = keys.remaining().unref();
    assert(all.to_set() == m@.dom());
    for day in it: keys
        invariant
            it.seq().unref() == all,
            forall|i: int, j: int| 0 <= i < j < days.len() ==> days[i] < days[j],
            forall|d: i32| days@.contains(d) <==> all.take(it.index()).contains(d),
    {
        proof {
            let k = it.index();
            let seen = all.take(k);
            let next = all.take(k + 1);
            assert(all[k] == *day);
            assert(next =~= seen.push(*day));
            assert forall|d: i32| next.contains(d) <==> (seen.contains(d) || d == *day) by {
                if seen.contains(d) {
                    let w = choose|w: int| 0 <= w < seen.len() && seen[w] == d;
                    assert(next[w] == d);
                }
                if d == *day {
                    assert(next[k] == d);
                }
                if next.contains(d) && d != *day {
                    let w = choose|w: int| 0 <= w < next.len() && next[w] == d;
                    assert(seen[w] == d);
                }
            }
        }
        insert_day(&mut days, *day);
    }
    proof {
        assert(all.take(all.len() as int) =~= all);
        assert forall|d: i32| days@.contains(d) <==> m@.dom().contains(d) by {
            assert(all.contains(d) <==> all.to_set().contains(d));
        }
        lemma_is_the_rising(days@, m@.dom());
    }
    days
}

/// The minutes that `m` holds for `day`.
pub fn minutes_on(m: &HashMap<i32, i64>, day: i32) -> (r: Option<i64>)
    ensures
        r == if m@.contains_key(day) {
            Some(m@[day])
        } else {
            None
        },
{
    broadcast use vstd::std_specs::hash::group_hash_axioms;

    match m.get(&day) {
        Some(minutes) => Some(*minutes),
        None => None,
    }
}

/// A rising list of days is no longer than there are days.
pub proof fn lemma_rising_length(days: Seq<i32>)
    requires
        forall|i: int, j: int| 0 <= i < j < days.len() ==> days[i] < days[j],
    ensures
        days.len() <= 0x1_0000_0000,
{
    if days.len() > 0 {
        lemma_rising_spread(days, days.len() - 1);
    }
}

/// The day at index `k` of a rising list is at least `k` days after the
/// first.
pub proof fn lemma_rising_spread(days: Seq<i32>, k: int)
    requires
        forall|i: int, j: int| 0 <= i < j < days.len() ==> days[i] < days[j],
        0 <= k < days.len(),
    ensures
        days[k] >= days[0] + k,
    decreases k,
{
    if k > 0 {
        lemma_rising_spread(days, k - 1);
        assert(days[k - 1] < days[k]);
    }
}

/// The sum of all the minutes that `m` holds.
pub fn total_of(m: &HashMap<i32, i64>) -> (r: i128)
    ensures
        r == map_total(m@),
        -0x8000_0000_0000_0000_0000_0000 <= r <= 0x8000_0000_0000_0000_0000_0000,
{
    broadcast use vstd::std_specs::hash::group_hash_axioms;

    let days = sorted_days(m);
    proof {
        lemma_rising_holds(m@.dom());
        lemma_rising_length(days@);
    }
    let mut sum: i128 = 0;
    let mut i: usize = 0;
    while i < days.len()
        invariant
            i <= days.len(),
            days@ == rising(m@.dom()),
            days.len() <= 0x1_0000_0000,
            sum == minutes_over(m@, days@.take(i as int)),
            -(i as int) * 0x8000_0000_0000_0000 <= sum <= i as int * 0x8000_0000_0000_0000,
        decreases days.len() - i,
    {
        proof {
            assert(days@.take(i + 1).drop_last() =~= days@.take(i as int));
        }
        let minutes = match minutes_on(m, days[i]) {
            Some(minutes) => minutes,
            None => {
                proof {
                    lemma_rising_holds(m@.dom());
                    assert(days@.contains(days@[i as int]));
                }
                0
            },
        };
        sum = sum + minutes as i128;
        i += 1;
    }
    assert(days@.take(days.len() as int) =~= days@);
    sum
}

/// The rising list of the days of a map lists them.
pub proof fn lemma_rising_holds(dom: Set<i32>)
    requires
        dom.finite(),
    ensures
        is_rising(rising(dom), dom),
{
    lemma_rising_exists(dom);
}

/// Every finite set of days can be listed in rising order.
pub proof fn lemma_rising_exists(dom: Set<i32>)
    requires
        dom.finite(),
    ensures
        exists|days: Seq<i32>| is_rising(days, dom),
    decreases dom.len(),
{
    if dom.len() == 0 {
        let none = Seq::<i32>::empty();
        assert forall|d: i32| none.contains(d) <==> dom.contains(d) by {
            if dom.contains(d) {
                assert(dom.len() > 0) by {
                    vstd::set_lib::lemma_set_empty_equivalency_len(dom);
                }
            }
        }
        assert(is_rising(none, dom));
    } else {
        let top = lemma_greatest(dom);
        let rest = dom.remove(top);
        lemma_rising_exists(rest);
        let front = choose|days: Seq<i32>| is_rising(days, rest);
        let days = front.push(top);
        assert forall|i: int, j: int| 0 <= i < j < days.len() implies days[i] < days[j] by {
            assert(front.contains(front[i]));
            assert(rest.contains(front[i]));
            if j < front.len() {
                assert(front[i] < front[j]);
            }
        }
        assert forall|d: i32| days.contains(d) <==> dom.contains(d) by {
            if days.contains(d) {
                let k = choose|k: int| 0 <= k < days.len() && days[k] == d;
                if k < front.len() {
                    assert(front.contains(front[k]));
                }
            }
            if dom.contains(d) {
                if d == top {
                    assert(days[days.len() - 1] == d);
                } else {
                    assert(rest.contains(d));
                    let k = choose|k: int| 0 <= k < front.len() && front[k] == d;
                    assert(days[k] == d);
                }
            }
        }
        assert(is_rising(days, dom));
    }
}

/// A finite set of days that is not empty has a greatest day.
pub proof fn lemma_greatest(dom: Set<i32>) -> (top: i32)
    requires
        dom.finite(),
        dom.len() > 0,
    ensures
        dom.contains(top),
        forall|d: i32| dom.contains(d) ==> d <= top,
    decreases dom.len(),
{
    let x = dom.choose();
    let rest = dom.remove(x);
    if rest.len() == 0 {
        assert forall|d: i32| dom.contains(d) implies d <= x by {
            if d != x {
                assert(rest.contains(d));
                vstd::set_lib::lemma_set_empty_equivalency_len(rest);
            }
        }
        x
    } else {
        let y = lemma_greatest(rest);
        let top = if x > y {
            x
        } else {
            y
        };
        assert forall|d: i32| dom.contains(d) implies d <= top by {
            if d != x {
                assert(rest.contains(d));
            }
        }
        top
    }
}

/// A number of minutes as hundredths of an hour, rounded to the nearest.
pub fn to_hundredths(minutes: i64) -> (r: i128)
    ensures
        r == hundredths(minutes as int),
{
    let scaled: i128 = minutes as i128 * 100;
    if scaled >= 0 {
        (2 * scaled + 60) / 120
    } else {
        let flipped: i128 = -scaled;
        -((2 * flipped + 60) / 120)
    }
}

} // verus!
