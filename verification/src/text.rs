//! Character-level text helpers shared by the parsers and the label builders.
//!
//! Text is modelled as `Seq<char>`. The executable functions work on a
//! `Vec<char>` and describe pieces of it by index ranges, so that no piece is
//! copied before it is needed as a `String`.

use vstd::prelude::*;
use vstd::string::StringExecFns;

verus! {

/// `String::push` appends one character.
pub assume_specification[ String::push ](s: &mut String, c: char)
    ensures
        final(s)@ == old(s)@.push(c),
;

/// Whether `c` carries the Unicode `White_Space` property.
pub open spec fn is_white_space(c: char) -> bool {
    let n = c as u32;
    ||| 0x09 <= n <= 0x0d
    ||| n == 0x20
    ||| n == 0x85
    ||| n == 0xa0
    ||| n == 0x1680
    ||| 0x2000 <= n <= 0x200a
    ||| n == 0x2028
    ||| n == 0x2029
    ||| n == 0x202f
    ||| n == 0x205f
    ||| n == 0x3000
}

/// `s` without its leading white space.
pub open spec fn trim_start(s: Seq<char>) -> Seq<char>
    decreases s.len(),
{
    if s.len() > 0 && is_white_space(s[0]) {
        trim_start(s.drop_first())
    } else {
        s
    }
}

/// `s` without its trailing white space.
pub open spec fn trim_end(s: Seq<char>) -> Seq<char>
    decreases s.len(),
{
    if s.len() > 0 && is_white_space(s.last()) {
        trim_end(s.drop_last())
    } else {
        s
    }
}

/// `s` without its leading and trailing white space.
pub open spec fn trim(s: Seq<char>) -> Seq<char> {
    trim_end(trim_start(s))
}

/// Whether `s` holds nothing but white space.
pub open spec fn is_blank(s: Seq<char>) -> bool {
    trim(s).len() == 0
}

/// Whether `pat` stands in `s` at index `i`.
pub open spec fn occurs_at(s: Seq<char>, pat: Seq<char>, i: int) -> bool {
    0 <= i && i + pat.len() <= s.len() && s.subrange(i, i + pat.len()) == pat
}

/// Whether `i` is the index of the leftmost occurrence of `pat` in `s`.
pub open spec fn is_first_occurrence(s: Seq<char>, pat: Seq<char>, i: int) -> bool {
    occurs_at(s, pat, i) && forall|j: int| 0 <= j < i ==> !occurs_at(s, pat, j)
}

/// The index of the leftmost occurrence of `pat` in `s`, if there is one.
pub open spec fn first_occurrence(s: Seq<char>, pat: Seq<char>) -> Option<int> {
    if exists|i: int| is_first_occurrence(s, pat, i) {
        Some(choose|i: int| is_first_occurrence(s, pat, i))
    } else {
        None
    }
}

/// Whether `s` begins with `prefix`.
pub open spec fn has_prefix(s: Seq<char>, prefix: Seq<char>) -> bool {
    occurs_at(s, prefix, 0)
}

/// Whether `s` ends with `suffix`.
pub open spec fn has_suffix(s: Seq<char>, suffix: Seq<char>) -> bool {
    occurs_at(s, suffix, s.len() - suffix.len())
}

/// The views of a sequence of strings.
pub open spec fn texts(v: Seq<String>) -> Seq<Seq<char>> {
    v.map_values(|s: String| s@)
}

/// A leftmost occurrence is unique, and it is the one `first_occurrence` names.
pub proof fn lemma_first_occurrence_is(s: Seq<char>, pat: Seq<char>, i: int)
    requires
        is_first_occurrence(s, pat, i),
    ensures
        first_occurrence(s, pat) == Some(i),
{
    let c = choose|k: int| is_first_occurrence(s, pat, k);
    assert(is_first_occurrence(s, pat, c));
    if c < i {
        assert(!occurs_at(s, pat, c));
    }
    if i < c {
        assert(!occurs_at(s, pat, i));
    }
}

/// Where `pat` occurs nowhere, there is no leftmost occurrence.
pub proof fn lemma_first_occurrence_none(s: Seq<char>, pat: Seq<char>)
    requires
        forall|j: int| !occurs_at(s, pat, j),
    ensures
        first_occurrence(s, pat) is None,
{
    assert forall|i: int| !is_first_occurrence(s, pat, i) by {
        assert(!occurs_at(s, pat, i));
    }
}

/// Tests a character for the Unicode `White_Space` property.
pub fn white_space(c: char) -> (r: bool)
    ensures
        r == is_white_space(c),
{
    let n: u32 = c as u32;
    (0x09 <= n && n <= 0x0d) || n == 0x20 || n == 0x85 || n == 0xa0 || n == 0x1680 || (0x2000 <= n
        && n <= 0x200a) || n == 0x2028 || n == 0x2029 || n == 0x202f || n == 0x205f || n == 0x3000
}

/// The characters of `s`, in order.
pub fn to_chars(s: &str) -> (r: Vec<char>)
    ensures
        r@ == s@,
{
    broadcast use vstd::string::group_string_axioms;

    let mut out: Vec<char> = Vec::new();
    for c in it: s.chars()
        invariant
            it.seq() == s@,
            out@ == s@.take(it.index()),
    {
        out.push(c);
    }
    out
}

/// The text that `v` holds from index `lo` up to, not including, `hi`.
pub(crate) fn from_chars(v: &Vec<char>, lo: usize, hi: usize) -> (r: String)
    requires
        lo <= hi <= v.len(),
    ensures
        r@ == v@.subrange(lo as int, hi as int),
{
    let mut out = String::new();
    let mut i: usize = lo;
    while i < hi
        invariant
            lo <= i <= hi <= v.len(),
            out@ == v@.subrange(lo as int, i as int),
        decreases hi - i,
    {
        out.push(v[i]);
        i += 1;
    }
    out
}

/// Narrows the range `lo..hi` of `v` to what `trim` leaves of it.
pub(crate) fn trim_range(v: &Vec<char>, lo: usize, hi: usize) -> (r: (usize, usize))
    requires
        lo <= hi <= v.len(),
    ensures
        lo <= r.0 <= r.1 <= hi,
        v@.subrange(r.0 as int, r.1 as int) == trim(v@.subrange(lo as int, hi as int)),
{
    let mut a: usize = lo;
    while a < hi && white_space(v[a])
        invariant
            lo <= a <= hi <= v.len(),
            trim_start(v@.subrange(lo as int, hi as int)) == trim_start(
                v@.subrange(a as int, hi as int),
            ),
        decreases hi - a,
    {
        assert(v@.subrange(a as int, hi as int).drop_first() =~= v@.subrange(a + 1, hi as int));
        a += 1;
    }
    let mut b: usize = hi;
    while a < b && white_space(v[b - 1])
        invariant
            a <= b <= hi <= v.len(),
            trim_end(v@.subrange(a as int, hi as int)) == trim_end(v@.subrange(a as int, b as int)),
        decreases b - a,
    {
        assert(v@.subrange(a as int, b as int).drop_last() =~= v@.subrange(a as int, b - 1));
        b -= 1;
    }
    (a, b)
}

/// Whether `pat` stands in the range `lo..hi` of `v` at offset `at - lo`.
pub(crate) fn occurs_in_range(v: &Vec<char>, lo: usize, hi: usize, pat: &Vec<char>, at: usize) -> (r:
    bool)
    requires
        lo <= at <= hi <= v.len(),
    ensures
        r == occurs_at(v@.subrange(lo as int, hi as int), pat@, at - lo),
{
    if pat.len() > hi - at {
        return false;
    }
    let ghost s = v@.subrange(lo as int, hi as int);
    let ghost w = s.subrange(at - lo, at - lo + pat.len());
    let mut k: usize = 0;
    while k < pat.len()
        invariant
            lo <= at <= hi <= v.len(),
            pat.len() <= hi - at,
            k <= pat.len(),
            s == v@.subrange(lo as int, hi as int),
            w == s.subrange(at - lo, at - lo + pat.len()),
            forall|j: int| 0 <= j < k ==> w[j] == pat@[j],
        decreases pat.len() - k,
    {
        if v[at + k] != pat[k] {
            assert(w[k as int] != pat@[k as int]);
            return false;
        }
        k += 1;
    }
    assert(w =~= pat@);
    true
}

/// The leftmost occurrence of `pat` in the range `lo..hi` of `v`, as an index
/// into `v`.
pub(crate) fn find_in_range(v: &Vec<char>, lo: usize, hi: usize, pat: &Vec<char>) -> (r: Option<usize>)
    requires
        lo <= hi <= v.len(),
    ensures
        match r {
            Some(i) => lo <= i && i + pat.len() <= hi && first_occurrence(
                v@.subrange(lo as int, hi as int),
                pat@,
            ) == Some(i - lo),
            None => first_occurrence(v@.subrange(lo as int, hi as int), pat@) is None,
        },
{
    let ghost s = v@.subrange(lo as int, hi as int);
    let mut i: usize = lo;
    while i < hi
        invariant
            lo <= i <= hi <= v.len(),
            s == v@.subrange(lo as int, hi as int),
            forall|j: int| 0 <= j < i - lo ==> !occurs_at(s, pat@, j),
        decreases hi - i,
    {
        if occurs_in_range(v, lo, hi, pat, i) {
            proof {
                lemma_first_occurrence_is(s, pat@, i - lo);
            }
            return Some(i);
        }
        i += 1;
    }
    if occurs_in_range(v, lo, hi, pat, hi) {
        proof {
            lemma_first_occurrence_is(s, pat@, hi - lo);
        }
        return Some(hi);
    }
    proof {
        lemma_first_occurrence_none(s, pat@);
    }
    None
}

/// The character that stands for the digit `d`.
pub open spec fn digit_char(d: int) -> char {
    (d + 0x30) as u8 as char
}

/// The decimal digits of `n`, without leading zeros.
pub open spec fn decimal(n: nat) -> Seq<char>
    decreases n,
{
    if n < 10 {
        seq![digit_char(n as int)]
    } else {
        decimal(n / 10).push(digit_char(n as int % 10))
    }
}

/// Writes `n` in decimal digits.
pub fn decimal_text(n: u128) -> (r: String)
    ensures
        r@ == decimal(n as nat),
    decreases n,
{
    let d: u8 = (n % 10) as u8;
    let c: char = (d + 0x30) as char;
    if n < 10 {
        let mut out = String::new();
        out.push(c);
        assert(out@ =~= seq![c]);
        out
    } else {
        let mut out = decimal_text(n / 10);
        out.push(c);
        out
    }
}

/// `a` followed by `b`.
pub fn concat(a: &str, b: &str) -> (r: String)
    ensures
        r@ == a@ + b@,
{
    let mut out = a.to_owned();
    out.append(b);
    out
}

/// Whether two texts are equal.
pub fn same_text(a: &str, b: &str) -> (r: bool)
    ensures
        r == (a@ == b@),
{
    let x = to_chars(a);
    let y = to_chars(b);
    if x.len() != y.len() {
        return false;
    }
    let mut i: usize = 0;
    while i < x.len()
        invariant
            i <= x.len(),
            x.len() == y.len(),
            x@ == a@,
            y@ == b@,
            forall|k: int| 0 <= k < i ==> x[k] == y[k],
        decreases x.len() - i,
    {
        if x[i] != y[i] {
            assert(a@[i as int] != b@[i as int]);
            return false;
        }
        i += 1;
    }
    assert(x@ =~= y@);
    true
}

/// `s` without its leading and trailing white space.
pub fn trimmed(s: &str) -> (r: String)
    ensures
        r@ == trim(s@),
{
    let v = to_chars(s);
    assert(v@.subrange(0, v.len() as int) =~= v@);
    let (a, b) = trim_range(&v, 0, v.len());
    from_chars(&v, a, b)
}

/// Whether `s` holds more than white space.
pub fn is_filled(s: &str) -> (r: bool)
    ensures
        r == !is_blank(s@),
{
    let v = to_chars(s);
    assert(v@.subrange(0, v.len() as int) =~= v@);
    let (a, b) = trim_range(&v, 0, v.len());
    a < b
}

/// Whether `i` is the least index at which `items` holds `x`.
pub open spec fn is_first_index(items: Seq<Seq<char>>, x: Seq<char>, i: int) -> bool {
    &&& 0 <= i < items.len()
    &&& items[i] == x
    &&& forall|j: int| 0 <= j < i ==> items[j] != x
}

/// The least index at which `items` holds `x`, if it holds it at all.
pub open spec fn first_index_of(items: Seq<Seq<char>>, x: Seq<char>) -> Option<int> {
    if exists|i: int| is_first_index(items, x, i) {
        Some(choose|i: int| is_first_index(items, x, i))
    } else {
        None
    }
}

/// A least index is the one `first_index_of` names.
pub proof fn lemma_first_index_is(items: Seq<Seq<char>>, x: Seq<char>, i: int)
    requires
        is_first_index(items, x, i),
    ensures
        first_index_of(items, x) == Some(i),
{
    let c = choose|k: int| is_first_index(items, x, k);
    assert(is_first_index(items, x, c));
    if c < i {
        assert(items[c] != x);
    }
    if i < c {
        assert(items[i] != x);
    }
}

/// Where `items` does not hold `x`, there is no least index.
pub proof fn lemma_first_index_none(items: Seq<Seq<char>>, x: Seq<char>)
    requires
        forall|j: int| 0 <= j < items.len() ==> items[j] != x,
    ensures
        first_index_of(items, x) is None,
{
}

/// What `first_index_of` names is a least index.
pub proof fn lemma_first_index_found(items: Seq<Seq<char>>, x: Seq<char>)
    ensures
        match first_index_of(items, x) {
            Some(i) => is_first_index(items, x, i),
            None => forall|j: int| 0 <= j < items.len() ==> items[j] != x,
        },
{
    if first_index_of(items, x) is None {
        assert forall|j: int| 0 <= j < items.len() implies items[j] != x by {
            if items[j] == x {
                lemma_some_first_index(items, x, j);
            }
        }
    }
}

/// Where `items` holds `x`, it holds it at a least index.
pub proof fn lemma_some_first_index(items: Seq<Seq<char>>, x: Seq<char>, j: int)
    requires
        0 <= j < items.len(),
        items[j] == x,
    ensures
        exists|i: int| is_first_index(items, x, i),
    decreases j,
{
    if exists|k: int| 0 <= k < j && items[k] == x {
        let k = choose|k: int| 0 <= k < j && items[k] == x;
        lemma_some_first_index(items, x, k);
    } else {
        assert(is_first_index(items, x, j));
    }
}

/// Where `items` holds nothing twice, the least index of what it holds at
/// `i` is `i`.
pub proof fn lemma_first_index_of_distinct(items: Seq<Seq<char>>, i: int)
    requires
        items.no_duplicates(),
        0 <= i < items.len(),
    ensures
        first_index_of(items, items[i]) == Some(i),
{
    lemma_first_index_is(items, items[i], i);
}

/// The least index at which `items` holds `x`.
pub fn index_of_text(items: &Vec<String>, x: &str) -> (r: Option<usize>)
    ensures
        match r {
            Some(i) => first_index_of(texts(items@), x@) == Some(i as int),
            None => first_index_of(texts(items@), x@) is None,
        },
{
    let mut i: usize = 0;
    while i < items.len()
        invariant
            i <= items.len(),
            forall|j: int| 0 <= j < i ==> texts(items@)[j] != x@,
        decreases items.len() - i,
    {
        if same_text(items[i].as_str(), x) {
            proof {
                lemma_first_index_is(texts(items@), x@, i as int);
            }
            return Some(i);
        }
        i += 1;
    }
    proof {
        lemma_first_index_none(texts(items@), x@);
    }
    None
}

} // verus!
