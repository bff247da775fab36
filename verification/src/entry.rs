//! Tracked intervals, and the line form in which the tracker stores them.
//!
//! A line reads `inc <start> - <end> # "tag" "tag" ...`. Both instants are in
//! the compact UTC form; an interval that is still running ends in ` -` with
//! no `<end>` after it. The `#` and what follows it may be missing.

use crate::calendar::{naive_utc_instant, parse_naive_utc, Instant, COMPACT_UTC};
use crate::text::{
    find_in_range, first_occurrence, from_chars, has_prefix, has_suffix, is_blank,
    occurs_in_range, texts, to_chars, trim, trim_range,
};
use vstd::prelude::*;

verus! {

/// One tracked interval.
#[derive(Debug)]
pub struct TimeEntry {
    /// Identifies the interval within one run.
    pub id: String,
    /// When the interval began.
    pub start: Instant,
    /// When the interval ended; `None` while it is still running.
    pub end: Option<Instant>,
    /// The labels of the interval, in the order in which they were written.
    pub tags: Vec<String>,
    /// A free-text note.
    pub annotation: Option<String>,
    /// Whether the interval has been pushed upstream.
    pub submitted: bool,
    /// The remote record that holds the interval.
    pub celoxis_id: Option<String>,
}

/// What a `TimeEntry` holds, as mathematical values.
pub struct EntryView {
    pub id: Seq<char>,
    pub start: Instant,
    pub end: Option<Instant>,
    pub tags: Seq<Seq<char>>,
    pub annotation: Option<Seq<char>>,
    pub submitted: bool,
    pub celoxis_id: Option<Seq<char>>,
}

/// The view of a text that may be missing.
pub open spec fn opt_text(s: Option<String>) -> Option<Seq<char>> {
    match s {
        Some(t) => Some(t@),
        None => None,
    }
}

impl View for TimeEntry {
    type V = EntryView;

    open spec fn view(&self) -> EntryView {
        EntryView {
            id: self.id@,
            start: self.start,
            end: self.end,
            tags: texts(self.tags@),
            annotation: opt_text(self.annotation),
            submitted: self.submitted,
            celoxis_id: opt_text(self.celoxis_id),
        }
    }
}

/// A copy of `v` that holds the same texts.
pub fn clone_texts(v: &Vec<String>) -> (r: Vec<String>)
    ensures
        r@ == v@,
{
    let mut out: Vec<String> = Vec::new();
    let mut i: usize = 0;
    while i < v.len()
        invariant
            i <= v.len(),
            out@ == v@.take(i as int),
        decreases v.len() - i,
    {
        out.push(v[i].clone());
        assert(out@ =~= v@.take(i + 1));
        i += 1;
    }
    assert(v@.take(v.len() as int) =~= v@);
    out
}

/// A copy of a text that may be missing.
pub fn clone_opt_text(s: &Option<String>) -> (r: Option<String>)
    ensures
        r == *s,
{
    match s {
        Some(t) => Some(t.clone()),
        None => None,
    }
}

impl Clone for TimeEntry {
    fn clone(&self) -> (r: Self)
        ensures
            r@ == self@,
    {
        TimeEntry {
            id: self.id.clone(),
            start: self.start,
            end: self.end,
            tags: clone_texts(&self.tags),
            annotation: clone_opt_text(&self.annotation),
            submitted: self.submitted,
            celoxis_id: clone_opt_text(&self.celoxis_id),
        }
    }
}

/// The views of a sequence of entries.
pub open spec fn entry_views(v: Seq<TimeEntry>) -> Seq<EntryView> {
    v.map_values(|e: TimeEntry| e@)
}

/// Why a line is not an interval.
#[derive(Debug, Clone, Copy, PartialEq, Eq, Structural)]
pub enum EntryError {
    /// The line holds nothing but white space.
    EmptyLine,
    /// The line does not begin with `inc `.
    MissingPrefix,
    /// The interval is not of the form `<start> - <end>` or `<start> -`.
    InvalidTimestampFormat,
    /// The start is not an instant in the compact UTC form.
    InvalidStart,
    /// The end is not an instant in the compact UTC form.
    InvalidEnd,
}

/// The state of the tag scanner: the tags completed so far, the tag being
/// collected, and whether the scanner stands between two double quotes.
pub struct TagScan {
    pub done: Seq<Seq<char>>,
    pub current: Seq<char>,
    pub quoted: bool,
}

impl TagScan {
    /// The state before any character has been read.
    pub open spec fn start() -> TagScan {
        TagScan { done: Seq::empty(), current: Seq::empty(), quoted: false }
    }

    /// Completes the tag being collected, unless it is empty.
    pub open spec fn flush(self) -> TagScan {
        if self.current.len() > 0 {
            TagScan { done: self.done.push(self.current), current: Seq::empty(), ..self }
        } else {
            self
        }
    }

    /// The state after reading `c`. A double quote opens or closes a quoted
    /// stretch and is never part of a tag; a closing quote completes the tag.
    /// A space outside quotes completes the tag. Every other character, and a
    /// space inside quotes, joins the tag being collected.
    pub open spec fn step(self, c: char) -> TagScan {
        if c == '"' {
            if self.quoted {
                TagScan { quoted: false, ..self }.flush()
            } else {
                TagScan { quoted: true, ..self }
            }
        } else if c == ' ' && !self.quoted {
            self.flush()
        } else {
            TagScan { current: self.current.push(c), ..self }
        }
    }

    /// The state after reading all of `s`.
    pub open spec fn run(s: Seq<char>) -> TagScan
        decreases s.len(),
    {
        if s.len() == 0 {
            TagScan::start()
        } else {
            TagScan::run(s.drop_last()).step(s.last())
        }
    }

    /// Whether no tag of the state is empty or holds a double quote.
    pub open spec fn clean(self) -> bool {
        &&& forall|i: int|
            0 <= i < self.done.len() ==> (#[trigger] self.done[i]).len() > 0 && !self.done[i].contains(
                '"',
            )
        &&& !self.current.contains('"')
    }
}

/// The tags written in `s`.
pub open spec fn tags_of(s: Seq<char>) -> Seq<Seq<char>> {
    TagScan::run(s).flush().done
}

/// The text that opens every interval line.
pub open spec fn line_prefix() -> Seq<char> {
    seq!['i', 'n', 'c', ' ']
}

/// The text between the two instants of an interval.
pub open spec fn instant_separator() -> Seq<char> {
    seq![' ', '-', ' ']
}

/// The text that ends an interval which is still running.
pub open spec fn open_marker() -> Seq<char> {
    seq![' ', '-']
}

/// What follows the prefix of `line`, up to its first `#`, trimmed.
pub open spec fn interval_text(line: Seq<char>) -> Seq<char> {
    let body = line.skip(4);
    match first_occurrence(body, seq!['#']) {
        Some(i) => trim(body.take(i)),
        None => trim(body),
    }
}

/// What follows the first `#` of `line`, trimmed; `None` where the line has
/// no `#` after its prefix.
pub open spec fn tag_text(line: Seq<char>) -> Option<Seq<char>> {
    let body = line.skip(4);
    match first_occurrence(body, seq!['#']) {
        Some(i) => Some(trim(body.skip(i + 1))),
        None => None,
    }
}

/// The texts of the start and of the end of an interval, each trimmed. The
/// interval holds the separator exactly once, or holds it nowhere and ends
/// with the open marker; in the latter case the end is empty.
pub open spec fn instant_texts(interval: Seq<char>) -> Option<(Seq<char>, Seq<char>)> {
    match first_occurrence(interval, instant_separator()) {
        Some(i) => {
            if first_occurrence(interval.skip(i + 3), instant_separator()) is None {
                Some((trim(interval.take(i)), trim(interval.skip(i + 3))))
            } else {
                None
            }
        },
        None => {
            if has_suffix(interval, open_marker()) {
                Some((trim(interval.take(interval.len() - 2)), Seq::empty()))
            } else {
                None
            }
        },
    }
}

/// The entry that `line` describes, under the identifier `id`, or the reason
/// why it describes none.
pub open spec fn entry_of_line(line: Seq<char>, id: Seq<char>) -> Result<EntryView, EntryError> {
    if is_blank(line) {
        Err(EntryError::EmptyLine)
    } else if !has_prefix(line, line_prefix()) {
        Err(EntryError::MissingPrefix)
    } else {
        match instant_texts(interval_text(line)) {
            None => Err(EntryError::InvalidTimestampFormat),
            Some((first, second)) => match naive_utc_instant(first, COMPACT_UTC@) {
                None => Err(EntryError::InvalidStart),
                Some(start) => {
                    let end = if second.len() == 0 {
                        None
                    } else {
                        naive_utc_instant(second, COMPACT_UTC@)
                    };
                    if second.len() > 0 && end is None {
                        Err(EntryError::InvalidEnd)
                    } else {
                        Ok(
                            EntryView {
                                id,
                                start,
                                end,
                                tags: match tag_text(line) {
                                    Some(t) => tags_of(t),
                                    None => Seq::empty(),
                                },
                                annotation: None,
                                submitted: false,
                                celoxis_id: None,
                            },
                        )
                    }
                },
            },
        }
    }
}

/// Pushing a string onto a vector pushes its view onto the vector's texts.
pub proof fn lemma_texts_push(v: Seq<String>, s: String)
    ensures
        texts(v.push(s)) == texts(v).push(s@),
{
    assert(texts(v.push(s)) =~= texts(v).push(s@));
}

/// The scanner never completes an empty tag, and no tag holds a double quote.
pub proof fn lemma_scan_clean(s: Seq<char>)
    ensures
        TagScan::run(s).clean(),
        TagScan::run(s).flush().clean(),
    decreases s.len(),
{
    if s.len() > 0 {
        lemma_scan_clean(s.drop_last());
        let before = TagScan::run(s.drop_last());
        let c = s.last();
        let after = before.step(c);
        if c == '"' {
            if before.quoted {
                let closed = TagScan { quoted: false, ..before };
                assert(closed.clean());
            }
        } else if c == ' ' && !before.quoted {
        } else {
            assert forall|k: int| 0 <= k < after.current.len() implies after.current[k] != '"' by {
                if k < before.current.len() {
                    assert(before.current.contains(before.current[k]));
                }
            }
        }
        assert(after.clean());
    }
    let st = TagScan::run(s);
    assert(st.flush().clean());
}

/// The tags written in the range `lo..hi` of `v`.
pub(crate) fn scan_tags(v: &Vec<char>, lo: usize, hi: usize) -> (r: Vec<String>)
    requires
        lo <= hi <= v.len(),
    ensures
        texts(r@) == tags_of(v@.subrange(lo as int, hi as int)),
        forall|i: int| 0 <= i < r.len() ==> (#[trigger] r[i])@.len() > 0 && !r[i]@.contains('"'),
{
    let mut tags: Vec<String> = Vec::new();
    let mut current = String::new();
    let mut filled: bool = false;
    let mut quoted: bool = false;
    let mut i: usize = lo;
    assert(texts(tags@) =~= Seq::<Seq<char>>::empty());
    while i < hi
        invariant
            lo <= i <= hi <= v.len(),
            filled == (current@.len() > 0),
            TagScan::run(v@.subrange(lo as int, i as int)) == (TagScan {
                done: texts(tags@),
                current: current@,
                quoted,
            }),
        decreases hi - i,
    {
        let c = v[i];
        proof {
            assert(v@.subrange(lo as int, i + 1).drop_last() =~= v@.subrange(lo as int, i as int));
            lemma_texts_push(tags@, current);
        }
        if c == '"' {
            if quoted && filled {
                tags.push(current);
                current = String::new();
                filled = false;
            }
            quoted = !quoted;
        } else if c == ' ' && !quoted {
            if filled {
                tags.push(current);
                current = String::new();
                filled = false;
            }
        } else {
            current.push(c);
            filled = true;
        }
        i += 1;
    }
    proof {
        lemma_texts_push(tags@, current);
        lemma_scan_clean(v@.subrange(lo as int, hi as int));
    }
    if filled {
        tags.push(current);
    }
    proof {
        let done = tags_of(v@.subrange(lo as int, hi as int));
        assert forall|k: int| 0 <= k < tags.len() implies (#[trigger] tags[k])@.len() > 0
            && !tags[k]@.contains('"') by {
            assert(tags[k]@ == done[k]);
        }
    }
    tags
}

/// Finds the texts of the two instants in the range `lo..hi` of `v`, each as
/// a range of `v`.
pub(crate) fn locate_instants(v: &Vec<char>, lo: usize, hi: usize) -> (r: Option<
    (usize, usize, usize, usize),
>)
    requires
        lo <= hi <= v.len(),
    ensures
        match r {
            Some((sa, sb, ea, eb)) => {
                &&& lo <= sa <= sb <= hi
                &&& lo <= ea <= eb <= hi
                &&& instant_texts(v@.subrange(lo as int, hi as int)) == Some(
                    (v@.subrange(sa as int, sb as int), v@.subrange(ea as int, eb as int)),
                )
            },
            None => instant_texts(v@.subrange(lo as int, hi as int)) is None,
        },
{
    let ghost interval = v@.subrange(lo as int, hi as int);
    let sep: Vec<char> = vec![' ', '-', ' '];
    assert(sep@ =~= instant_separator());
    match find_in_range(v, lo, hi, &sep) {
        Some(i) => {
            proof {
                assert(interval.skip(i - lo + 3) =~= v@.subrange(i + 3, hi as int));
                assert(interval.take(i - lo) =~= v@.subrange(lo as int, i as int));
            }
            match find_in_range(v, i + 3, hi, &sep) {
                Some(_) => None,
                None => {
                    let (sa, sb) = trim_range(v, lo, i);
                    let (ea, eb) = trim_range(v, i + 3, hi);
                    Some((sa, sb, ea, eb))
                },
            }
        },
        None => {
            let marker: Vec<char> = vec![' ', '-'];
            assert(marker@ =~= open_marker());
            if hi - lo >= 2 && occurs_in_range(v, lo, hi, &marker, hi - 2) {
                proof {
                    assert(interval.take(interval.len() - 2) =~= v@.subrange(lo as int, hi - 2));
                    assert(v@.subrange(hi as int, hi as int) =~= Seq::<char>::empty());
                }
                let (sa, sb) = trim_range(v, lo, hi - 2);
                Some((sa, sb, hi, hi))
            } else {
                None
            }
        },
    }
}

/// Finds the interval text and the tag text of a line that begins with the
/// prefix: the first as a range of `v`, the second, where the line has a `#`,
/// by the index at which it begins.
pub(crate) fn locate_parts(v: &Vec<char>) -> (r: (usize, usize, Option<usize>))
    requires
        v.len() >= 4,
    ensures
        4 <= r.0 <= r.1 <= v.len(),
        v@.subrange(r.0 as int, r.1 as int) == interval_text(v@),
        match r.2 {
            Some(t) => t <= v.len() && tag_text(v@) == Some(
                trim(v@.subrange(t as int, v.len() as int)),
            ),
            None => tag_text(v@) is None,
        },
{
    let n = v.len();
    let ghost body = v@.skip(4);
    assert(v@.subrange(4, n as int) =~= body);
    let hash: Vec<char> = vec!['#'];
    assert(hash@ =~= seq!['#']);
    match find_in_range(v, 4, n, &hash) {
        Some(i) => {
            proof {
                assert(body.take(i - 4) =~= v@.subrange(4, i as int));
                assert(body.skip(i - 4 + 1) =~= v@.subrange(i + 1, n as int));
            }
            let (ia, ib) = trim_range(v, 4, i);
            (ia, ib, Some(i + 1))
        },
        None => {
            let (ia, ib) = trim_range(v, 4, n);
            (ia, ib, None)
        },
    }
}

/// Reads the range `lo..hi` of `v` as an instant in the compact UTC form.
pub(crate) fn read_instant(v: &Vec<char>, lo: usize, hi: usize) -> (r: Option<Instant>)
    requires
        lo <= hi <= v.len(),
    ensures
        r == naive_utc_instant(v@.subrange(lo as int, hi as int), COMPACT_UTC@),
{
    let text = from_chars(v, lo, hi);
    parse_naive_utc(text.as_str(), COMPACT_UTC)
}

impl TimeEntry {
    /// Reads one line of the tracker's data as an interval with the
    /// identifier `entry_id`. The entry carries no annotation and counts as
    /// not submitted.
    pub fn from_timewarrior(line: &str, entry_id: String) -> (r: Result<TimeEntry, EntryError>)
        ensures
            match r {
                Ok(entry) => entry_of_line(line@, entry_id@) == Ok::<EntryView, EntryError>(entry@),
                Err(e) => entry_of_line(line@, entry_id@) == Err::<EntryView, EntryError>(e),
            },
    {
        let v = to_chars(line);
        let n = v.len();
        assert(v@.subrange(0, n as int) =~= v@);
        let (a, b) = trim_range(&v, 0, n);
        if a == b {
            return Err(EntryError::EmptyLine);
        }
        let prefix: Vec<char> = vec!['i', 'n', 'c', ' '];
        assert(prefix@ =~= line_prefix());
        if !occurs_in_range(&v, 0, n, &prefix, 0) {
            return Err(EntryError::MissingPrefix);
        }
        let (ia, ib, tag_start) = locate_parts(&v);
        let (sa, sb, ea, eb) = match locate_instants(&v, ia, ib) {
            Some(found) => found,
            None => {
                return Err(EntryError::InvalidTimestampFormat);
            },
        };
        let start = match read_instant(&v, sa, sb) {
            Some(t) => t,
            None => {
                return Err(EntryError::InvalidStart);
            },
        };
        let end = if ea == eb {
            None
        } else {
            match read_instant(&v, ea, eb) {
                Some(t) => Some(t),
                None => {
                    return Err(EntryError::InvalidEnd);
                },
            }
        };
        let tags = match tag_start {
            Some(t) => {
                let (ta, tb) = trim_range(&v, t, n);
                scan_tags(&v, ta, tb)
            },
            None => {
                let none: Vec<String> = Vec::new();
                assert(texts(none@) =~= Seq::<Seq<char>>::empty());
                none
            },
        };
        Ok(
            TimeEntry {
                id: entry_id,
                start,
                end,
                tags,
                annotation: None,
                submitted: false,
                celoxis_id: None,
            },
        )
    }
}

} // verus!
