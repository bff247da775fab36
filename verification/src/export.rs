//! The tracker's export: a JSON array with one object for each interval.
//!
//! An object holds `start`, and may hold `end`, `tags` and `annotation`. An
//! instant is written as RFC 3339 or in the compact UTC form. A record that
//! cannot be read is set aside with the reason, and reading goes on.

use crate::calendar::{
    naive_utc_instant, parse_naive_utc, parse_rfc3339, rfc3339_instant, Instant, COMPACT_UTC,
};
use crate::entry::{entry_views, EntryView, TimeEntry};
use crate::text::{concat, decimal, decimal_text, same_text, texts};
use vstd::prelude::*;

verus! {

/// A JSON document as this library reads it.
#[derive(Debug, PartialEq, Eq)]
pub enum JsonValue {
    Null,
    Bool(bool),
    /// A number, in the digits in which `serde_json` writes it.
    Number(String),
    Text(String),
    Array(Vec<JsonValue>),
    /// The members of an object, each with its name.
    Object(Vec<(String, JsonValue)>),
}

/// `serde_json::Value`, which is handed on without a look inside.
#[verifier::external_type_specification]
#[verifier::external_body]
pub struct ExJson(serde_json::Value);

/// The document that `serde_json` reads from `text`; `None` where it rejects
/// the text.
pub uninterp spec fn json_document(text: Seq<char>) -> Option<JsonValue>;

/// Turns a value of `serde_json` into a `JsonValue`, variant by variant; the
/// members of an object come in the order in which `serde_json` hands them
/// out. Nothing is claimed of the result.
#[verifier::external_body]
fn lift_json(value: serde_json::Value) -> JsonValue {
    match value {
        serde_json::Value::Null => JsonValue::Null,
        serde_json::Value::Bool(b) => JsonValue::Bool(b),
        serde_json::Value::Number(n) => JsonValue::Number(n.to_string()),
        serde_json::Value::String(s) => JsonValue::Text(s),
        serde_json::Value::Array(a) => JsonValue::Array(a.into_iter().map(lift_json).collect()),
        serde_json::Value::Object(m) => JsonValue::Object(
            m.into_iter().map(|(k, v)| (k, lift_json(v))).collect(),
        ),
    }
}

/// Calls `serde_json::from_str` for a `serde_json::Value` and hands the value
/// on as a `JsonValue`. The contract only names the outcome.
#[verifier::external_body]
pub(crate) fn decode_json(text: &str) -> (r: Option<JsonValue>)
    ensures
        r == json_document(text@),
{
    serde_json::from_str::<serde_json::Value>(text).ok().map(lift_json)
}

/// Why a record of the export is not an interval.
#[derive(Debug, Clone, Copy, PartialEq, Eq, Structural)]
pub enum RecordError {
    /// The record is not an object.
    InvalidEntryFormat,
    /// The record has no `start`, or its `start` is not a text.
    MissingStart,
    /// The `start` is not an instant.
    InvalidStart,
    /// The `end` is not a text.
    EndNotText,
    /// The `end` is not an instant.
    InvalidEnd,
}

/// Why an export cannot be read at all.
#[derive(Debug, Clone, Copy, PartialEq, Eq, Structural)]
pub enum ExportError {
    /// The text is not JSON.
    NotJson,
    /// The document is not an array.
    NotAnArray,
}

/// What was read from an export: the intervals, in the order of their
/// records, and the records that were set aside, each with its index in the
/// export and the reason.
#[derive(Debug)]
pub struct ExportReading {
    pub entries: Vec<TimeEntry>,
    pub rejected: Vec<(usize, RecordError)>,
}

/// The member of the name `name` that comes first in `members`.
pub open spec fn member(members: Seq<(String, JsonValue)>, name: Seq<char>) -> Option<JsonValue>
    decreases members.len(),
{
    if members.len() == 0 {
        None
    } else if members[0].0@ == name {
        Some(members[0].1)
    } else {
        member(members.drop_first(), name)
    }
}

/// The text that `value` is, where it is one.
pub open spec fn text_of(value: JsonValue) -> Option<Seq<char>> {
    match value {
        JsonValue::Text(s) => Some(s@),
        _ => None,
    }
}

/// The texts among `items`, in their order.
pub open spec fn text_items(items: Seq<JsonValue>) -> Seq<Seq<char>>
    decreases items.len(),
{
    if items.len() == 0 {
        Seq::empty()
    } else {
        match items.last() {
            JsonValue::Text(s) => text_items(items.drop_last()).push(s@),
            _ => text_items(items.drop_last()),
        }
    }
}

/// The instant written in `text`: as RFC 3339 where `text` is that, else in
/// the compact UTC form.
pub open spec fn instant_of(text: Seq<char>) -> Option<Instant> {
    match rfc3339_instant(text) {
        Some(t) => Some(t),
        None => naive_utc_instant(text, COMPACT_UTC@),
    }
}

/// The tags of a record: the texts in its `tags`, where that is an array.
pub open spec fn tags_of_record(members: Seq<(String, JsonValue)>) -> Seq<Seq<char>> {
    match member(members, "tags"@) {
        Some(JsonValue::Array(items)) => text_items(items@),
        _ => Seq::empty(),
    }
}

/// The note of a record: its `annotation`, where that is a text.
pub open spec fn annotation_of_record(members: Seq<(String, JsonValue)>) -> Option<Seq<char>> {
    match member(members, "annotation"@) {
        Some(value) => text_of(value),
        None => None,
    }
}

/// The interval that the record at index `index` describes, or the reason
/// why it describes none.
pub open spec fn entry_of_record(record: JsonValue, index: nat) -> Result<EntryView, RecordError> {
    match record {
        JsonValue::Object(members) => {
            let start_text = match member(members@, "start"@) {
                Some(value) => text_of(value),
                None => None,
            };
            match start_text {
                None => Err(RecordError::MissingStart),
                Some(st) => match instant_of(st) {
                    None => Err(RecordError::InvalidStart),
                    Some(start) => match member(members@, "end"@) {
                        None => Ok(record_entry(members@, index, start, None)),
                        Some(value) => match text_of(value) {
                            None => Err(RecordError::EndNotText),
                            Some(et) => match instant_of(et) {
                                None => Err(RecordError::InvalidEnd),
                                Some(end) => Ok(record_entry(members@, index, start, Some(end))),
                            },
                        },
                    },
                },
            }
        },
        _ => Err(RecordError::InvalidEntryFormat),
    }
}

/// The interval of a record whose instants have been read.
pub open spec fn record_entry(
    members: Seq<(String, JsonValue)>,
    index: nat,
    start: Instant,
    end: Option<Instant>,
) -> EntryView {
    EntryView {
        id: "export-"@ + decimal(index),
        start,
        end,
        tags: tags_of_record(members),
        annotation: annotation_of_record(members),
        submitted: false,
        celoxis_id: None,
    }
}

/// The intervals of the first `n` records, in the order of the records.
pub open spec fn entries_below(records: Seq<JsonValue>, n: nat) -> Seq<EntryView>
    decreases n,
{
    if n == 0 {
        Seq::empty()
    } else {
        let rest = entries_below(records, (n - 1) as nat);
        match entry_of_record(records[n - 1], (n - 1) as nat) {
            Ok(entry) => rest.push(entry),
            Err(_) => rest,
        }
    }
}

/// The records among the first `n` that are set aside, each with its index
/// and the reason, in the order of the records.
pub open spec fn rejected_below(records: Seq<JsonValue>, n: nat) -> Seq<(usize, RecordError)>
    decreases n,
{
    if n == 0 {
        Seq::empty()
    } else {
        let rest = rejected_below(records, (n - 1) as nat);
        match entry_of_record(records[n - 1], (n - 1) as nat) {
            Ok(_) => rest,
            Err(e) => rest.push(((n - 1) as usize, e)),
        }
    }
}

/// Whether `reading` is what the array `records` holds.
pub open spec fn reads_records(reading: ExportReading, records: Seq<JsonValue>) -> bool {
    &&& entry_views(reading.entries@) == entries_below(records, records.len())
    &&& reading.rejected@ == rejected_below(records, records.len())
}

/// What the document `doc` holds, or why it is no export.
pub open spec fn reads_document(
    r: Result<ExportReading, ExportError>,
    doc: Option<JsonValue>,
) -> bool {
    match doc {
        None => r == Err::<ExportReading, ExportError>(ExportError::NotJson),
        Some(JsonValue::Array(records)) => r matches Ok(reading) && reads_records(
            reading,
            records@,
        ),
        Some(_) => r == Err::<ExportReading, ExportError>(ExportError::NotAnArray),
    }
}

/// Looks a member up by its name.
pub fn find_member<'a>(members: &'a Vec<(String, JsonValue)>, name: &str) -> (r: Option<
    &'a JsonValue,
>)
    ensures
        match r {
            Some(value) => member(members@, name@) == Some(*value),
            None => member(members@, name@) is None,
        },
{
    let mut i: usize = 0;
    assert(members@.skip(0) =~= members@);
    while i < members.len()
        invariant
            i <= members.len(),
            member(members@, name@) == member(members@.skip(i as int), name@),
        decreases members.len() - i,
    {
        proof {
            assert(members@.skip(i as int).drop_first() =~= members@.skip(i + 1));
        }
        if same_text(members[i].0.as_str(), name) {
            return Some(&members[i].1);
        }
        i += 1;
    }
    None
}

/// The text that `value` is, where it is one.
pub fn as_text(value: &JsonValue) -> (r: Option<&String>)
    ensures
        match r {
            Some(s) => text_of(*value) == Some(s@),
            None => text_of(*value) is None,
        },
{
    match value {
        JsonValue::Text(s) => Some(s),
        _ => None,
    }
}

/// Reads an instant: as RFC 3339 where the text is that, else in the compact
/// UTC form.
pub fn read_instant_text(text: &str) -> (r: Option<Instant>)
    ensures
        r == instant_of(text@),
{
    match parse_rfc3339(text) {
        Some(t) => Some(t),
        None => parse_naive_utc(text, COMPACT_UTC),
    }
}

/// Copies the texts among `items`.
pub fn collect_texts(items: &Vec<JsonValue>) -> (r: Vec<String>)
    ensures
        texts(r@) == text_items(items@),
{
    let mut out: Vec<String> = Vec::new();
    let mut i: usize = 0;
    assert(texts(out@) =~= text_items(items@.take(0)));
    while i < items.len()
        invariant
            i <= items.len(),
            texts(out@) == text_items(items@.take(i as int)),
        decreases items.len() - i,
    {
        proof {
            assert(items@.take(i + 1).drop_last() =~= items@.take(i as int));
        }
        match &items[i] {
            JsonValue::Text(s) => {
                proof {
                    crate::entry::lemma_texts_push(out@, *s);
                }
                out.push(s.clone());
            },
            _ => {},
        }
        i += 1;
    }
    assert(items@.take(items.len() as int) =~= items@);
    out
}

/// Reads the record at index `index` of an export.
pub fn read_record(record: &JsonValue, index: usize) -> (r: Result<TimeEntry, RecordError>)
    ensures
        match r {
            Ok(entry) => entry_of_record(*record, index as nat) == Ok::<EntryView, RecordError>(
                entry@,
            ),
            Err(e) => entry_of_record(*record, index as nat) == Err::<EntryView, RecordError>(e),
        },
{
    let members = match record {
        JsonValue::Object(members) => members,
        _ => {
            return Err(RecordError::InvalidEntryFormat);
        },
    };
    let start_text = match find_member(members, "start") {
        Some(value) => as_text(value),
        None => None,
    };
    let start = match start_text {
        None => {
            return Err(RecordError::MissingStart);
        },
        Some(text) => match read_instant_text(text.as_str()) {
            None => {
                return Err(RecordError::InvalidStart);
            },
            Some(t) => t,
        },
    };
    let end = match find_member(members, "end") {
        None => None,
        Some(value) => match as_text(value) {
            None => {
                return Err(RecordError::EndNotText);
            },
            Some(text) => match read_instant_text(text.as_str()) {
                None => {
                    return Err(RecordError::InvalidEnd);
                },
                Some(t) => Some(t),
            },
        },
    };
    let tags = match find_member(members, "tags") {
        Some(JsonValue::Array(items)) => collect_texts(items),
        _ => {
            let none: Vec<String> = Vec::new();
            assert(texts(none@) =~= Seq::<Seq<char>>::empty());
            none
        },
    };
    let annotation = match find_member(members, "annotation") {
        Some(value) => match as_text(value) {
            Some(s) => Some(s.clone()),
            None => None,
        },
        None => None,
    };
    let number = decimal_text(index as u128);
    Ok(
        TimeEntry {
            id: concat("export-", number.as_str()),
            start,
            end,
            tags,
            annotation,
            submitted: false,
            celoxis_id: None,
        },
    )
}

/// Reads the records of an export, setting aside those that are no
/// intervals.
pub fn read_records(records: &Vec<JsonValue>) -> (r: ExportReading)
    ensures
        reads_records(r, records@),
{
    let mut entries: Vec<TimeEntry> = Vec::new();
    let mut rejected: Vec<(usize, RecordError)> = Vec::new();
    let mut i: usize = 0;
    assert(entry_views(entries@) =~= entries_below(records@, 0));
    while i < records.len()
        invariant
            i <= records.len(),
            entry_views(entries@) == entries_below(records@, i as nat),
            rejected@ == rejected_below(records@, i as nat),
        decreases records.len() - i,
    {
        match read_record(&records[i], i) {
            Ok(entry) => {
                proof {
                    assert(entry_views(entries@.push(entry)) =~= entry_views(entries@).push(
                        entry@,
                    ));
                }
                entries.push(entry);
            },
            Err(e) => {
                rejected.push((i, e));
            },
        }
        i += 1;
    }
    ExportReading { entries, rejected }
}

/// Reads a document as an export.
pub fn read_document(doc: Option<JsonValue>) -> (r: Result<ExportReading, ExportError>)
    ensures
        reads_document(r, doc),
{
    match doc {
        None => Err(ExportError::NotJson),
        Some(JsonValue::Array(records)) => Ok(read_records(&records)),
        Some(_) => Err(ExportError::NotAnArray),
    }
}

impl crate::grouping::TimeData {
    /// Reads the text of an export: the intervals it holds, in the order of
    /// their records and each named `export-` and the index of its record,
    /// and the records that are no intervals.
    pub fn read_time_entries(export: &str) -> (r: Result<ExportReading, ExportError>)
        ensures
            reads_document(r, json_document(export@)),
    {
        read_document(decode_json(export))
    }

    /// Takes the intervals of an export in the place of those held, and
    /// hands back the records that were set aside. Where the export cannot
    /// be read at all, the intervals held stay as they are.
    pub fn filter_by_date_range(&mut self, export: &str) -> (r: Result<
        Vec<(usize, RecordError)>,
        ExportError,
    >)
        ensures
            match (r, json_document(export@)) {
                (Ok(rejected), Some(JsonValue::Array(records))) => {
                    &&& entry_views(final(self).entries@) == entries_below(
                        records@,
                        records@.len(),
                    )
                    &&& rejected@ == rejected_below(records@, records@.len())
                },
                (Err(e), None) => e == ExportError::NotJson && *final(self) == *old(self),
                (Err(e), Some(doc)) => {
                    &&& e == ExportError::NotAnArray
                    &&& !(doc is Array)
                    &&& *final(self) == *old(self)
                },
                _ => false,
            },
    {
        match Self::read_time_entries(export) {
            Ok(reading) => {
                self.entries = reading.entries;
                Ok(reading.rejected)
            },
            Err(e) => Err(e),
        }
    }
}

} // verus!
