//! Where the tracker keeps its data, which of its monthly files matter for a
//! range of days, and how the tracker is asked for an export.
//!
//! Nothing here touches the disk. Whether a directory exists is found out by
//! whoever calls, and handed in.

use crate::calendar::{civil_day, day_of, day_text, write_day, DAY_END, ISO_DAY};
use crate::grouping::TimeData;
use crate::text::{occurs_in_range, texts, to_chars};
use vstd::prelude::*;
use vstd::string::StringExecFns;

verus! {

/// A range of days, both ends included.
#[derive(Debug, Clone, Copy, PartialEq, Eq, Structural)]
pub struct DateRange {
    pub start: i32,
    pub end: i32,
}

/// The directory in which the tracker's data is to be looked for.
#[derive(Debug, Clone, Copy, PartialEq, Eq, Structural)]
pub enum DataDir {
    /// The `timewarrior` directory under the platform's data directory.
    Standard,
    /// The `.timewarrior` directory under the home directory.
    Legacy,
    /// The standard directory, which has to be made first.
    CreateStandard,
}

/// Why no directory can be named.
#[derive(Debug, Clone, Copy, PartialEq, Eq, Structural)]
pub enum DataDirError {
    /// The home directory is not known.
    NoHomeDirectory,
    /// The platform's data directory is not known.
    NoDataDirectory,
}

/// Whether `c` is one of the digits `0` to `9`.
pub open spec fn is_digit(c: char) -> bool {
    0x30 <= c as u32 <= 0x39
}

/// The number that the digit `c` stands for.
pub open spec fn digit_value(c: char) -> int {
    c as u32 - 0x30
}

/// Whether `name` has the form `YYYY-MM.data`.
pub open spec fn is_month_file(name: Seq<char>) -> bool {
    &&& name.len() == 12
    &&& forall|i: int| 0 <= i < 4 ==> is_digit(#[trigger] name[i])
    &&& name[4] == '-'
    &&& is_digit(name[5])
    &&& is_digit(name[6])
    &&& name.skip(7) == ".data"@
}

/// The year in the name of a month file.
pub open spec fn file_year(name: Seq<char>) -> int {
    1000 * digit_value(name[0]) + 100 * digit_value(name[1]) + 10 * digit_value(name[2])
        + digit_value(name[3])
}

/// The month in the name of a month file.
pub open spec fn file_month(name: Seq<char>) -> int {
    10 * digit_value(name[5]) + digit_value(name[6])
}

/// The first day of a month, or `fallback` where there is no such month.
pub open spec fn month_start(year: int, month: int, fallback: i32) -> i32 {
    match civil_day(year as i32, month as u32, 1) {
        Some(day) => day,
        None => fallback,
    }
}

/// Whether the month of a file has a day in the range. A month that the
/// calendar does not have counts as beginning with the range and as ending
/// with it.
pub open spec fn month_in_range(year: int, month: int, range: DateRange) -> bool {
    let first = month_start(year, month, range.start);
    let next = if month == 12 {
        month_start(year + 1, 1, range.end)
    } else {
        month_start(year, month + 1, range.end)
    };
    !(next <= range.start || first > range.end)
}

/// Whether the file of the name `name` holds data of a month that has a day
/// in the range.
pub open spec fn file_in_range(name: Seq<char>, range: DateRange) -> bool {
    is_month_file(name) && month_in_range(file_year(name), file_month(name), range)
}

/// The directory to use, given whether the standard and the legacy directory
/// exist; `None` stands for a directory whose place is not known.
pub open spec fn chosen_dir(standard: Option<bool>, legacy: Option<bool>) -> Result<
    DataDir,
    DataDirError,
> {
    if standard == Some(true) {
        Ok(DataDir::Standard)
    } else if legacy is None {
        Err(DataDirError::NoHomeDirectory)
    } else if legacy == Some(true) {
        Ok(DataDir::Legacy)
    } else if standard is Some {
        Ok(DataDir::CreateStandard)
    } else {
        Err(DataDirError::NoDataDirectory)
    }
}

/// The path of the cache file, given the home directory and whether the
/// standard and the legacy directory of the tracker exist under it.
pub open spec fn cache_path_of(home: Option<Seq<char>>, standard: bool, legacy: bool) -> Seq<char> {
    match home {
        Some(h) => if !standard && legacy {
            h + "/.timewarrior/celoxis_cache.json"@
        } else {
            h + "/.local/share/timewarrior/celoxis_cache.json"@
        },
        None => "celoxis_cache.json"@,
    }
}

/// The number that a digit stands for; `None` for what is no digit.
fn digit_of(c: char) -> (r: Option<u32>)
    ensures
        match r {
            Some(d) => is_digit(c) && d == digit_value(c),
            None => !is_digit(c),
        },
{
    let n: u32 = c as u32;
    if 0x30 <= n && n <= 0x39 {
        Some(n - 0x30)
    } else {
        None
    }
}

/// The year and the month in `name`, where it has the form `YYYY-MM.data`.
pub fn read_month_file(name: &str) -> (r: Option<(i32, u32)>)
    ensures
        match r {
            Some((year, month)) => is_month_file(name@) && year == file_year(name@) && month
                == file_month(name@),
            None => !is_month_file(name@),
        },
{
    let v = to_chars(name);
    if v.len() != 12 {
        return None;
    }
    let tail = to_chars(".data");
    proof {
        reveal_strlit(".data");
        assert(v@.subrange(0, 12) =~= v@);
        assert(v@.subrange(7, 12) =~= v@.skip(7));
    }
    if !occurs_in_range(&v, 0, 12, &tail, 7) {
        return None;
    }
    if v[4] != '-' {
        return None;
    }
    let y0 = digit_of(v[0]);
    let y1 = digit_of(v[1]);
    let y2 = digit_of(v[2]);
    let y3 = digit_of(v[3]);
    let m0 = digit_of(v[5]);
    let m1 = digit_of(v[6]);
    match (y0, y1, y2, y3, m0, m1) {
        (Some(a), Some(b), Some(c), Some(d), Some(e), Some(f)) => {
            let year: u32 = 1000 * a + 100 * b + 10 * c + d;
            Some((year as i32, 10 * e + f))
        },
        _ => {
            assert(!is_month_file(name@)) by {
                if y0 is None {
                    assert(!is_digit(name@[0]));
                } else if y1 is None {
                    assert(!is_digit(name@[1]));
                } else if y2 is None {
                    assert(!is_digit(name@[2]));
                } else if y3 is None {
                    assert(!is_digit(name@[3]));
                }
            }
            None
        },
    }
}

impl TimeData {
    /// Whether the file of the name `filename` holds data of a month that has
    /// a day in the range. Only a name of the form `YYYY-MM.data` names such
    /// a file.
    pub fn is_file_in_date_range(filename: &str, range: &DateRange) -> (r: bool)
        ensures
            r == file_in_range(filename@, *range),
    {
        match read_month_file(filename) {
            None => false,
            Some((year, month)) => {
                let first = match day_of(year, month, 1) {
                    Some(day) => day,
                    None => range.start,
                };
                let after = if month == 12 {
                    day_of(year + 1, 1, 1)
                } else {
                    day_of(year, month + 1, 1)
                };
                let next = match after {
                    Some(day) => day,
                    None => range.end,
                };
                !(next <= range.start || first > range.end)
            },
        }
    }

    /// The day `date` as the tracker takes the start of a range: `None` where
    /// the day cannot be written.
    pub fn format_timewarrior_date_start(date: i32) -> (r: Option<String>)
        ensures
            r is Some == day_text(date, ISO_DAY@) is Some,
            r matches Some(s) ==> day_text(date, ISO_DAY@) == Some(s@),
    {
        write_day(date, ISO_DAY)
    }

    /// The last second of the day `date` as the tracker takes the end of a
    /// range: `None` where the day cannot be written.
    pub fn format_timewarrior_date_end(date: i32) -> (r: Option<String>)
        ensures
            r is Some == day_text(date, DAY_END@) is Some,
            r matches Some(s) ==> day_text(date, DAY_END@) == Some(s@),
    {
        write_day(date, DAY_END)
    }

    /// The arguments with which the tracker exports the intervals of the
    /// range: `export from <start> to <end>`. `None` where an end of the range
    /// cannot be written.
    pub fn export_arguments(range: &DateRange) -> (r: Option<Vec<String>>)
        ensures
            r is Some <==> day_text(range.start, ISO_DAY@) is Some && day_text(range.end, DAY_END@)
                is Some,
            r matches Some(args) ==> texts(args@) == seq![
                "export"@,
                "from"@,
                day_text(range.start, ISO_DAY@)->0,
                "to"@,
                day_text(range.end, DAY_END@)->0,
            ],
    {
        let start = match Self::format_timewarrior_date_start(range.start) {
            Some(s) => s,
            None => {
                return None;
            },
        };
        let end = match Self::format_timewarrior_date_end(range.end) {
            Some(s) => s,
            None => {
                return None;
            },
        };
        let mut args: Vec<String> = Vec::new();
        args.push("export".to_owned());
        args.push("from".to_owned());
        args.push(start);
        args.push("to".to_owned());
        args.push(end);
        assert(texts(args@) =~= seq![
            "export"@,
            "from"@,
            day_text(range.start, ISO_DAY@)->0,
            "to"@,
            day_text(range.end, DAY_END@)->0,
        ]);
        Some(args)
    }

    /// Chooses the directory of the tracker's data: the standard directory
    /// where it exists, else the legacy directory where that exists, else the
    /// standard directory, to be made. `standard` and `legacy` say whether
    /// the directory exists, and are `None` where the platform's data
    /// directory or the home directory is not known.
    pub fn detect_timewarrior_dir(standard: Option<bool>, legacy: Option<bool>) -> (r: Result<
        DataDir,
        DataDirError,
    >)
        ensures
            r == chosen_dir(standard, legacy),
    {
        match standard {
            Some(true) => {
                return Ok(DataDir::Standard);
            },
            _ => {},
        }
        match legacy {
            None => Err(DataDirError::NoHomeDirectory),
            Some(true) => Ok(DataDir::Legacy),
            Some(false) => match standard {
                Some(_) => Ok(DataDir::CreateStandard),
                None => Err(DataDirError::NoDataDirectory),
            },
        }
    }
}

/// The path of the cache file: beside the tracker's data, in the standard
/// directory unless only the legacy directory exists; in the working
/// directory where the home directory is not known.
pub fn cache_path(home: Option<&str>, standard: bool, legacy: bool) -> (r: String)
    ensures
        r@ == cache_path_of(
            match home {
                Some(h) => Some(h@),
                None => None,
            },
            standard,
            legacy,
        ),
{
    match home {
        Some(h) => {
            let mut out = h.to_owned();
            if !standard && legacy {
                out.append("/.timewarrior/celoxis_cache.json");
            } else {
                out.append("/.local/share/timewarrior/celoxis_cache.json");
            }
            out
        },
        None => "celoxis_cache.json".to_owned(),
    }
}

} // verus!
