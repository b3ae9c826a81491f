//! Timestamps.
//!
//! The engine never reads the filesystem itself: the caller describes each
//! visited entry as an [`FsEntry`] holding the entry's path and its raw
//! timestamps in seconds since the epoch.  The engine picks one timestamp
//! according to the configured [`DateKind`], converts it to calendar fields
//! in the local time zone (through chrono), and renders it with the
//! configured `strftime`-style pattern (through chrono as well).

use vstd::prelude::*;

use chrono::Datelike;
use vstd::string::StrSliceExecFns;
use chrono::TimeZone;
use chrono::Timelike;
use std::fmt::Write;

use crate::structs::File;

verus! {

/// Which of a file's timestamps drives sorting.
#[derive(Clone, Copy, Debug, PartialEq, Eq, Structural)]
pub enum DateKind {
    /// Sort by modification time (`"m"`).
    Modified,
    /// Sort by access time (`"a"`).
    Accessed,
    /// Sort by creation time (`"c"`).
    Created,
}

/// The raw timestamps of one filesystem entry, in seconds since the epoch.
#[derive(Clone, Copy, Debug)]
pub struct EntryTimes {
    /// Modification time.
    pub modified: i64,
    /// Access time.
    pub accessed: i64,
    /// Creation time, when the platform exposes one.
    pub created: Option<i64>,
}

/// One visited filesystem entry, as the caller describes it to the engine.
#[derive(Debug)]
pub struct FsEntry {
    /// The entry's path.
    pub path: File,
    /// Whether the entry is a directory.
    pub is_dir: bool,
    /// The entry's timestamps; `None` when its metadata could not be read.
    pub times: Option<EntryTimes>,
}

/// A timestamp in the local time zone, split into calendar fields.
#[derive(Clone, Copy, Debug, PartialEq, Eq, Structural)]
pub struct LocalStamp {
    /// Proleptic Gregorian year.
    pub year: i32,
    /// Month, 1 to 12.
    pub month: u8,
    /// Day of month, 1 to 31.
    pub day: u8,
    /// Hour, 0 to 23.
    pub hour: u8,
    /// Minute, 0 to 59.
    pub minute: u8,
    /// Second, 0 to 59.
    pub second: u8,
}

/// The calendar fields a local timestamp can take.
pub open spec fn stamp_wf(t: LocalStamp) -> bool {
    &&& 1 <= t.month <= 12
    &&& 1 <= t.day <= 31
    &&& t.hour <= 23
    &&& t.minute <= 59
    &&& t.second <= 59
    &&& -262143 <= t.year <= 262142
}

/// The [`DateKind`] a date-type string selects: `"m"` is modification time,
/// `"a"` is access time, anything else is creation time.  The JSON
/// constructors admit only `"a"`, `"c"` and `"m"`; on a [`crate::Sorter`]
/// built directly, any other string falls back to creation time.
pub open spec fn date_kind_of(dt: Seq<char>) -> DateKind {
    if dt.len() == 1 && dt[0] == 'm' {
        DateKind::Modified
    } else if dt.len() == 1 && dt[0] == 'a' {
        DateKind::Accessed
    } else {
        DateKind::Created
    }
}

/// The [`DateKind`] selected by a date-type string.
pub fn parse_date_kind(dt: &str) -> (r: DateKind)
    ensures
        r == date_kind_of(dt@),
{
    let n = dt.unicode_len();
    if n == 1 {
        let c = dt.get_char(0);
        if c == 'm' {
            DateKind::Modified
        } else if c == 'a' {
            DateKind::Accessed
        } else {
            DateKind::Created
        }
    } else {
        DateKind::Created
    }
}

/// The timestamp of `t` selected by `k`: `None` exactly when creation time
/// is requested but the platform exposes none.
pub open spec fn resolve_secs_spec(t: EntryTimes, k: DateKind) -> Option<i64> {
    match k {
        DateKind::Modified => Some(t.modified),
        DateKind::Accessed => Some(t.accessed),
        DateKind::Created => t.created,
    }
}

/// The timestamp of `t` selected by `k`.
pub fn resolve_secs(t: &EntryTimes, k: DateKind) -> (r: Option<i64>)
    ensures
        r == resolve_secs_spec(*t, k),
{
    match k {
        DateKind::Modified => Some(t.modified),
        DateKind::Accessed => Some(t.accessed),
        DateKind::Created => t.created,
    }
}

/// Whether chrono can represent an epoch-seconds value as a date-time at
/// all: its range check depends on the value alone, not on the machine.
pub uninterp spec fn chrono_representable(secs: int) -> bool;

/// Relies on chrono's `TimeZone::timestamp_opt` on `Utc` and
/// `TimeZone::from_utc_datetime` on `Local`, with the `Datelike` and
/// `Timelike` field accessors.  `timestamp_opt` converts exactly the values
/// inside chrono's representable range ([`chrono_representable`] names that
/// range check, a function of `secs` alone); the local-zone conversion is
/// total.  Nothing is claimed of the fields: at the very edges of the
/// representable range the accessors can step one year beyond the
/// documented calendar range, and the whole result depends on the
/// machine's time zone.
#[verifier::external_body]
fn local_calendar_fields(secs: i64) -> (r: Option<LocalStamp>)
    ensures
        r is Some <==> chrono_representable(secs as int),
{
    match chrono::Utc.timestamp_opt(secs, 0) {
        chrono::MappedLocalTime::Single(dt) => {
            let local = chrono::Local.from_utc_datetime(&dt.naive_utc());
            let (year, month, day) = (local.year(), local.month() as u8, local.day() as u8);
            let (hour, minute, second) =
                (local.hour() as u8, local.minute() as u8, local.second() as u8);
            Some(LocalStamp { year, month, day, hour, minute, second })
        },
        _ => None,
    }
}

/// Whether the calendar fields of `t` are well-formed.
fn stamp_wf_check(t: &LocalStamp) -> (r: bool)
    ensures
        r == stamp_wf(*t),
{
    1 <= t.month && t.month <= 12 && 1 <= t.day && t.day <= 31 && t.hour <= 23 && t.minute <= 59
        && t.second <= 59 && -262143 <= t.year && t.year <= 262142
}

/// The local calendar fields of the epoch-seconds value `secs`, validated:
/// `None` when chrono cannot represent the value, or when the converted
/// fields fall outside the well-formed calendar ranges (which chrono's
/// accessors allow only at the very edges of its representable range).
pub(crate) fn local_stamp_of(secs: i64) -> (r: Option<LocalStamp>)
    ensures
        r matches Some(t) ==> stamp_wf(t) && chrono_representable(secs as int),
        !chrono_representable(secs as int) ==> r is None,
{
    match local_calendar_fields(secs) {
        Some(t) => {
            if stamp_wf_check(&t) {
                Some(t)
            } else {
                None
            }
        },
        None => None,
    }
}

/// What chrono renders for the given calendar fields and `strftime`-style
/// pattern: `None` when the pattern cannot be rendered (or the fields form
/// no valid date), the rendered characters otherwise.
pub uninterp spec fn rendered_of(
    year: int,
    month: int,
    day: int,
    hour: int,
    minute: int,
    second: int,
    fmt: Seq<char>,
) -> Option<Seq<char>>;

/// [`rendered_of`] applied to the fields of one [`LocalStamp`].
pub open spec fn stamp_rendered(t: LocalStamp, fmt: Seq<char>) -> Option<Seq<char>> {
    rendered_of(
        t.year as int,
        t.month as int,
        t.day as int,
        t.hour as int,
        t.minute as int,
        t.second as int,
        fmt,
    )
}

/// Relies on chrono's `NaiveDate::from_ymd_opt`, `NaiveDate::and_hms_opt`,
/// `NaiveDateTime::format` and `DelayedFormat::write_to`: what chrono
/// renders for a naive date-time depends on its calendar fields and the
/// pattern alone, and rendering fails exactly when the fields form no valid
/// date or the pattern holds an item chrono cannot render without a time
/// zone.  [`rendered_of`] names that rendering.
#[verifier::external_body]
pub(crate) fn render_stamp(t: &LocalStamp, fmt: &str) -> (r: Option<String>)
    ensures
        match r {
            Some(s) => rendered_of(
                t.year as int,
                t.month as int,
                t.day as int,
                t.hour as int,
                t.minute as int,
                t.second as int,
                fmt@,
            ) == Some(s@),
            None => rendered_of(
                t.year as int,
                t.month as int,
                t.day as int,
                t.hour as int,
                t.minute as int,
                t.second as int,
                fmt@,
            ) is None,
        },
{
    let date = chrono::NaiveDate::from_ymd_opt(t.year, t.month as u32, t.day as u32)?;
    let dt = date.and_hms_opt(t.hour as u32, t.minute as u32, t.second as u32)?;
    let mut out = String::new();
    match write!(out, "{}", dt.format(fmt)) {
        Ok(()) => Some(out),
        Err(_) => None,
    }
}

} // verus!
