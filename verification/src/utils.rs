//! Helpers around the server: time stamps, directory entries and lexical path handling.
use crate::calendar::{date_from_days, date_of, weekday_of};
use crate::path::{normal_form, normalized, slashed};
use crate::text::{
    chars_of, decimal, decimal_text, padded, push_char, push_padded, triples,
};
use vstd::prelude::*;
use vstd::string::*;

verus! {

/// Seconds in a day.
pub const DAY_SECONDS: u64 = 86400;

/// Three-letter English name of a day of the week, 0 for Sunday to 6 for Saturday.
pub open spec fn weekday_name(weekday: int) -> Seq<char> {
    if weekday == 0 {
        "Sun"@
    } else if weekday == 1 {
        "Mon"@
    } else if weekday == 2 {
        "Tue"@
    } else if weekday == 3 {
        "Wed"@
    } else if weekday == 4 {
        "Thu"@
    } else if weekday == 5 {
        "Fri"@
    } else {
        "Sat"@
    }
}

/// Three-letter English name of a month, 1 for January to 12 for December.
pub open spec fn month_name(month: int) -> Seq<char> {
    if month == 1 {
        "Jan"@
    } else if month == 2 {
        "Feb"@
    } else if month == 3 {
        "Mar"@
    } else if month == 4 {
        "Apr"@
    } else if month == 5 {
        "May"@
    } else if month == 6 {
        "Jun"@
    } else if month == 7 {
        "Jul"@
    } else if month == 8 {
        "Aug"@
    } else if month == 9 {
        "Sep"@
    } else if month == 10 {
        "Oct"@
    } else if month == 11 {
        "Nov"@
    } else {
        "Dec"@
    }
}

/// Time of day as `HH:MM:SS`, for the second `in_day` of a day.
pub open spec fn clock_text(in_day: nat) -> Seq<char> {
    padded(in_day / 3600, 2) + ":"@ + padded(in_day % 3600 / 60, 2) + ":"@ + padded(in_day % 60, 2)
}

/// The instant `secs` seconds after the epoch, as `Wkd, DD Mon YYYY HH:MM:SS GMT`.
pub open spec fn rfc_1123_text(secs: nat) -> Seq<char> {
    let days = (secs / 86400) as int;
    let date = date_of(days);
    weekday_name(weekday_of(days)) + ", "@ + padded(date.day as nat, 2) + " "@ + month_name(
        date.month as int,
    ) + " "@ + padded(date.year as nat, 4) + " "@ + clock_text(secs % 86400) + " GMT"@
}

/// The instant `secs` seconds after the epoch, as `YYYY-MM-DDTHH:MM:SSZ+` and the zone.
pub open spec fn rfc_8601_text(secs: nat, zone: Seq<char>) -> Seq<char> {
    let date = date_of((secs / 86400) as int);
    padded(date.year as nat, 4) + "-"@ + padded(date.month as nat, 2) + "-"@ + padded(
        date.day as nat,
        2,
    ) + "T"@ + clock_text(secs % 86400) + "Z+"@ + zone
}

/// Whether a directory entry of this name is shown: names that begin with a dot are not.
pub open spec fn is_visible_name(name: Seq<char>) -> bool {
    !(name.len() > 0 && name[0] == '.')
}

/// One entry of a directory, as it was read from the file system.
#[derive(Debug, Clone, PartialEq, Eq)]
pub struct FoundEntry {
    pub name: String,
    pub is_directory: bool,
    pub path: String,
}

/// What one entry of a directory holds, as mathematical values.
pub open spec fn found(entry: FoundEntry) -> (Seq<char>, bool, Seq<char>) {
    (entry.name@, entry.is_directory, entry.path@)
}

/// The path of an entry as it is listed: backslashes become slashes, and the path of a
/// directory ends in a slash.
pub open spec fn listed_path(path: Seq<char>, is_directory: bool) -> Seq<char> {
    let shown = slashed(path);
    if is_directory && !(shown.len() > 0 && shown.last() == '/') {
        shown.push('/')
    } else {
        shown
    }
}

/// An entry as it is listed: its kind, its name and its path.
pub open spec fn listed_entry(entry: (Seq<char>, bool, Seq<char>)) -> (
    Seq<char>,
    Seq<char>,
    Seq<char>,
) {
    (
        if entry.1 {
            "directory"@
        } else {
            "file"@
        },
        entry.0,
        listed_path(entry.2, entry.1),
    )
}

/// The entries that are listed: those with a visible name, in the order in which they
/// were found.
pub open spec fn listed(entries: Seq<FoundEntry>) -> Seq<(Seq<char>, Seq<char>, Seq<char>)>
    decreases entries.len(),
{
    if entries.len() == 0 {
        Seq::empty()
    } else if is_visible_name(entries.last().name@) {
        listed(entries.drop_last()).push(listed_entry(found(entries.last())))
    } else {
        listed(entries.drop_last())
    }
}

/// A point in time of the system clock: `std::time::SystemTime`. Nothing is known of what
/// it holds.
#[verifier::external_type_specification]
#[verifier::external_body]
pub struct ExSystemTime(std::time::SystemTime);

/// The failure of `SystemTime::duration_since`: `std::time::SystemTimeError`. Nothing is
/// known of what it holds.
#[verifier::external_type_specification]
#[verifier::external_body]
pub struct ExSystemTimeError(std::time::SystemTimeError);

/// Reads the system clock with `SystemTime::now`. Nothing is claimed of the value.
#[verifier::external_body]
fn system_now() -> (now: std::time::SystemTime) {
    std::time::SystemTime::now()
}

/// The time from the epoch to `now`, by `SystemTime::duration_since` against `UNIX_EPOCH`;
/// it fails where `now` lies before the epoch. Nothing is claimed of the value.
#[verifier::external_body]
fn since_epoch(now: &std::time::SystemTime) -> (elapsed: Result<
    std::time::Duration,
    std::time::SystemTimeError,
>) {
    now.duration_since(std::time::UNIX_EPOCH)
}

/// The whole seconds of a duration, by `Duration::as_secs`. Nothing is claimed of the
/// value.
#[verifier::external_body]
fn whole_seconds(elapsed: &std::time::Duration) -> (secs: u64) {
    elapsed.as_secs()
}

/// Whole seconds from the epoch to now, or nothing where the clock stands before the epoch.
fn clock_seconds() -> (now: Option<u64>) {
    match since_epoch(&system_now()) {
        Ok(elapsed) => Some(whole_seconds(&elapsed)),
        Err(_) => None,
    }
}

/// Name of the day of the week.
fn weekday_text(weekday: u64) -> (name: &'static str)
    requires
        weekday < 7,
    ensures
        name@ == weekday_name(weekday as int),
{
    match weekday {
        0 => "Sun",
        1 => "Mon",
        2 => "Tue",
        3 => "Wed",
        4 => "Thu",
        5 => "Fri",
        _ => "Sat",
    }
}

/// Name of the month.
fn month_text(month: u8) -> (name: &'static str)
    requires
        1 <= month <= 12,
    ensures
        name@ == month_name(month as int),
{
    match month {
        1 => "Jan",
        2 => "Feb",
        3 => "Mar",
        4 => "Apr",
        5 => "May",
        6 => "Jun",
        7 => "Jul",
        8 => "Aug",
        9 => "Sep",
        10 => "Oct",
        11 => "Nov",
        _ => "Dec",
    }
}

/// Appends the time of day `HH:MM:SS` to `out`.
fn push_clock(out: &mut String, in_day: u64)
    requires
        in_day < 86400,
    ensures
        final(out)@ == old(out)@ + clock_text(in_day as nat),
{
    push_padded(out, in_day / 3600, 2);
    out.append(":");
    push_padded(out, in_day % 3600 / 60, 2);
    out.append(":");
    push_padded(out, in_day % 60, 2);
    assert(out@ =~= old(out)@ + clock_text(in_day as nat));
}

/// The helpers, by name.
#[derive(Debug)]
pub struct Utils;

impl Utils {
    /// Whether a directory entry of this name is listed: hidden entries, whose names begin
    /// with a dot, are not.
    pub fn is_valid_entry(name: &str) -> (valid: bool)
        ensures
            valid == is_visible_name(name@),
    {
        let chars = chars_of(name);
        !(chars.len() > 0 && chars[0] == '.')
    }

    /// The entries of a directory that are listed, from the entries that were found in
    /// it: hidden ones are left out, and each of the others gives its kind (`directory` or
    /// `file`), its name, and its path with slashes, which ends in a slash for a directory.
    pub fn walk_dir(entries: &Vec<FoundEntry>) -> (results: Vec<(String, String, String)>)
        ensures
            triples(results@) == listed(entries@),
    {
        let mut results: Vec<(String, String, String)> = Vec::new();
        let mut i: usize = 0;
        assert(entries@.take(0).len() == 0);
        assert(triples(results@) == listed(entries@.take(0)));
        while i < entries.len()
            invariant
                i <= entries.len(),
                triples(results@) == listed(entries@.take(i as int)),
            decreases entries.len() - i,
        {
            let entry = &entries[i];
            assert(entries@.take(i + 1).drop_last() == entries@.take(i as int));
            assert(entries@.take(i + 1).last() == *entry);
            if Self::is_valid_entry(entry.name.as_str()) {
                let path = chars_of(entry.path.as_str());
                let mut shown = String::new();
                let mut j: usize = 0;
                while j < path.len()
                    invariant
                        j <= path.len(),
                        shown@ == slashed(path@.take(j as int)),
                    decreases path.len() - j,
                {
                    let c = path[j];
                    push_char(
                        &mut shown,
                        if c == '\\' {
                            '/'
                        } else {
                            c
                        },
                    );
                    assert(path@.take(j + 1) == path@.take(j as int).push(c));
                    j += 1;
                }
                assert(path@.take(path.len() as int) == path@);
                let ends_in_slash = path.len() > 0 && (path[path.len() - 1] == '/' || path[path.len()
                    - 1] == '\\');
                if entry.is_directory && !ends_in_slash {
                    push_char(&mut shown, '/');
                }
                assert(shown@ == listed_path(entry.path@, entry.is_directory));
                let kind = if entry.is_directory {
                    String::from_str("directory")
                } else {
                    String::from_str("file")
                };
                let ghost before = triples(results@);
                results.push((kind, entry.name.clone(), shown));
                assert(triples(results@) == before.push(listed_entry(found(*entry))));
            }
            i += 1;
        }
        assert(entries@.take(entries.len() as int) == entries@);
        results
    }

    /// The normal form of a path: `.` and empty segments are dropped, `..` takes the
    /// segment before it away (and is dropped where none is left), and backslashes become
    /// slashes. A leading slash stays.
    pub fn normalize_path(path: &str) -> (out: String)
        ensures
            out@ == normalized(path@),
    {
        normal_form(path)
    }

    /// The instant `secs` seconds after the epoch in the date format of RFC 1123.
    pub fn rfc_1123_at(secs: u64) -> (out: String)
        ensures
            out@ == rfc_1123_text(secs as nat),
    {
        let days: u64 = secs / DAY_SECONDS;
        let date = date_from_days(days);
        let mut out = String::new();
        out.append(weekday_text((days % 7 + 4) % 7));
        out.append(", ");
        push_padded(&mut out, date.day as u64, 2);
        out.append(" ");
        out.append(month_text(date.month));
        out.append(" ");
        push_padded(&mut out, date.year, 4);
        out.append(" ");
        push_clock(&mut out, secs % DAY_SECONDS);
        out.append(" GMT");
        assert(out@ =~= rfc_1123_text(secs as nat));
        out
    }

    /// The instant `secs` seconds after the epoch in the date format of ISO 8601, followed
    /// by `Z+` and the time zone as given.
    pub fn rfc_8601_at(secs: u64, zone: &str) -> (out: String)
        ensures
            out@ == rfc_8601_text(secs as nat, zone@),
    {
        let date = date_from_days(secs / DAY_SECONDS);
        let mut out = String::new();
        push_padded(&mut out, date.year, 4);
        out.append("-");
        push_padded(&mut out, date.month as u64, 2);
        out.append("-");
        push_padded(&mut out, date.day as u64, 2);
        out.append("T");
        push_clock(&mut out, secs % DAY_SECONDS);
        out.append("Z+");
        out.append(zone);
        assert(out@ =~= rfc_8601_text(secs as nat, zone@));
        out
    }

    /// What is written for a reading of the clock as a time stamp: the seconds in decimal,
    /// or the empty string where the clock gave none.
    pub fn timestamp_of(now: Option<u64>) -> (out: String)
        ensures
            out@ == (match now {
                Some(secs) => decimal(secs as nat),
                None => Seq::<char>::empty(),
            }),
    {
        match now {
            Some(secs) => decimal_text(secs),
            None => String::new(),
        }
    }

    /// What is written for a reading of the clock in the date format of ISO 8601: the date
    /// of the instant with the zone, or the empty string where the clock gave none.
    pub fn rfc_8601_of(now: Option<u64>, zone: &str) -> (out: String)
        ensures
            out@ == (match now {
                Some(secs) => rfc_8601_text(secs as nat, zone@),
                None => Seq::<char>::empty(),
            }),
    {
        match now {
            Some(secs) => Self::rfc_8601_at(secs, zone),
            None => String::new(),
        }
    }

    /// What is written for a reading of the clock in the date format of RFC 1123: the date
    /// of the instant, or the empty string where the clock gave none.
    pub fn rfc_1123_of(now: Option<u64>) -> (out: String)
        ensures
            out@ == (match now {
                Some(secs) => rfc_1123_text(secs as nat),
                None => Seq::<char>::empty(),
            }),
    {
        match now {
            Some(secs) => Self::rfc_1123_at(secs),
            None => String::new(),
        }
    }

    /// Seconds since the epoch in decimal, or the empty string where the clock stands
    /// before the epoch.
    pub fn unix_timestamp() -> (out: String)
        ensures
            out@.len() == 0 || exists|secs: u64| out@ == decimal(secs as nat),
    {
        Self::timestamp_of(clock_seconds())
    }

    /// The current time in the date format of ISO 8601 with the given time zone, or the
    /// empty string where the clock stands before the epoch.
    pub fn datetime_rfc_8601(zone: &str) -> (out: String)
        ensures
            out@.len() == 0 || exists|secs: u64| out@ == rfc_8601_text(secs as nat, zone@),
    {
        Self::rfc_8601_of(clock_seconds(), zone)
    }

    /// The current time in the date format of RFC 1123, or the empty string where the
    /// clock stands before the epoch.
    pub fn datetime_rfc_1123() -> (out: String)
        ensures
            out@.len() == 0 || exists|secs: u64| out@ == rfc_1123_text(secs as nat),
    {
        Self::rfc_1123_of(clock_seconds())
    }
}

} // verus!
