//! Calendar days: naming each day's log file and deciding which old logs
//! fall out of the retention window. A day is counted from the common era,
//! January 1 of year 1 being day 1.
use vstd::prelude::*;

verus! {

/// The name of a day's log file, as a date format.
pub const LOG_FILE_FORMAT: &'static str = "%b-%d-%Y.csv";

/// How many days of logs are kept.
pub const RETENTION_DAYS: i32 = 14;

/// The day that `s` names in the date format `fmt`, if it names one.
pub uninterp spec fn parsed_day(s: Seq<char>, fmt: Seq<char>) -> Option<i32>;

/// The text of day `day` in the date format `fmt`, if the day is in range.
pub uninterp spec fn formatted_day(day: i32, fmt: Seq<char>) -> Option<Seq<char>>;

/// Relies on chrono's `NaiveDate::parse_from_str`, with the date read as a
/// day number by `Datelike::num_days_from_ce`.
#[verifier::external_body]
fn parse_day(s: &str, fmt: &str) -> (r: Option<i32>)
    ensures
        r == parsed_day(s@, fmt@),
{
    chrono::NaiveDate::parse_from_str(s, fmt).ok().map(|d| chrono::Datelike::num_days_from_ce(&d))
}

/// Relies on chrono's `NaiveDate::from_num_days_from_ce_opt` and
/// `NaiveDate::format`; the log file format is one that formats without
/// error.
#[verifier::external_body]
fn format_day(day: i32, fmt: &str) -> (r: Option<String>)
    requires
        fmt@ == LOG_FILE_FORMAT@,
    ensures
        r matches Some(s) ==> formatted_day(day, fmt@) == Some(s@),
        r is None ==> formatted_day(day, fmt@) is None,
{
    chrono::NaiveDate::from_num_days_from_ce_opt(day).map(|d| d.format(fmt).to_string())
}

/// Whether a log of day `file_day` is older than the retention window
/// allows on day `today`.
pub open spec fn is_expired(file_day: Option<i32>, today: i32) -> bool {
    match file_day {
        Some(d) => d < today - RETENTION_DAYS,
        None => false,
    }
}

/// Whether the file called `name` is a log that has fallen out of the
/// retention window on day `today`.
pub open spec fn is_expired_log_name(name: Seq<char>, today: i32) -> bool {
    is_expired(parsed_day(name, LOG_FILE_FORMAT@), today)
}

/// The names among `names`, in order, of logs that are due for removal.
pub open spec fn expired_names(names: Seq<Seq<char>>, today: i32) -> Seq<Seq<char>>
    decreases names.len(),
{
    if names.len() == 0 {
        Seq::empty()
    } else {
        let r = expired_names(names.drop_last(), today);
        if is_expired_log_name(names.last(), today) {
            r.push(names.last())
        } else {
            r
        }
    }
}

/// The text of each string.
pub open spec fn views(v: Seq<String>) -> Seq<Seq<char>> {
    v.map_values(|s: String| s@)
}

/// The name of the log file of day `day`, if the day is in the calendar's
/// range.
pub fn log_file_name(day: i32) -> (r: Option<String>)
    ensures
        r matches Some(s) ==> formatted_day(day, LOG_FILE_FORMAT@) == Some(s@),
        r is None ==> formatted_day(day, LOG_FILE_FORMAT@) is None,
{
    format_day(day, LOG_FILE_FORMAT)
}

/// Whether a log of day `file_day` (`None` for a file that is no log) is
/// older than the retention window allows on day `today`.
pub fn is_expired_day(file_day: Option<i32>, today: i32) -> (r: bool)
    ensures
        r == is_expired(file_day, today),
{
    match file_day {
        Some(d) => (d as i64) < (today as i64) - (RETENTION_DAYS as i64),
        None => false,
    }
}

/// Whether the file called `name` is a log that has fallen out of the
/// retention window on day `today`; files whose names are no log's are kept.
pub fn is_expired_log(name: &str, today: i32) -> (r: bool)
    ensures
        r == is_expired_log_name(name@, today),
{
    is_expired_day(parse_day(name, LOG_FILE_FORMAT), today)
}

/// The names among `names`, in order, of the logs to remove on day `today`.
pub fn expired_log_names(names: &Vec<String>, today: i32) -> (r: Vec<String>)
    ensures
        views(r@) == expired_names(views(names@), today),
{
    let mut r: Vec<String> = Vec::new();
    let mut i: usize = 0;
    while i < names.len()
        invariant
            i <= names@.len(),
            views(r@) == expired_names(views(names@.subrange(0, i as int)), today),
        decreases names@.len() - i,
    {
        let ghost before = names@.subrange(0, i as int);
        let ghost after = names@.subrange(0, i as int + 1);
        assert(views(after).drop_last() =~= views(before));
        assert(views(after).last() == names@[i as int]@);
        if is_expired_log(names[i].as_str(), today) {
            let ghost old_r = r@;
            r.push(names[i].clone());
            assert(views(r@) =~= views(old_r).push(names@[i as int]@));
        }
        i = i + 1;
    }
    assert(names@.subrange(0, i as int) =~= names@);
    r
}

} // verus!
