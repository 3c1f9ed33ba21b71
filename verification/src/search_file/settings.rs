//! The settings of one search: an immutable snapshot once the search has
//! started, built and changed only before.

use vstd::prelude::*;
use crate::error::ConfigError;
use crate::text::text_eq;

verus! {

/// The attribute bit of a read-only file.
pub const FILE_ATTRIBUTE_READONLY: u32 = 0x00000001;

/// The attribute bit of a hidden file.
pub const FILE_ATTRIBUTE_HIDDEN: u32 = 0x00000002;

/// The attribute bit of a system file.
pub const FILE_ATTRIBUTE_SYSTEM: u32 = 0x00000004;

/// The first and the last year that a calendar date may name.
pub const MIN_YEAR: i32 = -262143;

pub const MAX_YEAR: i32 = 262142;

/// A constraint on the time at which a file was last modified.
#[derive(Debug, Clone, Copy, PartialEq, Eq, Structural)]
pub enum TimeLimit {
    /// No constraint.
    Unlimited,
    /// Against the time of the search: with `newer`, only files modified
    /// less than `seconds` ago; without it, only the others.
    Relative { seconds: u64, newer: bool },
    /// Modified at or after `minimum` and at or before `maximum`, both in
    /// seconds since the epoch.
    Absolute { minimum: i64, maximum: i64 },
}

/// Everything a search needs to know besides where to look and how deep.
#[derive(Debug, Clone, PartialEq, Eq)]
pub struct Settings {
    pub search_hidden_files: bool,
    pub search_hidden_folders: bool,
    pub search_filesize_maximum_limit: u64,
    pub search_filesize_minimum_limit: u64,
    pub search_readonly: bool,
    pub save_hash: bool,
    pub regex_contain_path: bool,
    pub search_system_files: bool,
    pub time_limit: TimeLimit,
    /// The pattern that a file's name or path has to match; empty for none.
    pub file_regex: String,
}

impl Default for Settings {
    fn default() -> (settings: Settings)
        ensures
            settings.search_hidden_files,
            !settings.search_hidden_folders,
            settings.search_filesize_maximum_limit == 1024 * 1024 * 1024,
            settings.search_filesize_minimum_limit == 0,
            !settings.search_readonly,
            !settings.save_hash,
            !settings.regex_contain_path,
            !settings.search_system_files,
            settings.time_limit == TimeLimit::Unlimited,
            settings.file_regex@ == Seq::<char>::empty(),
    {
        Settings {
            search_hidden_files: true,
            search_hidden_folders: false,
            search_filesize_maximum_limit: 1024 * 1024 * 1024,
            search_filesize_minimum_limit: 0,
            search_readonly: false,
            save_hash: false,
            regex_contain_path: false,
            search_system_files: false,
            time_limit: TimeLimit::Unlimited,
            file_regex: String::new(),
        }
    }
}

/// Whether the year has a 29th of February.
pub open spec fn is_leap_year(year: int) -> bool {
    year % 4 == 0 && (year % 100 != 0 || year % 400 == 0)
}

/// The number of days of the month `month` (1 to 12) of `year`.
pub open spec fn days_in_month(year: int, month: int) -> int {
    if month == 2 {
        if is_leap_year(year) {
            29
        } else {
            28
        }
    } else if month == 4 || month == 6 || month == 9 || month == 11 {
        30
    } else {
        31
    }
}

/// Whether year, month and day name a day of the (proleptic Gregorian)
/// calendar, within the years that can be represented.
pub open spec fn is_calendar_date(year: int, month: int, day: int) -> bool {
    &&& MIN_YEAR <= year <= MAX_YEAR
    &&& 1 <= month <= 12
    &&& 1 <= day <= days_in_month(year, month)
}

/// Whether hour, minute and second are those of a clock without leap second.
pub open spec fn is_clock_time(hour: int, minute: int, second: int) -> bool {
    0 <= hour < 24 && 0 <= minute < 60 && 0 <= second < 60
}

/// The number of leap years among the years 1 to `year`; for `year` below 1,
/// minus the number of those from `year + 1` to 0.
pub open spec fn leap_years_through(year: int) -> int {
    year / 4 - year / 100 + year / 400
}

/// The number of days from the first of January 1970 to the first of January
/// of `year`.
pub open spec fn days_before_year(year: int) -> int {
    365 * (year - 1970) + leap_years_through(year - 1) - leap_years_through(1969)
}

/// The number of days of `year` that lie before the first of `month`.
pub open spec fn days_before_month(year: int, month: int) -> int
    decreases month,
{
    if month <= 1 {
        0
    } else {
        days_before_month(year, month - 1) + days_in_month(year, month - 1)
    }
}

/// The seconds from the epoch (midnight before the first of January 1970,
/// UTC) to the given time of the given day, leap seconds not counted.
pub open spec fn unix_seconds(
    year: int,
    month: int,
    day: int,
    hour: int,
    minute: int,
    second: int,
) -> int {
    (days_before_year(year) + days_before_month(year, month) + day - 1) * 86400 + hour * 3600
        + minute * 60 + second
}

/// The seconds from the epoch to the given time of the given day, where the
/// day is one of the calendar and the time one of the clock.
pub open spec fn civil_seconds(
    year: int,
    month: int,
    day: int,
    hour: int,
    minute: int,
    second: int,
) -> Option<i64> {
    if is_calendar_date(year, month, day) && is_clock_time(hour, minute, second) {
        Some(unix_seconds(year, month, day, hour, minute, second) as i64)
    } else {
        None
    }
}

/// `NaiveDate::from_ymd_opt`, `NaiveDate::and_hms_opt`, `NaiveDateTime::and_utc`
/// and `DateTime::timestamp` of chrono, one after the other. The first gives
/// nothing unless the day exists in the calendar and the year is in range,
/// the second nothing unless hour, minute and second are those of a clock
/// without leap second; the last counts the seconds since the epoch.
#[verifier::external_body]
fn civil_timestamp(
    year: i32,
    month: u32,
    day: u32,
    hour: u32,
    minute: u32,
    second: u32,
) -> (r: Option<i64>)
    ensures
        r == civil_seconds(
            year as int,
            month as int,
            day as int,
            hour as int,
            minute as int,
            second as int,
        ),
{
    match chrono::NaiveDate::from_ymd_opt(year, month, day) {
        Some(date) => match date.and_hms_opt(hour, minute, second) {
            Some(moment) => Some(moment.and_utc().timestamp()),
            None => None,
        },
        None => None,
    }
}

/// The number of seconds in one unit of time, by the unit's name; zero for a
/// name that is none of the seven.
pub open spec fn unit_seconds(unit: Seq<char>) -> nat {
    if unit == "second"@ {
        1
    } else if unit == "minute"@ {
        60
    } else if unit == "hour"@ {
        3600
    } else if unit == "day"@ {
        86400
    } else if unit == "week"@ {
        604800
    } else if unit == "month"@ {
        2592000
    } else if unit == "year"@ {
        31536000
    } else {
        0
    }
}

/// `count` units in seconds, held at the largest number that fits.
pub open spec fn relative_seconds(count: u64, unit: Seq<char>) -> u64 {
    if count * unit_seconds(unit) > u64::MAX {
        u64::MAX
    } else {
        (count * unit_seconds(unit)) as u64
    }
}

/// `count` times `factor`, held at the largest number that fits.
pub fn saturating_product(count: u64, factor: u64) -> (product: u64)
    ensures
        product == if count * factor > u64::MAX {
            u64::MAX
        } else {
            (count * factor) as u64
        },
{
    match count.checked_mul(factor) {
        Some(product) => product,
        None => u64::MAX,
    }
}

/// Sets whether hidden files are searched.
pub fn modify_search_hidden_files(settings: &mut Settings, value: bool)
    ensures
        *final(settings) == (Settings { search_hidden_files: value, ..*old(settings) }),
{
    settings.search_hidden_files = value;
}

/// Sets whether hidden folders are entered.
pub fn modify_search_hidden_folders(settings: &mut Settings, value: bool)
    ensures
        *final(settings) == (Settings { search_hidden_folders: value, ..*old(settings) }),
{
    settings.search_hidden_folders = value;
}

/// Sets the largest size, in bytes, that a file may have.
pub fn modify_search_filesize_maximum_limit(settings: &mut Settings, value: u64)
    ensures
        *final(settings) == (Settings { search_filesize_maximum_limit: value, ..*old(settings) }),
{
    settings.search_filesize_maximum_limit = value;
}

/// Sets the smallest size, in bytes, that a file may have.
pub fn modify_search_filesize_minimum_limit(settings: &mut Settings, value: u64)
    ensures
        *final(settings) == (Settings { search_filesize_minimum_limit: value, ..*old(settings) }),
{
    settings.search_filesize_minimum_limit = value;
}

/// Sets whether read-only files are searched.
pub fn modify_search_readonly(settings: &mut Settings, value: bool)
    ensures
        *final(settings) == (Settings { search_readonly: value, ..*old(settings) }),
{
    settings.search_readonly = value;
}

/// Sets whether the content of each file found is hashed.
pub fn modify_save_hash(settings: &mut Settings, value: bool)
    ensures
        *final(settings) == (Settings { save_hash: value, ..*old(settings) }),
{
    settings.save_hash = value;
}

/// Sets whether the pattern is matched against the whole path of a file
/// rather than its name.
pub fn modify_regex_contain_path(settings: &mut Settings, value: bool)
    ensures
        *final(settings) == (Settings { regex_contain_path: value, ..*old(settings) }),
{
    settings.regex_contain_path = value;
}

/// Sets whether system files are searched.
pub fn modify_search_system_files(settings: &mut Settings, value: bool)
    ensures
        *final(settings) == (Settings { search_system_files: value, ..*old(settings) }),
{
    settings.search_system_files = value;
}

/// Removes the constraint on the time of modification.
pub fn cancel_file_timelimit(settings: &mut Settings)
    ensures
        *final(settings) == (Settings { time_limit: TimeLimit::Unlimited, ..*old(settings) }),
{
    settings.time_limit = TimeLimit::Unlimited;
}

/// Constrains the time of modification against the time of the search:
/// `num` units back, newer or older. A unit that is not known counts as no
/// time at all.
pub fn add_type1_timelimit(settings: &mut Settings, num: u64, unit: &str, newer: bool)
    ensures
        *final(settings) == (Settings {
            time_limit: TimeLimit::Relative { seconds: relative_seconds(num, unit@), newer },
            ..*old(settings)
        }),
{
    let factor: u64 = if text_eq(unit, "second") {
        1
    } else if text_eq(unit, "minute") {
        60
    } else if text_eq(unit, "hour") {
        3600
    } else if text_eq(unit, "day") {
        86400
    } else if text_eq(unit, "week") {
        604800
    } else if text_eq(unit, "month") {
        2592000
    } else if text_eq(unit, "year") {
        31536000
    } else {
        0
    };
    settings.time_limit = TimeLimit::Relative { seconds: saturating_product(num, factor), newer };
}

/// What `add_type2_timelimit` makes of two days, if both exist: from the
/// first second of the first day to the last second of the second.
pub open spec fn date_range(
    minimum_year: i32,
    minimum_month: u32,
    minimum_day: u32,
    maximum_year: i32,
    maximum_month: u32,
    maximum_day: u32,
) -> TimeLimit {
    TimeLimit::Absolute {
        minimum: unix_seconds(minimum_year as int, minimum_month as int, minimum_day as int, 0, 0, 0)
            as i64,
        maximum: unix_seconds(
            maximum_year as int,
            maximum_month as int,
            maximum_day as int,
            23,
            59,
            59,
        ) as i64,
    }
}

/// Constrains the time of modification to the days from the first date to
/// the second, both included. If either is no day of the calendar, the
/// first such date is reported and the settings stay as they were.
pub fn add_type2_timelimit(
    settings: &mut Settings,
    minimum_year: i32,
    minimum_month: u32,
    minimum_day: u32,
    maximum_year: i32,
    maximum_month: u32,
    maximum_day: u32,
) -> (r: Result<(), ConfigError>)
    ensures
        r is Ok <==> is_calendar_date(minimum_year as int, minimum_month as int, minimum_day as int)
            && is_calendar_date(maximum_year as int, maximum_month as int, maximum_day as int),
        r is Ok ==> *final(settings) == (Settings {
            time_limit: date_range(
                minimum_year,
                minimum_month,
                minimum_day,
                maximum_year,
                maximum_month,
                maximum_day,
            ),
            ..*old(settings)
        }),
        r is Err ==> *final(settings) == *old(settings),
        !is_calendar_date(minimum_year as int, minimum_month as int, minimum_day as int) ==> r
            == Err::<(), ConfigError>(
            ConfigError::InvalidDate { year: minimum_year, month: minimum_month, day: minimum_day },
        ),
        is_calendar_date(minimum_year as int, minimum_month as int, minimum_day as int)
            && !is_calendar_date(maximum_year as int, maximum_month as int, maximum_day as int)
            ==> r == Err::<(), ConfigError>(
            ConfigError::InvalidDate { year: maximum_year, month: maximum_month, day: maximum_day },
        ),
{
    let minimum = match civil_timestamp(minimum_year, minimum_month, minimum_day, 0, 0, 0) {
        Some(t) => t,
        None => {
            return Err(
                ConfigError::InvalidDate {
                    year: minimum_year,
                    month: minimum_month,
                    day: minimum_day,
                },
            );
        },
    };
    let maximum = match civil_timestamp(maximum_year, maximum_month, maximum_day, 23, 59, 59) {
        Some(t) => t,
        None => {
            return Err(
                ConfigError::InvalidDate {
                    year: maximum_year,
                    month: maximum_month,
                    day: maximum_day,
                },
            );
        },
    };
    settings.time_limit = TimeLimit::Absolute { minimum, maximum };
    Ok(())
}

/// The settings and the depth of a search as one flat record, the shape in
/// which they are kept between runs.
#[derive(Debug, Clone, PartialEq, Eq)]
pub struct SavedSettings {
    pub search_hidden_files: bool,
    pub search_hidden_folders: bool,
    pub search_filesize_maximum_limit: u64,
    pub search_filesize_minimum_limit: u64,
    pub search_readonly: bool,
    pub save_hash: bool,
    pub regex_contain_path: bool,
    pub search_system_files: bool,
    /// Whether there is a limit on the time of modification at all.
    pub search_timelimit: bool,
    /// Whether that limit is one against the time of the search.
    pub search_timelimit_currenttime_type: bool,
    pub search_compare_with_current_time_limit: u64,
    pub search_compare_with_current_time_newer: bool,
    pub search_modify_time_maximum_limit: i64,
    pub search_modify_time_minimum_limit: i64,
    pub search_depth: u8,
    pub file_regex: String,
}

/// The limit on times that the flags and numbers of a record state.
pub open spec fn saved_limit(record: SavedSettings) -> TimeLimit {
    if !record.search_timelimit {
        TimeLimit::Unlimited
    } else if record.search_timelimit_currenttime_type {
        TimeLimit::Relative {
            seconds: record.search_compare_with_current_time_limit,
            newer: record.search_compare_with_current_time_newer,
        }
    } else {
        TimeLimit::Absolute {
            minimum: record.search_modify_time_minimum_limit,
            maximum: record.search_modify_time_maximum_limit,
        }
    }
}

/// Whether `settings` are the settings that a record holds.
pub open spec fn holds_settings(record: SavedSettings, settings: Settings) -> bool {
    &&& settings.search_hidden_files == record.search_hidden_files
    &&& settings.search_hidden_folders == record.search_hidden_folders
    &&& settings.search_filesize_maximum_limit == record.search_filesize_maximum_limit
    &&& settings.search_filesize_minimum_limit == record.search_filesize_minimum_limit
    &&& settings.search_readonly == record.search_readonly
    &&& settings.save_hash == record.save_hash
    &&& settings.regex_contain_path == record.regex_contain_path
    &&& settings.search_system_files == record.search_system_files
    &&& settings.time_limit == saved_limit(record)
    &&& settings.file_regex@ == record.file_regex@
}

/// The depth and the settings that a record holds. Numbers of a limit that
/// the flags of the record do not name are passed over.
pub fn load_settings(record: &SavedSettings) -> (loaded: (u8, Settings))
    ensures
        loaded.0 == record.search_depth,
        holds_settings(*record, loaded.1),
{
    let time_limit = if !record.search_timelimit {
        TimeLimit::Unlimited
    } else if record.search_timelimit_currenttime_type {
        TimeLimit::Relative {
            seconds: record.search_compare_with_current_time_limit,
            newer: record.search_compare_with_current_time_newer,
        }
    } else {
        TimeLimit::Absolute {
            minimum: record.search_modify_time_minimum_limit,
            maximum: record.search_modify_time_maximum_limit,
        }
    };
    (
        record.search_depth,
        Settings {
            search_hidden_files: record.search_hidden_files,
            search_hidden_folders: record.search_hidden_folders,
            search_filesize_maximum_limit: record.search_filesize_maximum_limit,
            search_filesize_minimum_limit: record.search_filesize_minimum_limit,
            search_readonly: record.search_readonly,
            save_hash: record.save_hash,
            regex_contain_path: record.regex_contain_path,
            search_system_files: record.search_system_files,
            time_limit,
            file_regex: record.file_regex.clone(),
        },
    )
}

/// The record of a depth and of settings. The numbers of a limit that the
/// settings do not have are those of a record that was never changed: no
/// time back, newer, from the epoch to the far future.
pub fn save_settings(search_depth: u8, settings: &Settings) -> (record: SavedSettings)
    ensures
        record.search_depth == search_depth,
        holds_settings(record, *settings),
        !(settings.time_limit is Relative) ==> record.search_compare_with_current_time_limit == 0
            && record.search_compare_with_current_time_newer,
        !(settings.time_limit is Absolute) ==> record.search_modify_time_minimum_limit == 0
            && record.search_modify_time_maximum_limit == 1145141919810,
        record.search_timelimit_currenttime_type == (settings.time_limit is Relative),
{
    let mut record = SavedSettings {
        search_hidden_files: settings.search_hidden_files,
        search_hidden_folders: settings.search_hidden_folders,
        search_filesize_maximum_limit: settings.search_filesize_maximum_limit,
        search_filesize_minimum_limit: settings.search_filesize_minimum_limit,
        search_readonly: settings.search_readonly,
        save_hash: settings.save_hash,
        regex_contain_path: settings.regex_contain_path,
        search_system_files: settings.search_system_files,
        search_timelimit: false,
        search_timelimit_currenttime_type: false,
        search_compare_with_current_time_limit: 0,
        search_compare_with_current_time_newer: true,
        search_modify_time_maximum_limit: 1145141919810,
        search_modify_time_minimum_limit: 0,
        search_depth,
        file_regex: settings.file_regex.clone(),
    };
    match settings.time_limit {
        TimeLimit::Unlimited => {},
        TimeLimit::Relative { seconds, newer } => {
            record.search_timelimit = true;
            record.search_timelimit_currenttime_type = true;
            record.search_compare_with_current_time_limit = seconds;
            record.search_compare_with_current_time_newer = newer;
        },
        TimeLimit::Absolute { minimum, maximum } => {
            record.search_timelimit = true;
            record.search_modify_time_minimum_limit = minimum;
            record.search_modify_time_maximum_limit = maximum;
        },
    }
    record
}

/// What was saved is what is loaded: settings that a record holds beside
/// those it was made of are, member by member, the same.
pub proof fn lemma_saved_settings_round_trip(
    settings: Settings,
    record: SavedSettings,
    loaded: Settings,
)
    requires
        holds_settings(record, settings),
        holds_settings(record, loaded),
    ensures
        loaded.search_hidden_files == settings.search_hidden_files,
        loaded.search_hidden_folders == settings.search_hidden_folders,
        loaded.search_filesize_maximum_limit == settings.search_filesize_maximum_limit,
        loaded.search_filesize_minimum_limit == settings.search_filesize_minimum_limit,
        loaded.search_readonly == settings.search_readonly,
        loaded.save_hash == settings.save_hash,
        loaded.regex_contain_path == settings.regex_contain_path,
        loaded.search_system_files == settings.search_system_files,
        loaded.time_limit == settings.time_limit,
        loaded.file_regex@ == settings.file_regex@,
{
}

} // verus!
