//! The search filter as the user states it, and how it becomes settings.

use vstd::prelude::*;
use crate::error::ConfigError;
use crate::search_file::pattern_is_valid;
use crate::search_file::regex_compiles;
use crate::search_file::settings::{
    add_type2_timelimit,
    date_range,
    is_calendar_date,
    Settings,
    TimeLimit,
};
use crate::text::{is_blank, text_is_blank};

verus! {

/// A limit on the date of the last modification, as the user states it.
#[derive(Debug, Clone, Copy, PartialEq, Eq, Structural)]
pub enum DateLimitType {
    /// No limit.
    Unlimited,
    /// So many days back from the time of the search; with `true` the files
    /// modified within them, with `false` the files modified before them.
    Days(i32, bool),
    /// The same in weeks.
    Weeks(i32, bool),
    /// The same in years of 365 days.
    Years(i32, bool),
    /// From one day to another, both included.
    Specific {
        minimum_year: i32,
        minimum_month: u32,
        minimum_day: u32,
        maximum_year: i32,
        maximum_month: u32,
        maximum_day: u32,
    },
}

/// What the pattern is matched against.
#[derive(Debug, Clone, Copy, PartialEq, Eq, Structural)]
pub enum RegexTarget {
    /// The name of the file.
    FileName,
    /// The whole path of the file.
    FilePath,
}

/// The filter of a search, as the user states it.
#[derive(Debug, Clone, PartialEq, Eq)]
pub struct SearchFilter {
    pub search_hidden_files: bool,
    pub search_hidden_folders: bool,
    pub search_readonly_files: bool,
    /// The smallest and the largest size of a file, in bytes.
    pub min_file_size: u64,
    pub max_file_size: u64,
    pub date_limit: DateLimitType,
    /// The first day of a range of dates that the user is still entering.
    pub start_year: Option<i32>,
    pub start_month: Option<i32>,
    pub start_day: Option<i32>,
    /// The last day of that range.
    pub end_year: Option<i32>,
    pub end_month: Option<i32>,
    pub end_day: Option<i32>,
    /// Whether a relative limit asks for the newer files.
    pub time_newer: Option<bool>,
    /// The pattern, where there is one.
    pub regex_pattern: Option<String>,
    pub regex_target: RegexTarget,
    /// Whether the content of each file found is hashed.
    pub record_hash: bool,
}

impl Default for SearchFilter {
    fn default() -> (filter: SearchFilter)
        ensures
            filter.search_hidden_files,
            filter.search_hidden_folders,
            filter.search_readonly_files,
            filter.min_file_size == 0,
            filter.max_file_size == 64 * 1024 * 1024 * 1024,
            filter.date_limit == DateLimitType::Unlimited,
            filter.start_year is None && filter.start_month is None && filter.start_day is None,
            filter.end_year is None && filter.end_month is None && filter.end_day is None,
            filter.time_newer == Some(true),
            filter.regex_pattern is None,
            filter.regex_target == RegexTarget::FileName,
            !filter.record_hash,
    {
        SearchFilter {
            search_hidden_files: true,
            search_hidden_folders: true,
            search_readonly_files: true,
            min_file_size: 0,
            max_file_size: 64 * 1024 * 1024 * 1024,
            date_limit: DateLimitType::Unlimited,
            start_year: None,
            start_month: None,
            start_day: None,
            end_year: None,
            end_month: None,
            end_day: None,
            time_newer: Some(true),
            regex_pattern: None,
            regex_target: RegexTarget::FileName,
            record_hash: false,
        }
    }
}

/// A number of megabytes in bytes; a negative number counts as none.
pub open spec fn megabytes(count: i32) -> u64 {
    if count < 0 {
        0
    } else {
        (count * 1024 * 1024) as u64
    }
}

/// A month or a day as entered; a negative number becomes 0, which is
/// neither a month nor a day.
pub open spec fn entered(number: i32) -> u32 {
    if number < 0 {
        0
    } else {
        number as u32
    }
}

/// The date limit that the entered numbers state: `kind` 1, 2 and 3 are
/// days, weeks and years, 4 is a range of dates, anything else no limit.
pub open spec fn stated_limit(
    kind: i32,
    value: i32,
    newer: bool,
    specific_year: i32,
    specific_month: i32,
    specific_day: i32,
    end_year: i32,
    end_month: i32,
    end_day: i32,
) -> DateLimitType {
    if kind == 1 {
        DateLimitType::Days(value, newer)
    } else if kind == 2 {
        DateLimitType::Weeks(value, newer)
    } else if kind == 3 {
        DateLimitType::Years(value, newer)
    } else if kind == 4 {
        DateLimitType::Specific {
            minimum_year: specific_year,
            minimum_month: entered(specific_month),
            minimum_day: entered(specific_day),
            maximum_year: end_year,
            maximum_month: entered(end_month),
            maximum_day: entered(end_day),
        }
    } else {
        DateLimitType::Unlimited
    }
}

/// So many units of `unit` seconds, in seconds; a negative count is none.
pub open spec fn span_seconds(count: i32, unit: int) -> u64 {
    if count < 0 {
        0
    } else {
        (count * unit) as u64
    }
}

/// Whether a date limit can be turned into a limit on times: a range of
/// dates needs two days of the calendar.
pub open spec fn limit_is_valid(limit: DateLimitType) -> bool {
    limit matches DateLimitType::Specific {
        minimum_year,
        minimum_month,
        minimum_day,
        maximum_year,
        maximum_month,
        maximum_day,
    } ==> is_calendar_date(minimum_year as int, minimum_month as int, minimum_day as int)
        && is_calendar_date(maximum_year as int, maximum_month as int, maximum_day as int)
}

/// The limit on times that a valid date limit stands for.
pub open spec fn resolved_limit(limit: DateLimitType) -> TimeLimit {
    match limit {
        DateLimitType::Unlimited => TimeLimit::Unlimited,
        DateLimitType::Days(days, newer) => TimeLimit::Relative {
            seconds: span_seconds(days, 86400),
            newer,
        },
        DateLimitType::Weeks(weeks, newer) => TimeLimit::Relative {
            seconds: span_seconds(weeks, 604800),
            newer,
        },
        DateLimitType::Years(years, newer) => TimeLimit::Relative {
            seconds: span_seconds(years, 31536000),
            newer,
        },
        DateLimitType::Specific {
            minimum_year,
            minimum_month,
            minimum_day,
            maximum_year,
            maximum_month,
            maximum_day,
        } => date_range(
            minimum_year,
            minimum_month,
            minimum_day,
            maximum_year,
            maximum_month,
            maximum_day,
        ),
    }
}

/// A number of megabytes in bytes.
fn megabytes_of(count: i32) -> (bytes: u64)
    ensures
        bytes == megabytes(count),
{
    if count < 0 {
        0
    } else {
        (count as u64) * 1024 * 1024
    }
}

/// A month or a day as entered.
fn entered_of(number: i32) -> (entered_number: u32)
    ensures
        entered_number == entered(number),
{
    if number < 0 {
        0
    } else {
        number as u32
    }
}

/// So many units in seconds.
fn span_of(count: i32, unit: u64) -> (seconds: u64)
    requires
        unit <= 31536000,
    ensures
        seconds == span_seconds(count, unit as int),
{
    if count < 0 {
        0
    } else {
        assert((count as u64) * unit <= 0x8000_0000 * 31536000) by (nonlinear_arith)
            requires
                0 <= count <= 0x7fff_ffff,
                unit <= 31536000,
        ;
        (count as u64) * unit
    }
}

impl SearchFilter {
    /// The pattern of the filter as text; empty where there is none.
    pub open spec fn pattern_text(&self) -> Seq<char> {
        match self.regex_pattern {
            Some(pattern) => pattern@,
            None => Seq::empty(),
        }
    }

    /// Whether the settings of a search can be made of this filter: its
    /// pattern, if any, compiles, and its date limit is valid.
    pub open spec fn is_valid(&self) -> bool {
        &&& self.regex_pattern is Some ==> regex_compiles(self.pattern_text())
        &&& limit_is_valid(self.date_limit)
    }

    /// Whether `settings` are the settings of a search with this filter.
    pub open spec fn resolves_to(&self, settings: Settings) -> bool {
        &&& settings.search_hidden_files == self.search_hidden_files
        &&& settings.search_hidden_folders == self.search_hidden_folders
        &&& settings.search_readonly == self.search_readonly_files
        &&& settings.search_system_files
        &&& settings.search_filesize_minimum_limit == self.min_file_size
        &&& settings.search_filesize_maximum_limit == self.max_file_size
        &&& settings.time_limit == resolved_limit(self.date_limit)
        &&& settings.regex_contain_path == (self.regex_target == RegexTarget::FilePath)
        &&& settings.save_hash == self.record_hash
        &&& settings.file_regex@ == self.pattern_text()
    }

    /// Whether `error` is what is wrong with this filter: its pattern if
    /// that does not compile, else the first date of its limit that is no
    /// day of the calendar.
    pub open spec fn refused_with(&self, error: ConfigError) -> bool {
        if self.regex_pattern is Some && !regex_compiles(self.pattern_text()) {
            error matches ConfigError::InvalidPattern { pattern } && pattern@ == self.pattern_text()
        } else {
            self.date_limit matches DateLimitType::Specific {
                minimum_year,
                minimum_month,
                minimum_day,
                maximum_year,
                maximum_month,
                maximum_day,
            } && error == (if is_calendar_date(
                minimum_year as int,
                minimum_month as int,
                minimum_day as int,
            ) {
                ConfigError::InvalidDate {
                    year: maximum_year,
                    month: maximum_month,
                    day: maximum_day,
                }
            } else {
                ConfigError::InvalidDate {
                    year: minimum_year,
                    month: minimum_month,
                    day: minimum_day,
                }
            })
        }
    }

    /// Makes a filter of the numbers and texts that the user entered: sizes
    /// in megabytes, the kind of date limit and its numbers, the pattern and
    /// what it is matched against (0 for the name, anything else for the
    /// path).
    ///
    /// A pattern of white space only is no pattern. Any other pattern has to
    /// compile: if it does not, it is reported and no filter is made.
    pub fn from_ui_data(
        search_hidden_files: bool,
        search_hidden_folders: bool,
        search_readonly_files: bool,
        min_file_size_mb: i32,
        max_file_size_mb: i32,
        date_limit_type: i32,
        date_limit_value: i32,
        specific_year: i32,
        specific_month: i32,
        specific_day: i32,
        regex_pattern: &str,
        regex_target: i32,
        record_hash: bool,
        time_newer: bool,
        end_year: i32,
        end_month: i32,
        end_day: i32,
    ) -> (r: Result<SearchFilter, ConfigError>)
        ensures
            r is Ok <==> is_blank(regex_pattern@) || regex_compiles(regex_pattern@),
            r matches Err(error) ==> error matches ConfigError::InvalidPattern { pattern }
                && pattern@ == regex_pattern@,
            r matches Ok(filter) ==> {
                &&& filter.search_hidden_files == search_hidden_files
                &&& filter.search_hidden_folders == search_hidden_folders
                &&& filter.search_readonly_files == search_readonly_files
                &&& filter.min_file_size == megabytes(min_file_size_mb)
                &&& filter.max_file_size == megabytes(max_file_size_mb)
                &&& filter.date_limit == stated_limit(
                    date_limit_type,
                    date_limit_value,
                    time_newer,
                    specific_year,
                    specific_month,
                    specific_day,
                    end_year,
                    end_month,
                    end_day,
                )
                &&& filter.start_year is None && filter.start_month is None
                    && filter.start_day is None
                &&& filter.end_year is None && filter.end_month is None && filter.end_day is None
                &&& filter.time_newer == Some(true)
                &&& filter.regex_pattern is Some <==> !is_blank(regex_pattern@)
                &&& filter.regex_pattern is Some ==> filter.pattern_text() == regex_pattern@
                &&& filter.regex_target == if regex_target == 0 {
                    RegexTarget::FileName
                } else {
                    RegexTarget::FilePath
                }
                &&& filter.record_hash == record_hash
            },
    {
        let date_limit = if date_limit_type == 1 {
            DateLimitType::Days(date_limit_value, time_newer)
        } else if date_limit_type == 2 {
            DateLimitType::Weeks(date_limit_value, time_newer)
        } else if date_limit_type == 3 {
            DateLimitType::Years(date_limit_value, time_newer)
        } else if date_limit_type == 4 {
            DateLimitType::Specific {
                minimum_year: specific_year,
                minimum_month: entered_of(specific_month),
                minimum_day: entered_of(specific_day),
                maximum_year: end_year,
                maximum_month: entered_of(end_month),
                maximum_day: entered_of(end_day),
            }
        } else {
            DateLimitType::Unlimited
        };
        let pattern = if text_is_blank(regex_pattern) {
            None
        } else if pattern_is_valid(regex_pattern) {
            Some(String::from_str(regex_pattern))
        } else {
            return Err(ConfigError::InvalidPattern { pattern: String::from_str(regex_pattern) });
        };
        Ok(
            SearchFilter {
                search_hidden_files,
                search_hidden_folders,
                search_readonly_files,
                min_file_size: megabytes_of(min_file_size_mb),
                max_file_size: megabytes_of(max_file_size_mb),
                date_limit,
                start_year: None,
                start_month: None,
                start_day: None,
                end_year: None,
                end_month: None,
                end_day: None,
                time_newer: Some(true),
                regex_pattern: pattern,
                regex_target: if regex_target == 0 {
                    RegexTarget::FileName
                } else {
                    RegexTarget::FilePath
                },
                record_hash,
            },
        )
    }

    /// The settings of a search with this filter. System files are always
    /// searched.
    ///
    /// A pattern that does not compile is reported; if the pattern is in
    /// order, a date of the limit that is no day of the calendar is, the
    /// first of the range before the last.
    pub fn apply_to_settings(&self) -> (r: Result<Settings, ConfigError>)
        ensures
            r is Ok <==> self.is_valid(),
            r matches Ok(settings) ==> self.resolves_to(settings),
            r matches Err(error) ==> self.refused_with(error),
    {
        let file_regex = match &self.regex_pattern {
            Some(pattern) => {
                if !pattern_is_valid(pattern.as_str()) {
                    return Err(ConfigError::InvalidPattern { pattern: pattern.clone() });
                }
                pattern.clone()
            },
            None => String::new(),
        };
        let mut settings = Settings {
            search_hidden_files: self.search_hidden_files,
            search_hidden_folders: self.search_hidden_folders,
            search_filesize_maximum_limit: self.max_file_size,
            search_filesize_minimum_limit: self.min_file_size,
            search_readonly: self.search_readonly_files,
            save_hash: self.record_hash,
            regex_contain_path: match self.regex_target {
                RegexTarget::FileName => false,
                RegexTarget::FilePath => true,
            },
            search_system_files: true,
            time_limit: TimeLimit::Unlimited,
            file_regex,
        };
        match self.date_limit {
            DateLimitType::Unlimited => {},
            DateLimitType::Days(days, newer) => {
                settings.time_limit = TimeLimit::Relative { seconds: span_of(days, 86400), newer };
            },
            DateLimitType::Weeks(weeks, newer) => {
                settings.time_limit = TimeLimit::Relative {
                    seconds: span_of(weeks, 604800),
                    newer,
                };
            },
            DateLimitType::Years(years, newer) => {
                settings.time_limit = TimeLimit::Relative {
                    seconds: span_of(years, 31536000),
                    newer,
                };
            },
            DateLimitType::Specific {
                minimum_year,
                minimum_month,
                minimum_day,
                maximum_year,
                maximum_month,
                maximum_day,
            } => {
                match add_type2_timelimit(
                    &mut settings,
                    minimum_year,
                    minimum_month,
                    minimum_day,
                    maximum_year,
                    maximum_month,
                    maximum_day,
                ) {
                    Ok(()) => {},
                    Err(error) => {
                        return Err(error);
                    },
                }
            },
        }
        Ok(settings)
    }
}

} // verus!
