use extended_search::error::ConfigError;
use extended_search::filter::{DateLimitType, RegexTarget, SearchFilter};
use extended_search::helper::SearchHelper;
use extended_search::search_file::pattern_is_valid;
use extended_search::search_file::settings::{
    add_type1_timelimit, add_type2_timelimit, cancel_file_timelimit, modify_regex_contain_path,
    modify_save_hash, modify_search_filesize_maximum_limit, modify_search_filesize_minimum_limit,
    modify_search_hidden_files, modify_search_hidden_folders, modify_search_readonly,
    modify_search_system_files, load_settings, saturating_product, save_settings, SavedSettings,
    Settings, TimeLimit,
};

fn range(from: (i32, u32, u32), to: (i32, u32, u32)) -> Result<TimeLimit, ConfigError> {
    let mut settings = Settings::default();
    add_type2_timelimit(&mut settings, from.0, from.1, from.2, to.0, to.1, to.2)?;
    Ok(settings.time_limit)
}

fn ui_filter(pattern: &str) -> Result<SearchFilter, ConfigError> {
    SearchFilter::from_ui_data(
        true, false, true, 1, 2, 0, 0, 2024, 1, 1, pattern, 0, false, true, 2024, 12, 31,
    )
}

#[test]
fn default_settings_are_the_documented_ones() {
    let settings = Settings::default();
    assert!(settings.search_hidden_files);
    assert!(!settings.search_hidden_folders);
    assert_eq!(settings.search_filesize_maximum_limit, 1024 * 1024 * 1024);
    assert_eq!(settings.search_filesize_minimum_limit, 0);
    assert!(!settings.search_readonly);
    assert!(!settings.save_hash);
    assert!(!settings.regex_contain_path);
    assert!(!settings.search_system_files);
    assert_eq!(settings.time_limit, TimeLimit::Unlimited);
    assert_eq!(settings.file_regex, "");
}

#[test]
fn each_setter_changes_its_own_field_only() {
    let mut settings = Settings::default();
    let mut expected = Settings::default();
    modify_search_hidden_files(&mut settings, false);
    expected.search_hidden_files = false;
    assert_eq!(settings, expected);
    modify_search_hidden_folders(&mut settings, true);
    expected.search_hidden_folders = true;
    assert_eq!(settings, expected);
    modify_search_filesize_maximum_limit(&mut settings, 77);
    expected.search_filesize_maximum_limit = 77;
    assert_eq!(settings, expected);
    modify_search_filesize_minimum_limit(&mut settings, 5);
    expected.search_filesize_minimum_limit = 5;
    assert_eq!(settings, expected);
    modify_search_readonly(&mut settings, true);
    expected.search_readonly = true;
    assert_eq!(settings, expected);
    modify_save_hash(&mut settings, true);
    expected.save_hash = true;
    assert_eq!(settings, expected);
    modify_regex_contain_path(&mut settings, true);
    expected.regex_contain_path = true;
    assert_eq!(settings, expected);
    modify_search_system_files(&mut settings, true);
    expected.search_system_files = true;
    assert_eq!(settings, expected);
}

#[test]
fn relative_limit_counts_each_unit_in_seconds() {
    let cases: [(&str, u64); 8] = [
        ("second", 3),
        ("minute", 180),
        ("hour", 10800),
        ("day", 259200),
        ("week", 1814400),
        ("month", 7776000),
        ("year", 94608000),
        ("fortnight", 0),
    ];
    for (unit, seconds) in cases {
        let mut settings = Settings::default();
        add_type1_timelimit(&mut settings, 3, unit, true);
        assert_eq!(settings.time_limit, TimeLimit::Relative { seconds, newer: true });
    }
}

#[test]
fn relative_limit_of_seven_days_is_604800_seconds() {
    let mut settings = Settings::default();
    add_type1_timelimit(&mut settings, 7, "day", false);
    assert_eq!(settings.time_limit, TimeLimit::Relative { seconds: 604800, newer: false });
    let mut expected = Settings::default();
    expected.time_limit = TimeLimit::Relative { seconds: 604800, newer: false };
    assert_eq!(settings, expected);
}

#[test]
fn relative_limit_is_held_at_the_largest_number() {
    let mut settings = Settings::default();
    add_type1_timelimit(&mut settings, u64::MAX, "year", true);
    assert_eq!(settings.time_limit, TimeLimit::Relative { seconds: u64::MAX, newer: true });
    add_type1_timelimit(&mut settings, u64::MAX, "second", true);
    assert_eq!(settings.time_limit, TimeLimit::Relative { seconds: u64::MAX, newer: true });
    assert_eq!(saturating_product(u64::MAX / 2 + 1, 2), u64::MAX);
    assert_eq!(saturating_product(u64::MAX / 2, 2), u64::MAX - 1);
    assert_eq!(saturating_product(0, 31536000), 0);
}

#[test]
fn cancel_removes_the_time_limit() {
    let mut settings = Settings::default();
    add_type1_timelimit(&mut settings, 7, "day", true);
    cancel_file_timelimit(&mut settings);
    assert_eq!(settings, Settings::default());
}

#[test]
fn date_range_runs_from_first_second_to_last_second() {
    assert_eq!(
        range((1970, 1, 1), (1970, 1, 1)),
        Ok(TimeLimit::Absolute { minimum: 0, maximum: 86399 })
    );
    assert_eq!(
        range((2015, 5, 15), (2015, 5, 15)),
        Ok(TimeLimit::Absolute { minimum: 1431648000, maximum: 1431734399 })
    );
    assert_eq!(
        range((2000, 1, 1), (2024, 2, 29)),
        Ok(TimeLimit::Absolute { minimum: 946684800, maximum: 1709251199 })
    );
    assert_eq!(
        range((2023, 12, 31), (2024, 3, 1)),
        Ok(TimeLimit::Absolute { minimum: 1703980800, maximum: 1709337599 })
    );
}

#[test]
fn date_range_before_the_epoch_is_negative() {
    assert_eq!(
        range((1969, 12, 31), (1969, 12, 31)),
        Ok(TimeLimit::Absolute { minimum: -86400, maximum: -1 })
    );
    assert_eq!(
        range((1900, 3, 1), (1900, 3, 1)),
        Ok(TimeLimit::Absolute { minimum: -2203891200, maximum: -2203804801 })
    );
    assert_eq!(
        range((0, 1, 1), (0, 1, 1)),
        Ok(TimeLimit::Absolute { minimum: -62167219200, maximum: -62167132801 })
    );
    assert_eq!(
        range((-1, 12, 31), (0, 2, 29)),
        Ok(TimeLimit::Absolute { minimum: -62167305600, maximum: -62162035201 })
    );
}

#[test]
fn date_range_reaches_the_first_and_the_last_year() {
    assert!(range((-262143, 1, 1), (262142, 12, 31)).is_ok());
    assert_eq!(
        range((-262144, 1, 1), (2000, 1, 1)),
        Err(ConfigError::InvalidDate { year: -262144, month: 1, day: 1 })
    );
    assert_eq!(
        range((2000, 1, 1), (262143, 1, 1)),
        Err(ConfigError::InvalidDate { year: 262143, month: 1, day: 1 })
    );
    assert_eq!(
        range((262142, 12, 31), (262142, 12, 31)),
        Ok(TimeLimit::Absolute { minimum: 8210266790400, maximum: 8210266876799 })
    );
}

#[test]
fn date_that_is_no_calendar_day_is_reported() {
    assert_eq!(
        range((2023, 2, 29), (2023, 3, 1)),
        Err(ConfigError::InvalidDate { year: 2023, month: 2, day: 29 })
    );
    assert_eq!(
        range((2023, 2, 28), (2023, 4, 31)),
        Err(ConfigError::InvalidDate { year: 2023, month: 4, day: 31 })
    );
    assert_eq!(
        range((2023, 0, 1), (2023, 13, 1)),
        Err(ConfigError::InvalidDate { year: 2023, month: 0, day: 1 })
    );
    assert_eq!(
        range((2023, 1, 0), (2023, 1, 1)),
        Err(ConfigError::InvalidDate { year: 2023, month: 1, day: 0 })
    );
    assert_eq!(
        range((2023, 1, 1), (2023, 13, 1)),
        Err(ConfigError::InvalidDate { year: 2023, month: 13, day: 1 })
    );
    assert_eq!(
        range((1900, 2, 29), (1900, 3, 1)),
        Err(ConfigError::InvalidDate { year: 1900, month: 2, day: 29 })
    );
    assert!(range((2000, 2, 29), (2000, 2, 29)).is_ok());
    assert!(range((2024, 2, 29), (2024, 2, 29)).is_ok());
}

#[test]
fn last_day_of_each_month_is_a_calendar_day() {
    let lengths = [31u32, 28, 31, 30, 31, 30, 31, 31, 30, 31, 30, 31];
    let mut start: i64 = 1672531200;
    for (index, length) in lengths.iter().enumerate() {
        let month = index as u32 + 1;
        let end = start + (*length as i64) * 86400 - 1;
        assert_eq!(
            range((2023, month, 1), (2023, month, *length)),
            Ok(TimeLimit::Absolute { minimum: start, maximum: end })
        );
        assert!(range((2023, month, 1), (2023, month, *length + 1)).is_err());
        start = end + 1;
    }
}

#[test]
fn failed_date_range_leaves_the_settings_unchanged() {
    let mut settings = Settings::default();
    add_type1_timelimit(&mut settings, 2, "week", true);
    let before = settings.clone();
    let result = add_type2_timelimit(&mut settings, 2023, 2, 30, 2023, 3, 1);
    assert!(result.is_err());
    assert_eq!(settings, before);
}

#[test]
fn pattern_validity_is_that_of_the_regex_crate() {
    assert!(pattern_is_valid(r".*\.txt$"));
    assert!(pattern_is_valid(""));
    assert!(pattern_is_valid(r"foo\w+bar"));
    assert!(!pattern_is_valid("foo(bar"));
    assert!(!pattern_is_valid("["));
    assert!(!pattern_is_valid(r"\w{1000}"));
    assert!(pattern_is_valid(r"(?-u:\w){1000}"));
}

#[test]
fn default_filter_is_the_documented_one() {
    let filter = SearchFilter::default();
    assert!(filter.search_hidden_files);
    assert!(filter.search_hidden_folders);
    assert!(filter.search_readonly_files);
    assert_eq!(filter.min_file_size, 0);
    assert_eq!(filter.max_file_size, 64 * 1024 * 1024 * 1024);
    assert_eq!(filter.date_limit, DateLimitType::Unlimited);
    assert_eq!(filter.start_year, None);
    assert_eq!(filter.end_day, None);
    assert_eq!(filter.time_newer, Some(true));
    assert_eq!(filter.regex_pattern, None);
    assert_eq!(filter.regex_target, RegexTarget::FileName);
    assert!(!filter.record_hash);
}

#[test]
fn ui_data_with_invalid_pattern_is_a_config_error() {
    assert_eq!(
        ui_filter("foo(bar"),
        Err(ConfigError::InvalidPattern { pattern: "foo(bar".to_string() })
    );
    assert_eq!(
        ui_filter(" [ "),
        Err(ConfigError::InvalidPattern { pattern: " [ ".to_string() })
    );
}

#[test]
fn ui_data_with_blank_pattern_has_no_pattern() {
    assert_eq!(ui_filter("").unwrap().regex_pattern, None);
    assert_eq!(ui_filter("  \t \n").unwrap().regex_pattern, None);
    assert_eq!(ui_filter("\u{3000}\u{a0}").unwrap().regex_pattern, None);
    assert_eq!(ui_filter(" a ").unwrap().regex_pattern, Some(" a ".to_string()));
    assert_eq!(ui_filter("\u{200b}").unwrap().regex_pattern, Some("\u{200b}".to_string()));
}

#[test]
fn ui_data_becomes_a_filter_field_by_field() {
    let filter = SearchFilter::from_ui_data(
        false, true, false, 3, 5, 2, 6, 2020, 1, 2, r"\.rs$", 1, true, false, 2021, 3, 4,
    )
    .unwrap();
    let expected = SearchFilter {
        search_hidden_files: false,
        search_hidden_folders: true,
        search_readonly_files: false,
        min_file_size: 3 * 1024 * 1024,
        max_file_size: 5 * 1024 * 1024,
        date_limit: DateLimitType::Weeks(6, false),
        start_year: None,
        start_month: None,
        start_day: None,
        end_year: None,
        end_month: None,
        end_day: None,
        time_newer: Some(true),
        regex_pattern: Some(r"\.rs$".to_string()),
        regex_target: RegexTarget::FilePath,
        record_hash: true,
    };
    assert_eq!(filter, expected);
}

#[test]
fn ui_data_names_the_date_limit_by_number() {
    let limit = |kind: i32| {
        SearchFilter::from_ui_data(
            true, true, true, 0, 1, kind, 9, 2020, 1, 2, "", 0, false, true, 2021, 3, 4,
        )
        .unwrap()
        .date_limit
    };
    assert_eq!(limit(0), DateLimitType::Unlimited);
    assert_eq!(limit(1), DateLimitType::Days(9, true));
    assert_eq!(limit(2), DateLimitType::Weeks(9, true));
    assert_eq!(limit(3), DateLimitType::Years(9, true));
    assert_eq!(
        limit(4),
        DateLimitType::Specific {
            minimum_year: 2020,
            minimum_month: 1,
            minimum_day: 2,
            maximum_year: 2021,
            maximum_month: 3,
            maximum_day: 4,
        }
    );
    assert_eq!(limit(5), DateLimitType::Unlimited);
    assert_eq!(limit(-1), DateLimitType::Unlimited);
}

#[test]
fn ui_data_with_negative_numbers_is_held_at_zero() {
    let filter = SearchFilter::from_ui_data(
        true, true, true, -1, i32::MAX, 4, 0, 2020, -1, -2, "", 7, false, true, 2021, -3, 4,
    )
    .unwrap();
    assert_eq!(filter.min_file_size, 0);
    assert_eq!(filter.max_file_size, 2147483647 * 1024 * 1024);
    assert_eq!(filter.regex_target, RegexTarget::FilePath);
    assert_eq!(
        filter.date_limit,
        DateLimitType::Specific {
            minimum_year: 2020,
            minimum_month: 0,
            minimum_day: 0,
            maximum_year: 2021,
            maximum_month: 0,
            maximum_day: 4,
        }
    );
    assert_eq!(
        filter.apply_to_settings(),
        Err(ConfigError::InvalidDate { year: 2020, month: 0, day: 0 })
    );
}

#[test]
fn filter_becomes_settings_field_by_field() {
    let mut filter = SearchFilter::default();
    filter.search_hidden_files = false;
    filter.search_hidden_folders = false;
    filter.search_readonly_files = false;
    filter.min_file_size = 11;
    filter.max_file_size = 22;
    filter.date_limit = DateLimitType::Days(7, true);
    filter.regex_pattern = Some("abc".to_string());
    filter.regex_target = RegexTarget::FilePath;
    filter.record_hash = true;
    let expected = Settings {
        search_hidden_files: false,
        search_hidden_folders: false,
        search_filesize_maximum_limit: 22,
        search_filesize_minimum_limit: 11,
        search_readonly: false,
        save_hash: true,
        regex_contain_path: true,
        search_system_files: true,
        time_limit: TimeLimit::Relative { seconds: 604800, newer: true },
        file_regex: "abc".to_string(),
    };
    assert_eq!(filter.apply_to_settings(), Ok(expected.clone()));
    assert_eq!(SearchHelper::apply_filter_settings(&filter), Ok(expected));
}

#[test]
fn filter_limits_become_seconds() {
    let limit = |date_limit: DateLimitType| {
        let mut filter = SearchFilter::default();
        filter.date_limit = date_limit;
        filter.apply_to_settings().unwrap().time_limit
    };
    assert_eq!(limit(DateLimitType::Unlimited), TimeLimit::Unlimited);
    assert_eq!(
        limit(DateLimitType::Days(2, false)),
        TimeLimit::Relative { seconds: 172800, newer: false }
    );
    assert_eq!(
        limit(DateLimitType::Weeks(2, true)),
        TimeLimit::Relative { seconds: 1209600, newer: true }
    );
    assert_eq!(
        limit(DateLimitType::Years(2, true)),
        TimeLimit::Relative { seconds: 63072000, newer: true }
    );
    assert_eq!(
        limit(DateLimitType::Years(i32::MAX, true)),
        TimeLimit::Relative { seconds: 2147483647 * 31536000, newer: true }
    );
    assert_eq!(
        limit(DateLimitType::Days(-5, true)),
        TimeLimit::Relative { seconds: 0, newer: true }
    );
    assert_eq!(
        limit(DateLimitType::Specific {
            minimum_year: 2015,
            minimum_month: 5,
            minimum_day: 15,
            maximum_year: 2015,
            maximum_month: 5,
            maximum_day: 16,
        }),
        TimeLimit::Absolute { minimum: 1431648000, maximum: 1431820799 }
    );
}

#[test]
fn filter_with_invalid_parts_reports_the_pattern_first() {
    let mut filter = SearchFilter::default();
    filter.regex_pattern = Some("(".to_string());
    filter.date_limit = DateLimitType::Specific {
        minimum_year: 2023,
        minimum_month: 2,
        minimum_day: 30,
        maximum_year: 2023,
        maximum_month: 2,
        maximum_day: 31,
    };
    assert_eq!(
        filter.apply_to_settings(),
        Err(ConfigError::InvalidPattern { pattern: "(".to_string() })
    );
    filter.regex_pattern = Some("a".to_string());
    assert_eq!(
        filter.apply_to_settings(),
        Err(ConfigError::InvalidDate { year: 2023, month: 2, day: 30 })
    );
    assert_eq!(
        SearchHelper::apply_filter_settings(&filter),
        Err(ConfigError::InvalidDate { year: 2023, month: 2, day: 30 })
    );
    filter.date_limit = DateLimitType::Specific {
        minimum_year: 2023,
        minimum_month: 2,
        minimum_day: 1,
        maximum_year: 2023,
        maximum_month: 2,
        maximum_day: 31,
    };
    assert_eq!(
        filter.apply_to_settings(),
        Err(ConfigError::InvalidDate { year: 2023, month: 2, day: 31 })
    );
}

#[test]
fn config_error_has_a_message() {
    let pattern = ConfigError::InvalidPattern { pattern: "a(".to_string() };
    assert_eq!(pattern.message(), "invalid pattern: a(");
    let date = ConfigError::InvalidDate { year: 1, month: 2, day: 30 };
    assert_eq!(date.message(), "invalid calendar date");
}

fn unchanged_record() -> SavedSettings {
    SavedSettings {
        search_hidden_files: true,
        search_hidden_folders: false,
        search_filesize_maximum_limit: 1024 * 1024 * 1024,
        search_filesize_minimum_limit: 0,
        search_readonly: false,
        save_hash: false,
        regex_contain_path: false,
        search_system_files: false,
        search_timelimit: false,
        search_timelimit_currenttime_type: false,
        search_compare_with_current_time_limit: 0,
        search_compare_with_current_time_newer: true,
        search_modify_time_maximum_limit: 1145141919810,
        search_modify_time_minimum_limit: 0,
        search_depth: 255,
        file_regex: String::new(),
    }
}

#[test]
fn default_settings_are_saved_as_the_unchanged_record() {
    assert_eq!(save_settings(255, &Settings::default()), unchanged_record());
    assert_eq!(load_settings(&unchanged_record()), (255, Settings::default()));
}

#[test]
fn saved_settings_are_loaded_as_they_were() {
    let limits = [
        TimeLimit::Unlimited,
        TimeLimit::Relative { seconds: 604800, newer: false },
        TimeLimit::Relative { seconds: 0, newer: true },
        TimeLimit::Absolute { minimum: -5, maximum: 1431734399 },
        TimeLimit::Absolute { minimum: 0, maximum: 1145141919810 },
    ];
    for (depth, limit) in limits.iter().enumerate() {
        let mut settings = Settings::default();
        settings.search_hidden_folders = true;
        settings.search_filesize_minimum_limit = 3;
        settings.save_hash = depth % 2 == 0;
        settings.file_regex = r"\.txt$".to_string();
        settings.time_limit = *limit;
        let record = save_settings(depth as u8, &settings);
        assert_eq!(load_settings(&record), (depth as u8, settings));
    }
}

#[test]
fn saved_relative_limit_sets_both_flags() {
    let mut settings = Settings::default();
    settings.time_limit = TimeLimit::Relative { seconds: 9, newer: false };
    let mut expected = unchanged_record();
    expected.search_depth = 4;
    expected.search_timelimit = true;
    expected.search_timelimit_currenttime_type = true;
    expected.search_compare_with_current_time_limit = 9;
    expected.search_compare_with_current_time_newer = false;
    assert_eq!(save_settings(4, &settings), expected);
}

#[test]
fn saved_absolute_limit_sets_the_first_flag_only() {
    let mut settings = Settings::default();
    settings.time_limit = TimeLimit::Absolute { minimum: 10, maximum: 20 };
    let mut expected = unchanged_record();
    expected.search_depth = 1;
    expected.search_timelimit = true;
    expected.search_modify_time_minimum_limit = 10;
    expected.search_modify_time_maximum_limit = 20;
    assert_eq!(save_settings(1, &settings), expected);
}

#[test]
fn loading_passes_over_the_numbers_of_a_limit_that_is_off() {
    let mut record = unchanged_record();
    record.search_compare_with_current_time_limit = 77;
    record.search_modify_time_minimum_limit = 5;
    record.search_timelimit_currenttime_type = true;
    assert_eq!(load_settings(&record).1.time_limit, TimeLimit::Unlimited);
    record.search_timelimit = true;
    assert_eq!(
        load_settings(&record).1.time_limit,
        TimeLimit::Relative { seconds: 77, newer: true }
    );
    record.search_timelimit_currenttime_type = false;
    assert_eq!(
        load_settings(&record).1.time_limit,
        TimeLimit::Absolute { minimum: 5, maximum: 1145141919810 }
    );
}
