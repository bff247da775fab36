use tw_celoxis::files::{cache_path, read_month_file, DataDir, DataDirError, DateRange};
use tw_celoxis::grouping::TimeData;

const JAN_1: i32 = 738_886;

#[test]
fn month_files_are_told_by_their_names() {
    assert_eq!(read_month_file("2024-01.data"), Some((2024, 1)));
    assert_eq!(read_month_file("0000-99.data"), Some((0, 99)));
    assert_eq!(read_month_file("2024-1.data"), None);
    assert_eq!(read_month_file("2024-01.dat"), None);
    assert_eq!(read_month_file("2024-01.data "), None);
    assert_eq!(read_month_file("2024_01.data"), None);
    assert_eq!(read_month_file("20a4-01.data"), None);
    assert_eq!(read_month_file("2024-0x.data"), None);
    assert_eq!(read_month_file("２０２４-01.data"), None);
    assert_eq!(read_month_file("x2024-01.data"), None);
    assert_eq!(read_month_file(""), None);
}

#[test]
fn a_file_counts_when_its_month_meets_the_range() {
    let january = DateRange { start: JAN_1 + 9, end: JAN_1 + 19 };
    assert!(TimeData::is_file_in_date_range("2024-01.data", &january));
    assert!(!TimeData::is_file_in_date_range("2023-12.data", &january));
    assert!(!TimeData::is_file_in_date_range("2024-02.data", &january));
    assert!(!TimeData::is_file_in_date_range("backup.data", &january));
    let turn = DateRange { start: JAN_1 - 1, end: JAN_1 };
    assert!(TimeData::is_file_in_date_range("2023-12.data", &turn));
    assert!(TimeData::is_file_in_date_range("2024-01.data", &turn));
    assert!(!TimeData::is_file_in_date_range("2023-11.data", &turn));
    let last_day = DateRange { start: JAN_1 + 30, end: JAN_1 + 30 };
    assert!(TimeData::is_file_in_date_range("2024-01.data", &last_day));
    assert!(!TimeData::is_file_in_date_range("2024-02.data", &last_day));
    let first_of_next = DateRange { start: JAN_1 + 31, end: JAN_1 + 31 };
    assert!(!TimeData::is_file_in_date_range("2024-01.data", &first_of_next));
    assert!(TimeData::is_file_in_date_range("2024-02.data", &first_of_next));
}

#[test]
fn a_month_that_does_not_exist_counts_as_the_range_itself() {
    let range = DateRange { start: JAN_1, end: JAN_1 + 5 };
    assert!(TimeData::is_file_in_date_range("2024-13.data", &range));
    assert!(!TimeData::is_file_in_date_range("2024-00.data", &range));
    let day = DateRange { start: JAN_1 + 40, end: JAN_1 + 40 };
    assert!(!TimeData::is_file_in_date_range("2024-00.data", &day));
    assert!(!TimeData::is_file_in_date_range("2024-99.data", &day));
}

#[test]
fn days_are_written_for_the_tracker() {
    assert_eq!(TimeData::format_timewarrior_date_start(JAN_1 + 1), Some("2024-01-02".to_string()));
    assert_eq!(
        TimeData::format_timewarrior_date_end(JAN_1 + 1),
        Some("2024-01-02T23:59:59".to_string())
    );
    assert_eq!(TimeData::format_timewarrior_date_start(1), Some("0001-01-01".to_string()));
    assert_eq!(TimeData::format_timewarrior_date_start(719_163), Some("1970-01-01".to_string()));
    assert_eq!(TimeData::format_timewarrior_date_start(i32::MAX), None);
    assert_eq!(TimeData::format_timewarrior_date_end(i32::MIN), None);
}

#[test]
fn the_tracker_is_asked_for_a_range() {
    let range = DateRange { start: JAN_1, end: JAN_1 + 30 };
    assert_eq!(
        TimeData::export_arguments(&range).unwrap(),
        vec!["export", "from", "2024-01-01", "to", "2024-01-31T23:59:59"]
    );
    assert!(TimeData::export_arguments(&DateRange { start: i32::MIN, end: 0 }).is_none());
    assert!(TimeData::export_arguments(&DateRange { start: 0, end: i32::MAX }).is_none());
}

#[test]
fn the_data_directory_is_chosen_by_what_exists() {
    let choose = TimeData::detect_timewarrior_dir;
    assert_eq!(choose(Some(true), Some(true)), Ok(DataDir::Standard));
    assert_eq!(choose(Some(true), None), Ok(DataDir::Standard));
    assert_eq!(choose(Some(false), Some(true)), Ok(DataDir::Legacy));
    assert_eq!(choose(None, Some(true)), Ok(DataDir::Legacy));
    assert_eq!(choose(Some(false), Some(false)), Ok(DataDir::CreateStandard));
    assert_eq!(choose(None, Some(false)), Err(DataDirError::NoDataDirectory));
    assert_eq!(choose(Some(false), None), Err(DataDirError::NoHomeDirectory));
    assert_eq!(choose(None, None), Err(DataDirError::NoHomeDirectory));
}

#[test]
fn the_cache_lies_beside_the_data() {
    let standard = "/home/a/.local/share/timewarrior/celoxis_cache.json";
    assert_eq!(cache_path(Some("/home/a"), true, true), standard);
    assert_eq!(cache_path(Some("/home/a"), true, false), standard);
    assert_eq!(cache_path(Some("/home/a"), false, false), standard);
    assert_eq!(cache_path(Some("/home/a"), false, true), "/home/a/.timewarrior/celoxis_cache.json");
    assert_eq!(cache_path(None, true, true), "celoxis_cache.json");
}
