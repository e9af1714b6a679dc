use tepora_core::log_retention::{frontend_log_day, is_stale_log, log_file_name, retention_start_day};

// 2024-03-10 counted from January 1 of year 1.
const DAY_2024_03_10: i32 = 738_955;

#[test]
fn log_names_round_trip_through_their_day() {
    let name = log_file_name(DAY_2024_03_10).unwrap();
    assert_eq!(name, "frontend-2024-03-10.log");
    assert_eq!(frontend_log_day(&name), Some(DAY_2024_03_10));
    assert_eq!(frontend_log_day("frontend-2024-02-30.log"), None);
    assert_eq!(frontend_log_day("frontend-.log"), None);
    assert_eq!(frontend_log_day("backend-2024-03-10.log"), None);
    assert_eq!(frontend_log_day("frontend-2024-03-10.txt"), None);
}

#[test]
fn stale_logs_are_those_before_the_retention_window() {
    let keep_from = retention_start_day(DAY_2024_03_10);
    assert_eq!(keep_from, DAY_2024_03_10 - 6);
    assert_eq!(log_file_name(keep_from).unwrap(), "frontend-2024-03-04.log");
    let stale = log_file_name(keep_from - 1).unwrap();
    let retained = log_file_name(keep_from).unwrap();
    assert!(is_stale_log(&stale, keep_from));
    assert!(!is_stale_log(&retained, keep_from));
    assert!(!is_stale_log(&log_file_name(DAY_2024_03_10).unwrap(), keep_from));
}

#[test]
fn non_frontend_files_are_never_stale() {
    assert!(!is_stale_log("app.log", i32::MAX));
    assert!(!is_stale_log("frontend-notes.log", i32::MAX));
    assert!(!is_stale_log("frontend-2024-03-10.log.bak", i32::MAX));
}

#[test]
fn retention_start_stays_in_range() {
    assert_eq!(retention_start_day(i32::MIN), i32::MIN);
    assert!(log_file_name(i32::MAX).is_none());
}

#[test]
fn calendar_range_edges() {
    let first: i32 = -95_746_129;
    let last: i32 = 95_745_399;
    assert_eq!(log_file_name(last).as_deref(), Some("frontend-+262142-12-31.log"));
    assert!(log_file_name(last + 1).is_none());
    assert!(log_file_name(first).is_some());
    assert!(log_file_name(first - 1).is_none());
    assert_eq!(retention_start_day(first), first);
    assert_eq!(retention_start_day(first + 6), first);
    assert_eq!(retention_start_day(last), last - 6);
}
