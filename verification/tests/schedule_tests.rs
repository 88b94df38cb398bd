use recall_cli::schedule::{
    day_code, plan_schedule, ps_hours_minutes, task_name_start, task_name_stop, CleanupTimer,
    ScheduleError, STOP_COMMAND, VBS_HEAD, VBS_TAIL,
};

#[test]
fn task_names_carry_prefix_and_suffix() {
    assert_eq!(task_name_start("Saturday"), "Recall_Saturday");
    assert_eq!(task_name_stop("Saturday"), "Recall_Saturday_stop");
    assert_eq!(task_name_stop(""), format!("{}_stop", task_name_start("")));
}

#[test]
fn day_code_accepts_short_and_long_names_in_any_case() {
    assert_eq!(day_code("SAT").unwrap(), "Saturday");
    assert_eq!(day_code("sat").unwrap(), "Saturday");
    assert_eq!(day_code("Monday").unwrap(), "Monday");
    assert_eq!(day_code("tUe").unwrap(), "Tuesday");
    assert_eq!(day_code("wednesday").unwrap(), "Wednesday");
    assert_eq!(day_code("THU").unwrap(), "Thursday");
    assert_eq!(day_code("fri").unwrap(), "Friday");
    assert_eq!(day_code("Sunday").unwrap(), "Sunday");
}

#[test]
fn weekday_names_map_to_themselves() {
    for d in ["mon", "TUESDAY", "wed", "thu", "Fri", "sat", "SUN"] {
        let n = day_code(d).unwrap();
        assert_eq!(day_code(&n).unwrap(), n);
    }
}

#[test]
fn day_code_uses_unicode_upper_case() {
    // U+017F LATIN SMALL LETTER LONG S upper-cases to 'S'.
    assert_eq!(day_code("\u{17f}at").unwrap(), "Saturday");
}

#[test]
fn day_code_rejects_unknown_days() {
    match day_code("Someday") {
        Err(ScheduleError::UnknownDay(d)) => assert_eq!(d, "Someday"),
        other => panic!("unexpected {:?}", other),
    }
    assert!(matches!(day_code(" SAT"), Err(ScheduleError::UnknownDay(_))));
    assert!(matches!(day_code(""), Err(ScheduleError::UnknownDay(_))));
}

#[test]
fn hours_and_minutes_are_written_back_plainly() {
    let (h, m) = ps_hours_minutes("09:00").unwrap();
    assert_eq!((h.as_str(), m.as_str()), ("9", "0"));
    let (h, m) = ps_hours_minutes("17:30").unwrap();
    assert_eq!((h.as_str(), m.as_str()), ("17", "30"));
    let (h, m) = ps_hours_minutes("+7:005").unwrap();
    assert_eq!((h.as_str(), m.as_str()), ("7", "5"));
    let (h, m) = ps_hours_minutes("23:59").unwrap();
    assert_eq!((h.as_str(), m.as_str()), ("23", "59"));
    let (h, m) = ps_hours_minutes("0:0").unwrap();
    assert_eq!((h.as_str(), m.as_str()), ("0", "0"));
}

#[test]
fn time_written_back_reads_back_the_same() {
    let (h, m) = ps_hours_minutes("0007:0030").unwrap();
    let again = ps_hours_minutes(&format!("{}:{}", h, m)).unwrap();
    assert_eq!(again, (h, m));
}

#[test]
fn malformed_times_are_rejected_in_order() {
    assert!(matches!(ps_hours_minutes("0900"), Err(ScheduleError::BadTimeFormat(t)) if t == "0900"));
    assert!(matches!(ps_hours_minutes("1:2:3"), Err(ScheduleError::BadTimeFormat(_))));
    assert!(matches!(ps_hours_minutes(""), Err(ScheduleError::BadTimeFormat(_))));
    assert!(matches!(ps_hours_minutes(":"), Err(ScheduleError::BadHours)));
    assert!(matches!(ps_hours_minutes("aa:bb"), Err(ScheduleError::BadHours)));
    assert!(matches!(ps_hours_minutes("4294967296:00"), Err(ScheduleError::BadHours)));
    assert!(matches!(ps_hours_minutes("4294967295:00"), Err(ScheduleError::BadHours)));
    assert!(matches!(ps_hours_minutes("25:00"), Err(ScheduleError::BadHours)));
    assert!(matches!(ps_hours_minutes("24:00"), Err(ScheduleError::BadHours)));
    assert!(matches!(ps_hours_minutes("12:60"), Err(ScheduleError::BadMinutes)));
    assert!(matches!(ps_hours_minutes("99:99"), Err(ScheduleError::BadHours)));
    assert!(matches!(ps_hours_minutes("10:-1"), Err(ScheduleError::BadMinutes)));
    assert!(matches!(ps_hours_minutes("10:+"), Err(ScheduleError::BadMinutes)));
    assert!(matches!(ps_hours_minutes(" 9:00"), Err(ScheduleError::BadHours)));
}

#[test]
fn short_intervals_start_a_running_capture() {
    let p = plan_schedule("C:\\bin\\recall-cli.exe", "Saturday", "SAT", "09:00", "17:00", 30).unwrap();
    assert_eq!(p.start_task, "Recall_Saturday");
    assert_eq!(p.stop_task, "Recall_Saturday_stop");
    assert_eq!(p.day, "Saturday");
    assert_eq!((p.start_hour.as_str(), p.start_minute.as_str()), ("9", "0"));
    assert_eq!((p.end_hour.as_str(), p.end_minute.as_str()), ("17", "0"));
    assert_eq!(p.start_command, "\"C:\\bin\\recall-cli.exe\" start --interval 30");
    assert_eq!(
        p.start_vbs,
        "Set WshShell = CreateObject(\"WScript.Shell\")\r\nWshShell.Run \"\"\"C:\\bin\\recall-cli.exe\"\" start --interval 30\", 0, False\r\n"
    );
    assert_eq!(
        p.stop_vbs,
        "Set WshShell = CreateObject(\"WScript.Shell\")\r\nWshShell.Run \"taskkill /F /IM recall-cli.exe\", 0, False\r\n"
    );
    assert_eq!(p.stop_vbs, format!("{}{}{}", VBS_HEAD, STOP_COMMAND, VBS_TAIL));
    assert!(!p.repeating);
    assert_eq!(p.interval_minutes, "0");
    assert_eq!(p.start_vbs_file, "Recall_Saturday.vbs");
    assert_eq!(p.stop_vbs_file, "Recall_Saturday_stop.vbs");
}

#[test]
fn long_intervals_repeat_single_snapshots() {
    let p = plan_schedule("recall.exe", "Work", "mon", "8:15", "16:45", 150).unwrap();
    assert_eq!(p.start_command, "\"recall.exe\" snapshot");
    assert!(p.repeating);
    assert_eq!(p.interval_minutes, "2");
    assert_eq!(p.day, "Monday");
    let p = plan_schedule("recall.exe", "Work", "mon", "8:15", "16:45", 60).unwrap();
    assert!(p.repeating);
    assert_eq!(p.interval_minutes, "1");
    let p = plan_schedule("recall.exe", "Work", "mon", "8:15", "16:45", 59).unwrap();
    assert!(!p.repeating);
}

#[test]
fn schedule_errors_come_day_first_then_start_then_end() {
    assert!(matches!(plan_schedule("x", "n", "XYZ", "bad", "bad", 30), Err(ScheduleError::UnknownDay(_))));
    assert!(matches!(plan_schedule("x", "n", "SAT", "bad", "x:1", 30), Err(ScheduleError::BadTimeFormat(t)) if t == "bad"));
    assert!(matches!(plan_schedule("x", "n", "SAT", "9:00", "x:1", 30), Err(ScheduleError::BadHours)));
    assert!(matches!(plan_schedule("x", "n", "SAT", "9:00", "1:x", 30), Err(ScheduleError::BadMinutes)));
    assert!(matches!(plan_schedule("x", "n", "SAT", "9:00", "25:00", 30), Err(ScheduleError::BadHours)));
}

#[test]
fn cleanup_runs_at_most_once_a_day() {
    let mut t = CleanupTimer::new(Some(30), 1_000, 500);
    assert_eq!(t.due(1_000, 500), None);
    assert_eq!(t.due(1_000 + 86_399, 999_999_999), None);
    assert_eq!(t.due(1_000 + 86_400, 499), None);
    assert_eq!(t.due(1_000 + 86_400, 500), Some(30));
    assert_eq!(t.due(1_000 + 90_000, 0), Some(30));
    t.mark_done(200_000, 7);
    assert_eq!(t.due(200_000 + 86_400, 6), None);
    assert_eq!(t.due(200_000 + 86_400, 7), Some(30));
}

#[test]
fn no_cleanup_without_age_limit() {
    let t = CleanupTimer::new(None, 0, 0);
    assert_eq!(t.due(10_000_000, 0), None);
}

#[test]
fn cleanup_timer_handles_extreme_instants() {
    let t = CleanupTimer::new(Some(1), i64::MAX, 0);
    assert_eq!(t.due(i64::MAX, 0), None);
    let t = CleanupTimer::new(Some(1), i64::MIN, 0);
    assert_eq!(t.due(i64::MAX, 0), Some(1));
}
