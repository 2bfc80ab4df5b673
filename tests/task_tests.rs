use kubos_core::scheduler::{
    after_start, check_start, launch_step, next_fire, ExitReport, LaunchEvent, LaunchNext, StartDecision,
    LAUNCH_ATTEMPTS, LAUNCH_FAILED_CODE,
};
use kubos_core::task::{parse_hms_field, validate_task_list, App, SchedulerError, Task, TaskList};
use std::time::Duration;

fn secs(field: &str) -> Result<Duration, SchedulerError> {
    parse_hms_field(field).map(Duration::from_secs)
}

fn task(delay: Option<&str>, time: Option<&str>, period: Option<&str>) -> Task {
    Task {
        id: Some(7),
        delay: delay.map(|s| s.to_owned()),
        time: time.map(|s| s.to_owned()),
        period: period.map(|s| s.to_owned()),
        app: App { name: "/bin/true".to_owned(), args: None, config: None },
    }
}

fn list(tasks: Vec<Task>) -> TaskList {
    TaskList {
        tasks,
        path: "/tmp/modes/day/list.json".to_owned(),
        filename: "list".to_owned(),
        time_imported: "2020-01-01 00:00:00".to_owned(),
    }
}

// 2020-01-01 00:00:00 UTC
const NEW_YEAR_2020: i64 = 1577836800;

#[test]
fn test_parse_seconds() {
    assert_eq!(secs("21s"), Ok(Duration::from_secs(21)));
}

#[test]
fn test_parse_minutes() {
    assert_eq!(secs("3m"), Ok(Duration::from_secs(180)));
}

#[test]
fn test_parse_hours() {
    assert_eq!(secs("2h"), Ok(Duration::from_secs(7200)));
}

#[test]
fn test_parse_minutes_seconds() {
    assert_eq!(secs("1m 1s"), Ok(Duration::from_secs(61)));
}

#[test]
fn test_parse_hours_minutes() {
    assert_eq!(secs("3h 10m"), Ok(Duration::from_secs(11400)));
}

#[test]
fn test_parse_hours_seconds() {
    assert_eq!(secs("5h 44s"), Ok(Duration::from_secs(18044)));
}

#[test]
fn test_parse_hours_minutes_seconds() {
    assert_eq!(secs("2h 2m 2s"), Ok(Duration::from_secs(7322)));
}

#[test]
fn hms_rejects_bad_fields() {
    for bad in ["", "5", "s", "5x", "1m  1s", "a5s", "1m ", "99999999999999999999s"] {
        match parse_hms_field(bad) {
            Err(SchedulerError::HmsParseError { field, .. }) => assert_eq!(field, bad),
            other => panic!("{:?} gave {:?}", bad, other),
        }
    }
}

#[test]
fn hms_total_overflow_is_an_error() {
    assert!(parse_hms_field("18446744073709551615s 1s").is_err());
    assert_eq!(parse_hms_field("18446744073709551615s"), Ok(u64::MAX));
}

#[test]
fn description_with_and_without_id() {
    let mut t = task(Some("1s"), None, None);
    assert_eq!(t.description(), "7: /bin/true");
    t.id = Some(-12);
    assert_eq!(t.description(), "-12: /bin/true");
    t.id = Some(0);
    assert_eq!(t.description(), "0: /bin/true");
    t.id = Some(i32::MIN);
    assert_eq!(t.description(), "-2147483648: /bin/true");
    t.id = Some(i32::MAX);
    assert_eq!(t.description(), "2147483647: /bin/true");
    t.id = None;
    assert_eq!(t.description(), "/bin/true");
}

#[test]
fn delay_is_added_to_now() {
    let t = task(Some("1m 5s"), None, None);
    assert_eq!(t.get_absolute_at(1000), Ok(1065));
}

#[test]
fn delay_past_the_clock_range_is_rejected() {
    let t = task(Some("10s"), None, None);
    assert!(matches!(t.get_absolute_at(i64::MAX - 5), Err(SchedulerError::TaskParseError { .. })));
}

#[test]
fn time_is_read_as_utc() {
    let t = task(None, Some("2020-01-01 00:00:00"), None);
    assert_eq!(t.get_absolute_at(NEW_YEAR_2020 - 5), Ok(NEW_YEAR_2020));
    assert_eq!(t.get_absolute_at(NEW_YEAR_2020), Ok(NEW_YEAR_2020));
}

#[test]
fn time_outside_window_is_a_time_error() {
    let t = task(None, Some("2020-01-01 00:00:00"), None);
    match t.get_absolute_at(NEW_YEAR_2020 + 1) {
        Err(SchedulerError::TaskTimeError { description, .. }) => assert_eq!(description, "7: /bin/true"),
        other => panic!("{:?}", other),
    }
    let ninety_days = 90 * 24 * 3600;
    assert_eq!(t.get_absolute_at(NEW_YEAR_2020 - ninety_days), Ok(NEW_YEAR_2020));
    assert!(matches!(
        t.get_absolute_at(NEW_YEAR_2020 - ninety_days - 1),
        Err(SchedulerError::TaskTimeError { .. })
    ));
}

#[test]
fn malformed_timing_is_a_parse_error() {
    let both = task(Some("1s"), Some("2020-01-01 00:00:00"), None);
    assert!(matches!(both.get_absolute_at(0), Err(SchedulerError::TaskParseError { .. })));
    let neither = task(None, None, None);
    assert!(matches!(neither.get_absolute_at(0), Err(SchedulerError::TaskParseError { .. })));
    let garbled = task(None, Some("2020-13-01 00:00:00"), None);
    assert!(matches!(garbled.get_absolute_at(0), Err(SchedulerError::TaskParseError { .. })));
    let bad_delay = task(Some("1x"), None, None);
    assert!(matches!(bad_delay.get_absolute_at(0), Err(SchedulerError::HmsParseError { .. })));
}

#[test]
fn period_is_parsed_when_present() {
    assert_eq!(task(Some("1s"), None, None).get_period(), Ok(None));
    assert_eq!(task(Some("1s"), None, Some("2s")).get_period(), Ok(Some(2)));
    assert!(matches!(
        task(Some("1s"), None, Some("2 s")).get_period(),
        Err(SchedulerError::HmsParseError { .. })
    ));
}

#[test]
fn validation_skips_out_of_window_times() {
    let past = task(None, Some("2020-01-01 00:00:00"), None);
    let ok = task(Some("1s"), None, Some("2s"));
    assert_eq!(validate_task_list(&list(vec![past, ok]), NEW_YEAR_2020 + 100), Ok(()));
}

#[test]
fn validation_fails_on_first_bad_task() {
    let ok = task(Some("1s"), None, None);
    let bad_period = task(Some("1s"), None, Some("often"));
    let bad_delay = task(Some("soon"), None, None);
    match validate_task_list(&list(vec![ok, bad_period, bad_delay]), 0) {
        Err(SchedulerError::HmsParseError { field, .. }) => assert_eq!(field, "often"),
        other => panic!("{:?}", other),
    }
}

#[test]
fn failover_when_a_mode_cannot_start() {
    let lists = vec![list(vec![task(Some("1s"), None, None)]), list(vec![task(Some("bad"), None, None)])];
    let started = check_start(&lists, 0).is_ok();
    assert!(!started);
    assert_eq!(after_start("day", started), StartDecision::FailOver);
    assert_eq!(after_start("safe", started), StartDecision::Abort);
    assert_eq!(after_start("safe", true), StartDecision::Running);
    assert_eq!(check_start(&lists[..1].to_vec(), 0), Ok(()));
}

#[test]
fn successful_exit_reports_nothing() {
    let ok = launch_step(Some(4), LAUNCH_ATTEMPTS, LaunchEvent::Exited(0));
    assert_eq!((ok.report, ok.next, ok.attempts_left), (None, LaunchNext::Done, 0));
    let failed = launch_step(Some(4), LAUNCH_ATTEMPTS, LaunchEvent::Exited(2));
    assert_eq!(failed.report, Some(ExitReport { task_id: Some(4), code: 2 }));
    assert_eq!(failed.next, LaunchNext::Done);
    let anonymous = launch_step(None, LAUNCH_ATTEMPTS, LaunchEvent::Exited(2));
    assert_eq!(anonymous.report, Some(ExitReport { task_id: None, code: 2 }));
    let anonymous_ok = launch_step(None, LAUNCH_ATTEMPTS, LaunchEvent::Exited(0));
    assert_eq!(anonymous_ok.report, None);
}

#[test]
fn launch_that_never_starts_is_tried_three_times() {
    let mut left = LAUNCH_ATTEMPTS;
    let mut reports = vec![];
    let mut nexts = vec![];
    loop {
        let step = launch_step(Some(1), left, LaunchEvent::NotStarted);
        reports.push(step.report);
        nexts.push(step.next);
        if step.next != LaunchNext::RetryAfter(1) {
            break;
        }
        left = step.attempts_left;
    }
    assert_eq!(nexts, vec![LaunchNext::RetryAfter(1), LaunchNext::RetryAfter(1), LaunchNext::GiveUp]);
    let failure = Some(ExitReport { task_id: Some(1), code: LAUNCH_FAILED_CODE });
    assert_eq!(reports, vec![failure, failure, failure]);
}

#[test]
fn periodic_tasks_fire_again_one_period_later() {
    assert_eq!(next_fire(100, Some(2)), Some(102));
    assert_eq!(next_fire(100, None), None);
    assert_eq!(next_fire(100, Some(0)), None);
    assert_eq!(next_fire(i64::MAX - 1, Some(1)), Some(i64::MAX));
    assert_eq!(next_fire(i64::MAX - 1, Some(2)), None);
}

#[test]
fn duration_errors_carry_their_message() {
    match parse_hms_field("5x") {
        Err(SchedulerError::HmsParseError { err, field }) => {
            assert_eq!(err, "invalid duration");
            assert_eq!(field, "5x");
        }
        other => panic!("{:?}", other),
    }
}

#[test]
fn launch_failures_of_a_task_without_id_are_reported() {
    let mut left = LAUNCH_ATTEMPTS;
    let mut reports = vec![];
    loop {
        let step = launch_step(None, left, LaunchEvent::NotStarted);
        reports.push(step.report);
        if step.next != LaunchNext::RetryAfter(1) {
            assert_eq!(step.next, LaunchNext::GiveUp);
            break;
        }
        left = step.attempts_left;
    }
    let failure = Some(ExitReport { task_id: None, code: LAUNCH_FAILED_CODE });
    assert_eq!(reports, vec![failure, failure, failure]);
}
