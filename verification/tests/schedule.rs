use chrono::{Local, TimeZone, Utc};
use world_backup::cron_text::{normalize_cron, CronTextError};
use world_backup::interval::interval_is_measured;
use world_backup::schedule::{
    aligned_run, cron_run, schedule_from_cron, schedule_from_interval, wait_until, ScheduleError,
    ScheduleSpec, Span,
};
use world_backup::time::Timestamp;

fn now() -> Timestamp {
    let now = Utc::now();
    Timestamp { secs: now.timestamp(), nanos: now.timestamp_subsec_nanos() }
}

fn at(secs: i64, nanos: u32) -> Timestamp {
    Timestamp { secs, nanos }
}

fn span_of(schedule: &ScheduleSpec) -> Span {
    match schedule {
        ScheduleSpec::Interval(span) | ScheduleSpec::Aligned(span) => *span,
        ScheduleSpec::Cron { .. } => panic!("a cron schedule"),
    }
}

#[test]
fn accepts_five_field_cron() {
    let schedule = ScheduleSpec::from_args(None, Some("*/15 * * * *")).unwrap();
    assert_eq!(schedule.expression(), Some("0 */15 * * * *"));
}

#[test]
fn expands_cron_aliases() {
    let schedule = ScheduleSpec::from_args(None, Some("@hourly")).unwrap();
    assert_eq!(schedule.expression(), Some("0 0 * * * *"));
}

#[test]
fn interval_schedule_moves_forward() {
    let schedule = ScheduleSpec::from_args(Some("30m"), None).unwrap();
    let next = schedule.next_after(&now()).unwrap();
    assert!(next.is_later(&now()));
}

#[test]
fn intervals_mean_what_they_say() {
    let cases: [(&str, u64, u32); 11] = [
        ("30m", 1_800, 0),
        ("2h", 7_200, 0),
        ("1d", 86_400, 0),
        ("45s", 45, 0),
        ("3w", 1_814_400, 0),
        ("1h 30m", 5_400, 0),
        ("250ms", 0, 250_000_000),
        ("1.5h", 5_400, 0),
        ("600000000000ns 1s", 601, 0),
        ("999999999ns 1ns", 1, 0),
        ("18446744073709551614s 1000ms", u64::MAX, 0),
    ];
    for (text, secs, nanos) in cases {
        assert!(interval_is_measured(text));
        let schedule = ScheduleSpec::from_args(Some(text), None).unwrap();
        assert_eq!(span_of(&schedule), Span { secs, nanos }, "{text}");
        assert_eq!(schedule.expression(), None);
    }
}

#[test]
fn without_arguments_a_backup_is_due_every_hour() {
    let schedule = ScheduleSpec::from_args(None, None).unwrap();
    assert_eq!(span_of(&schedule), Span { secs: 3_600, nanos: 0 });
    assert!(matches!(schedule, ScheduleSpec::Interval(_)));
    let aligned = ScheduleSpec::from_run_args(None, None, true).unwrap();
    assert!(matches!(aligned, ScheduleSpec::Aligned(_)));
}

#[test]
fn tells_what_is_wrong_with_a_schedule() {
    assert!(matches!(
        ScheduleSpec::from_args(Some("30m"), Some("@daily")),
        Err(ScheduleError::Both)
    ));
    assert!(matches!(
        ScheduleSpec::from_run_args(None, Some("@daily"), true),
        Err(ScheduleError::AlignedCron)
    ));
    assert!(matches!(
        ScheduleSpec::from_args(Some("0s"), None),
        Err(ScheduleError::ZeroInterval)
    ));
    match ScheduleSpec::from_args(Some("soon"), None) {
        Err(ScheduleError::InvalidInterval { interval, reason }) => {
            assert_eq!(interval, "soon");
            assert_eq!(reason, "expected number at 0");
        }
        other => panic!("unexpected result: {other:?}"),
    }
    match ScheduleSpec::from_args(None, Some("99 * * * *")) {
        Err(ScheduleError::InvalidCron { expression, reason }) => {
            assert_eq!(expression, "99 * * * *");
            assert!(!reason.is_empty());
        }
        other => panic!("unexpected result: {other:?}"),
    }
    assert!(matches!(
        ScheduleSpec::from_args(None, Some("  ")),
        Err(ScheduleError::CronText(CronTextError::Empty))
    ));
    assert!(matches!(
        ScheduleSpec::from_args(None, Some("* * *")),
        Err(ScheduleError::CronText(CronTextError::FieldCount(3)))
    ));
}

#[test]
fn schedules_follow_from_what_was_read() {
    assert!(matches!(
        schedule_from_interval("x", Ok((0, 0)), false),
        Err(ScheduleError::ZeroInterval)
    ));
    assert!(matches!(
        schedule_from_interval("x", Ok((0, 1)), false),
        Ok(ScheduleSpec::Interval(Span { secs: 0, nanos: 1 }))
    ));
    assert!(matches!(
        schedule_from_interval("x", Ok((5, 0)), true),
        Ok(ScheduleSpec::Aligned(Span { secs: 5, nanos: 0 }))
    ));
    assert!(schedule_from_interval("x", Err("no".to_string()), true).is_err());
    let cron = schedule_from_cron("@daily", "0 0 0 * * *".to_string(), None).unwrap();
    assert_eq!(cron.expression(), Some("0 0 0 * * *"));
    match schedule_from_cron("raw", "full".to_string(), Some("bad".to_string())) {
        Err(ScheduleError::InvalidCron { expression, reason }) => {
            assert_eq!(expression, "raw");
            assert_eq!(reason, "bad");
        }
        other => panic!("unexpected result: {other:?}"),
    }
    assert_eq!(cron_run(Some(7)).unwrap(), at(7, 0));
    assert!(matches!(cron_run(None), Err(ScheduleError::NoFutureRun)));
}

#[test]
fn normalizes_cron_expressions() {
    let cases = [
        ("@yearly", "0 0 0 1 1 *"),
        ("@annually", "0 0 0 1 1 *"),
        ("@monthly", "0 0 0 1 * *"),
        ("@weekly", "0 0 0 * * 0"),
        ("@daily", "0 0 0 * * *"),
        ("@midnight", "0 0 0 * * *"),
        (" @hourly ", "0 0 * * * *"),
        (" 0 */6 * * * ", "0 0 */6 * * *"),
        ("1 2 3 4 5 6", "1 2 3 4 5 6"),
        ("1 2 3 4 5 6 2030", "1 2 3 4 5 6 2030"),
        ("1\t2  3 4\n5", "0 1\t2  3 4\n5"),
    ];
    for (raw, expected) in cases {
        let text = normalize_cron(raw).unwrap();
        assert_eq!(text, expected);
        assert_eq!(normalize_cron(&text).unwrap(), text);
    }
    assert_eq!(normalize_cron(""), Err(CronTextError::Empty));
    assert_eq!(normalize_cron("@reboot"), Err(CronTextError::FieldCount(1)));
    assert_eq!(normalize_cron("1 2 3 4 5 6 7 8"), Err(CronTextError::FieldCount(8)));
}

#[test]
fn intervals_are_added_exactly() {
    let schedule = ScheduleSpec::Interval(Span { secs: 10, nanos: 600_000_000 });
    assert_eq!(schedule.next_after(&at(100, 500_000_000)).unwrap(), at(111, 100_000_000));
    let short = ScheduleSpec::Interval(Span { secs: 0, nanos: 300_000_000 });
    assert_eq!(short.next_after(&at(59, 1_500_000_000)).unwrap(), at(59, 1_800_000_000));
    assert_eq!(short.next_after(&at(59, 1_800_000_000)).unwrap(), at(60, 100_000_000));
    assert_eq!(schedule.next_after(&at(59, 1_500_000_000)).unwrap(), at(70, 100_000_000));
    let long = ScheduleSpec::Interval(Span { secs: 9_223_372_036_854_776, nanos: 0 });
    assert!(long.can_follow(&at(0, 0)));
    assert!(matches!(long.next_after(&at(0, 0)), Err(ScheduleError::IntervalTooLong)));
    let far = ScheduleSpec::Interval(Span { secs: 9_223_372_036_854_775, nanos: 0 });
    assert!(!far.can_follow(&at(0, 0)));
}

#[test]
fn intervals_are_added_as_the_calendar_adds_them() {
    let lengths = [(0, 1), (0, 999_999_999), (1, 0), (86_399, 500_000_000), (100_000_000, 7)];
    let moments = [(0, 0), (1_770_000_000, 123_456_789), (-5, 999_999_999), (59, 1_999_999_999)];
    for (secs, nanos) in lengths {
        for (now_secs, now_nanos) in moments {
            let length = chrono::TimeDelta::new(secs, nanos).unwrap();
            let expected = chrono::DateTime::from_timestamp(now_secs, now_nanos).unwrap() + length;
            let schedule = ScheduleSpec::Interval(Span { secs: secs as u64, nanos });
            let next = schedule.next_after(&at(now_secs, now_nanos)).unwrap();
            assert_eq!(next.secs, expected.timestamp());
            assert_eq!(next.nanos, expected.timestamp_subsec_nanos());
        }
    }
}

#[test]
fn aligned_backups_fall_on_boundaries_from_midnight() {
    let half_hour = Span { secs: 1_800, nanos: 0 };
    let morning = 20_000 * 86_400 + 9 * 3_600 + 39 * 60;
    let ten = 20_000 * 86_400 + 10 * 3_600;
    let next = aligned_run(&at(morning, 0), &half_hour, 0, Some((ten, ten)));
    assert_eq!(next, at(ten, 0));
    let next = aligned_run(&at(morning - 7_200, 0), &half_hour, 7_200, Some((ten - 7_200, ten - 7_200)));
    assert_eq!(next, at(ten - 7_200, 0));
    let next = aligned_run(&at(ten, 0), &half_hour, 0, Some((ten + 1_800, ten + 1_800)));
    assert_eq!(next, at(ten + 1_800, 0));
    let next = aligned_run(&at(morning, 5), &half_hour, 0, None);
    assert_eq!(next, at(ten, 0));
    let next = aligned_run(&at(morning, 0), &half_hour, 0, Some((morning - 60, ten)));
    assert_eq!(next, at(ten, 0));
    let next = aligned_run(&at(morning, 0), &half_hour, 0, Some((morning - 60, morning)));
    assert_eq!(next, at(ten, 0));
    let next = aligned_run(&at(morning, 0), &half_hour, 0, Some((ten, ten + 3_600)));
    assert_eq!(next, at(ten, 0));
    let next = aligned_run(&at(morning, 0), &half_hour, 0, Some((ten + 3_600, ten)));
    assert_eq!(next, at(ten, 0));
    let next = aligned_run(&at(morning, 0), &half_hour, 0, Some((ten, morning - 60)));
    assert_eq!(next, at(ten, 0));
    let odd = Span { secs: 0, nanos: 700_000_000 };
    let next = aligned_run(&at(20_000 * 86_400 + 1, 0), &odd, 0, None);
    assert_eq!(next, at(20_000 * 86_400 + 1, 400_000_000));
}

#[test]
fn aligned_schedules_run_at_local_boundaries() {
    let schedule = ScheduleSpec::from_run_args(Some("30m"), None, true).unwrap();
    let local = Local.with_ymd_and_hms(2026, 2, 10, 9, 39, 0).single().unwrap();
    let next = schedule.next_after(&at(local.timestamp(), 0)).unwrap();
    let expected = Local.with_ymd_and_hms(2026, 2, 10, 10, 0, 0).single().unwrap();
    assert_eq!(next, at(expected.timestamp(), 0));
}

#[test]
fn cron_schedules_run_in_local_time() {
    let schedule = ScheduleSpec::from_args(None, Some("0 */6 * * *")).unwrap();
    let local = Local.with_ymd_and_hms(2026, 2, 10, 9, 39, 0).single().unwrap();
    let next = schedule.next_after(&at(local.timestamp(), 5)).unwrap();
    let expected = Local.with_ymd_and_hms(2026, 2, 10, 12, 0, 0).single().unwrap();
    assert_eq!(next, at(expected.timestamp(), 0));
}

#[test]
fn cron_schedules_run_when_clocks_show_what_they_name() {
    let schedule = ScheduleSpec::from_args(None, Some("0 */6 * * *")).unwrap();
    let hourly = ScheduleSpec::from_args(None, Some("30 * * * *")).unwrap();
    let noon = 20_000 * 86_400 + 12 * 3_600;
    assert!(schedule.names(noon));
    assert!(!schedule.names(noon + 1));
    assert!(!schedule.names(noon + 3_600));
    assert!(!hourly.names(noon));
    assert!(hourly.names(noon + 1_800));
    let daily = ScheduleSpec::from_args(Some("1d"), None).unwrap();
    assert!(!daily.names(noon));
    for (cron, other) in [(&schedule, &hourly), (&hourly, &schedule)] {
        let next = cron.next_after(&now()).unwrap();
        let shown = Local.timestamp_opt(next.secs, 0).unwrap().naive_local().and_utc().timestamp();
        assert!(cron.names(shown));
        assert!(!other.names(shown));
    }
}

#[test]
fn cron_schedules_run_after_a_leap_second() {
    let schedule = ScheduleSpec::from_args(None, Some("0 */6 * * *")).unwrap();
    let local = Local.with_ymd_and_hms(2026, 2, 10, 9, 39, 0).single().unwrap();
    let expected = Local.with_ymd_and_hms(2026, 2, 10, 12, 0, 0).single().unwrap();
    for second in [0, 30, 59] {
        let next = schedule.next_after(&at(local.timestamp() + second, 1_500_000_000)).unwrap();
        assert_eq!(next, at(expected.timestamp(), 0));
    }
}

#[test]
fn a_cron_expression_may_name_no_time_in_the_future() {
    let schedule = ScheduleSpec::from_args(None, Some("0 0 0 1 1 * 2001")).unwrap();
    assert!(matches!(schedule.next_after(&now()), Err(ScheduleError::NoFutureRun)));
}

#[test]
fn only_intervals_that_come_to_too_many_seconds_exactly_are_not_measured() {
    for text in ["18446744073709551615s 1000ms", "18446744073709551615s 999ms 1000us"] {
        assert!(!interval_is_measured(text), "{text}");
    }
    for text in [
        "",
        "soon",
        "1 000 000 years 12 days",
        "600000000000ns 1s",
        "18446744073709551615s",
        "18446744073709551615.5 s",
        "18446744073709551615s 999ms",
        "584542046090y 1ns",
    ] {
        assert!(interval_is_measured(text), "{text}");
    }
}

#[test]
fn intervals_beyond_the_largest_are_refused() {
    for text in [
        "18446744073709551615s 1s",
        "18446744073709551615s 1001ms",
        "584542046091y",
        "18446744073709551616ns",
        "999ms 18446744073709551615ns",
        "18446744073709552us 18428297329635842063s",
        "0.0001h 18446744073709551615s 640ms",
    ] {
        assert!(interval_is_measured(text), "{text}");
        assert!(
            matches!(
                ScheduleSpec::from_args(Some(text), None),
                Err(ScheduleError::InvalidInterval { .. })
            ),
            "{text}"
        );
    }
}

#[test]
fn waiting_goes_in_naps_of_a_second() {
    let deadline = at(1_000, 500_000_000);
    assert_eq!(
        wait_until(&deadline, &at(900, 0), false),
        Some(Span { secs: 1, nanos: 0 })
    );
    assert_eq!(
        wait_until(&deadline, &at(1_000, 200_000_000), false),
        Some(Span { secs: 0, nanos: 300_000_000 })
    );
    assert_eq!(
        wait_until(&at(86_400, 0), &at(86_399, 900_000_000), false),
        Some(Span { secs: 0, nanos: 100_000_000 })
    );
    assert_eq!(
        wait_until(&at(86_400, 0), &at(86_399, 1_500_000_000), false),
        Some(Span { secs: 0, nanos: 0 })
    );
    assert_eq!(wait_until(&deadline, &deadline, false), None);
    assert_eq!(wait_until(&deadline, &at(1_001, 0), false), None);
    assert_eq!(wait_until(&deadline, &at(900, 0), true), None);
}
