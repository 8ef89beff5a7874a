use chrono::{DateTime, TimeZone, Utc};
use cron_parser::ParseErrorKind;
use crond::{compute_next, ScheduleError, Timestamp};

fn utc(year: i32, month: u32, day: u32, hour: u32, minute: u32, second: u32) -> Timestamp {
    let instant = Utc.with_ymd_and_hms(year, month, day, hour, minute, second).unwrap();
    Timestamp::new(instant.timestamp(), 0).unwrap()
}

fn date_time(t: Timestamp) -> DateTime<Utc> {
    DateTime::from_timestamp(t.secs(), t.nanos()).unwrap()
}

#[test]
fn yearly_schedule_from_mid_june() {
    let next = compute_next("0 0 1 1 *", utc(2023, 6, 15, 12, 0, 0)).unwrap();
    assert_eq!(next, utc(2024, 1, 1, 0, 0, 0));
    assert_eq!(next.secs(), 1_704_067_200);
    assert_eq!(next.nanos(), 0);
}

#[test]
fn every_minute_moves_to_the_next_minute() {
    let next = compute_next("* * * * *", utc(2023, 6, 15, 12, 0, 30)).unwrap();
    assert_eq!(next, utc(2023, 6, 15, 12, 1, 0));
}

#[test]
fn reference_on_an_occurrence_gives_the_one_after() {
    let noon = utc(2023, 6, 15, 12, 0, 0);
    assert_eq!(compute_next("* * * * *", noon).unwrap(), utc(2023, 6, 15, 12, 1, 0));
    assert_eq!(compute_next("0 12 * * *", noon).unwrap(), utc(2023, 6, 16, 12, 0, 0));
    assert_eq!(compute_next("0 12 15 6 *", noon).unwrap(), utc(2024, 6, 15, 12, 0, 0));
}

#[test]
fn nanoseconds_of_the_reference_count() {
    let just_before = Timestamp::new(utc(2023, 6, 15, 11, 59, 59).secs(), 999_999_999).unwrap();
    assert_eq!(compute_next("0 12 * * *", just_before).unwrap(), utc(2023, 6, 15, 12, 0, 0));
    let just_after = Timestamp::new(utc(2023, 6, 15, 12, 0, 0).secs(), 1).unwrap();
    assert_eq!(compute_next("0 12 * * *", just_after).unwrap(), utc(2023, 6, 16, 12, 0, 0));
}

#[test]
fn result_is_later_than_the_reference() {
    let schedules = [
        "* * * * *",
        "*/5 * * * *",
        "0 0 * * *",
        "15,45 9-17 * * 1-5",
        "0 0 29 2 *",
        "59 23 31 12 *",
        "0 0 13 * 5",
        "0 0 1 1 0",
    ];
    let references = [
        Timestamp::new(0, 0).unwrap(),
        Timestamp::new(-1, 999_999_999).unwrap(),
        Timestamp::new(59, 999_999_999).unwrap(),
        Timestamp::new(60, 0).unwrap(),
        utc(1999, 12, 31, 23, 59, 59),
        utc(2023, 6, 15, 12, 0, 0),
        utc(2024, 2, 29, 0, 0, 0),
        utc(2100, 2, 28, 23, 59, 0),
        utc(-4000, 1, 1, 0, 0, 0),
    ];
    for schedule in schedules {
        for reference in references {
            let next = compute_next(schedule, reference).unwrap();
            assert!(next > reference, "{schedule} after {reference:?} gave {next:?}");
            assert!(reference.lt(&next));
            assert_ne!(next, reference);
            assert_eq!(next.nanos(), 0);
            assert_eq!(next.secs().rem_euclid(60), 0);
        }
    }
}

#[test]
fn asking_twice_gives_the_same_answer() {
    let reference = utc(2023, 6, 15, 12, 0, 0);
    for schedule in ["* * * * *", "0 0 1 1 *", "*/7 3 * * 2", "0 0 13 * 5"] {
        let first = compute_next(schedule, reference).unwrap();
        let second = compute_next(schedule, reference).unwrap();
        assert_eq!(first, second);
    }
    for schedule in ["", "* * * *", "61 * * * *", "0 0 31 2 *"] {
        let first = compute_next(schedule, reference).unwrap_err();
        let second = compute_next(schedule, reference).unwrap_err();
        assert_eq!(
            matches!(first, ScheduleError::Malformed(_)),
            matches!(second, ScheduleError::Malformed(_))
        );
    }
}

#[test]
fn steps_ranges_and_lists() {
    assert_eq!(
        compute_next("*/15 * * * *", utc(2023, 6, 15, 12, 7, 31)).unwrap(),
        utc(2023, 6, 15, 12, 15, 0)
    );
    assert_eq!(
        compute_next("0 9-17 * * *", utc(2023, 6, 15, 18, 0, 0)).unwrap(),
        utc(2023, 6, 16, 9, 0, 0)
    );
    assert_eq!(
        compute_next("5,35 * * * *", utc(2023, 6, 15, 12, 5, 0)).unwrap(),
        utc(2023, 6, 15, 12, 35, 0)
    );
    assert_eq!(
        compute_next("0 10-20/5 * * *", utc(2023, 6, 15, 16, 0, 0)).unwrap(),
        utc(2023, 6, 15, 20, 0, 0)
    );
    assert_eq!(
        compute_next("0 0 29 2 *", utc(2023, 6, 15, 12, 0, 0)).unwrap(),
        utc(2024, 2, 29, 0, 0, 0)
    );
}

#[test]
fn fields_may_be_separated_by_any_blanks() {
    assert_eq!(
        compute_next("  0\t0   1 1\u{a0}*  ", utc(2023, 6, 15, 12, 0, 0)).unwrap(),
        utc(2024, 1, 1, 0, 0, 0)
    );
    assert_eq!(
        compute_next(" 0  0 13\t*   5 ", utc(2023, 6, 15, 12, 0, 0)).unwrap(),
        utc(2023, 6, 16, 0, 0, 0)
    );
}

#[test]
fn one_restricted_day_field_decides_alone() {
    let reference = utc(2023, 6, 15, 12, 0, 0);
    assert_eq!(compute_next("0 0 13 * *", reference).unwrap(), utc(2023, 7, 13, 0, 0, 0));
    assert_eq!(compute_next("0 0 * * 5", reference).unwrap(), utc(2023, 6, 16, 0, 0, 0));
    assert_eq!(compute_next("0 0 * * FRI", reference).unwrap(), utc(2023, 6, 16, 0, 0, 0));
}

#[test]
fn two_restricted_day_fields_match_either_day() {
    // June 15th, 2023 is a Thursday.
    let reference = utc(2023, 6, 15, 12, 0, 0);
    assert_eq!(compute_next("0 0 13 * 5", reference).unwrap(), utc(2023, 6, 16, 0, 0, 0));
    assert_eq!(compute_next("0 0 16 * 1", reference).unwrap(), utc(2023, 6, 16, 0, 0, 0));
    assert_eq!(compute_next("0 0 20 * 5", utc(2023, 6, 16, 0, 0, 0)).unwrap(), utc(2023, 6, 20, 0, 0, 0));
    assert_eq!(compute_next("0 0 20 * 5", utc(2023, 6, 20, 0, 0, 0)).unwrap(), utc(2023, 6, 23, 0, 0, 0));
    assert_eq!(compute_next("30 8 1,15 7 SAT", reference).unwrap(), utc(2023, 7, 1, 8, 30, 0));
    assert_eq!(compute_next("30 8 1,15 7 SAT", utc(2023, 7, 1, 8, 30, 0)).unwrap(), utc(2023, 7, 8, 8, 30, 0));
    assert_eq!(compute_next("30 8 1,15 7 SAT", utc(2023, 7, 8, 8, 30, 0)).unwrap(), utc(2023, 7, 15, 8, 30, 0));
}

#[test]
fn a_day_field_is_restricted_unless_it_is_a_lone_star() {
    let reference = utc(2023, 6, 15, 12, 0, 0);
    // Every second day of the month, or any Monday.
    assert_eq!(compute_next("0 0 */2 * 1", utc(2023, 6, 17, 0, 0, 0)).unwrap(), utc(2023, 6, 19, 0, 0, 0));
    assert_eq!(compute_next("0 0 */2 * 1", utc(2023, 6, 19, 0, 0, 0)).unwrap(), utc(2023, 6, 21, 0, 0, 0));
    assert_eq!(compute_next("0 0 */2 * 1", utc(2023, 6, 25, 0, 0, 0)).unwrap(), utc(2023, 6, 26, 0, 0, 0));
    // The 31st of February, or any day of the week.
    assert_eq!(compute_next("0 0 31 2 */1", reference).unwrap(), utc(2024, 2, 1, 0, 0, 0));
}

#[test]
fn a_day_of_the_month_that_never_comes_leaves_the_weekday() {
    let reference = utc(2023, 6, 15, 12, 0, 0);
    assert_eq!(compute_next("0 0 31 2 1", reference).unwrap(), utc(2024, 2, 5, 0, 0, 0));
    assert_eq!(compute_next("0 0 30,31 2 MON-TUE", utc(2024, 2, 5, 0, 0, 0)).unwrap(), utc(2024, 2, 6, 0, 0, 0));
}

#[test]
fn a_single_restricted_day_agrees_with_the_expression_parser() {
    let references = [utc(2023, 6, 15, 12, 0, 0), utc(2024, 2, 29, 23, 59, 59), utc(1970, 1, 1, 0, 0, 0)];
    for schedule in ["* * * * *", "0 0 1 1 *", "*/10 4 * * 3", "7 7 7 7 *", "0 0 29 2 *"] {
        for reference in references {
            let direct = cron_parser::parse(schedule, &date_time(reference)).unwrap();
            let next = compute_next(schedule, reference).unwrap();
            assert_eq!(date_time(next), direct);
        }
    }
}

#[test]
fn two_restricted_days_are_the_earlier_of_two_expressions() {
    let references = [utc(2023, 6, 15, 12, 0, 0), utc(2024, 2, 29, 23, 59, 59), utc(1970, 1, 1, 0, 0, 0)];
    for (whole, by_date, by_weekday) in [
        ("0 0 13 * 5", "0 0 13 * *", "0 0 * * 5"),
        ("*/20 6 1-7 */2 0,6", "*/20 6 1-7 */2 *", "*/20 6 * */2 0,6"),
        ("15 3 */10 * 2", "15 3 */10 * *", "15 3 * * 2"),
    ] {
        for reference in references {
            let a = cron_parser::parse(by_date, &date_time(reference)).unwrap();
            let b = cron_parser::parse(by_weekday, &date_time(reference)).unwrap();
            let next = compute_next(whole, reference).unwrap();
            assert_eq!(date_time(next), a.min(b));
        }
    }
}

#[test]
fn text_that_is_no_expression_is_malformed() {
    let reference = utc(2023, 6, 15, 12, 0, 0);
    for schedule in [
        "",
        "   ",
        "* * * *",
        "* * * * * *",
        "60 * * * *",
        "* 24 * * *",
        "* * 0 * *",
        "* * 32 * *",
        "* * * 13 *",
        "* * * * 8",
        "a b c d e",
        "*/0 * * * *",
        "5-1 * * * *",
        "1,,2 * * * *",
        "* * * JAN *",
        "* * * * FUNDAY",
        "echo hi",
    ] {
        let error = compute_next(schedule, reference).unwrap_err();
        assert!(matches!(error, ScheduleError::Malformed(_)), "{schedule:?} gave {error:?}");
    }
}

#[test]
fn malformed_errors_keep_what_the_parser_reported() {
    let reference = utc(2023, 6, 15, 12, 0, 0);
    match compute_next("* * * *", reference) {
        Err(ScheduleError::Malformed(cause)) => {
            assert_eq!(cause.kind(), &ParseErrorKind::WrongFieldCount { expected: 5, actual: 4 });
        }
        other => panic!("unexpected {other:?}"),
    }
    match compute_next("61 * * * *", reference) {
        Err(ScheduleError::Malformed(cause)) => {
            assert_eq!(cause.kind(), &ParseErrorKind::OutOfRange { min: 0, max: 59, actual: 61 });
            assert_eq!(cause.token(), "61");
        }
        other => panic!("unexpected {other:?}"),
    }
}

#[test]
fn a_malformed_day_field_is_not_hidden_by_the_other() {
    let reference = utc(2023, 6, 15, 12, 0, 0);
    for schedule in ["0 0 13 * x", "0 0 x * 5", "0 0 32 * 5", "0 0 13 * 9", "0 x 13 * 5", "0 0 13 x 5", "x 0 13 * 5"] {
        let error = compute_next(schedule, reference).unwrap_err();
        assert!(matches!(error, ScheduleError::Malformed(_)), "{schedule:?} gave {error:?}");
    }
}

#[test]
fn a_date_that_never_comes_has_no_occurrence() {
    let reference = utc(2023, 6, 15, 12, 0, 0);
    for schedule in ["0 0 31 2 *", "0 0 30 2 *", "0 0 31 4,6,9,11 *", "0 0 30,31 2 *"] {
        match compute_next(schedule, reference) {
            Err(ScheduleError::NoOccurrence(cause)) => {
                assert_eq!(cause.kind(), &ParseErrorKind::ImpossibleSchedule);
            }
            other => panic!("{schedule:?} gave {other:?}"),
        }
    }
}

#[test]
fn nothing_follows_the_end_of_the_calendar() {
    let last = Timestamp::new(crond::time::MAX_SECS, 999_999_999).unwrap();
    match compute_next("* * * * *", last) {
        Err(ScheduleError::NoOccurrence(cause)) => {
            assert_eq!(cause.kind(), &ParseErrorKind::NoOccurrence);
        }
        other => panic!("unexpected {other:?}"),
    }
    assert!(matches!(compute_next("0 0 13 * 5", last), Err(ScheduleError::NoOccurrence(_))));
    assert!(matches!(compute_next("0 0 13 * x", last), Err(ScheduleError::Malformed(_))));
}

#[test]
fn the_start_of_the_calendar_has_a_next_minute() {
    let first = Timestamp::new(crond::time::MIN_SECS, 0).unwrap();
    let next = compute_next("* * * * *", first).unwrap();
    assert_eq!(next.secs(), crond::time::MIN_SECS + 60);
}
