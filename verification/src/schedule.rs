//! Schedule expressions: when a job is due next.
//!
//! An expression has five fields: minute, hour, day of the month, month and
//! day of the week. The expression parser selects the instants that match all
//! five. Where both day fields are restricted (neither is `*`), a day counts
//! here if it matches one of them, as cron daemons have it.

use crate::crontab::{join_words, joined, split_words, words};
use crate::time::Timestamp;
use cron_parser::ParseErrorKind;
use vstd::prelude::*;

verus! {

/// The error of `cron_parser`, carried along as it came.
#[verifier::external_type_specification]
#[verifier::external_body]
pub struct ExCronError(cron_parser::ParseError);

/// The answer to "when next?".
pub enum Next {
    /// At this instant, in nanoseconds since the Unix epoch.
    At(int),
    /// The expression is well formed, and no instant that it selects follows.
    Never,
    /// The text is not a well-formed expression of five fields.
    Malformed,
}

/// What `cron_parser::parse` makes of `schedule` and the UTC instant `after`
/// (nanoseconds since the Unix epoch): the first instant after `after` that
/// matches all five fields, or why there is none.
pub uninterp spec fn next_match(schedule: Seq<char>, after: int) -> Next;

/// Why a schedule expression gave no next occurrence. Each variant holds what
/// the expression parser reported.
#[derive(Debug)]
pub enum ScheduleError {
    /// The text is not a well-formed expression of five fields.
    Malformed(cron_parser::ParseError),
    /// The expression is well formed, and no instant that it selects follows
    /// the reference.
    NoOccurrence(cron_parser::ParseError),
}

/// Whether `r` says what `next` says: the same instant, or the error of the
/// same kind.
pub open spec fn answers(r: Result<Timestamp, ScheduleError>, next: Next) -> bool {
    match r {
        Ok(instant) => next == Next::At(instant@),
        Err(ScheduleError::NoOccurrence(_)) => next == Next::Never,
        Err(ScheduleError::Malformed(_)) => next == Next::Malformed,
    }
}

/// Calls `cron_parser::parse` on `schedule` and the UTC date and time of
/// `after`.
///
/// Trusted: the outcome is a function of the two arguments alone; an instant
/// that comes back is later than `after`; and of the parser's errors the
/// kinds `ImpossibleSchedule` and `NoOccurrence` are those of a well-formed
/// expression.
#[verifier::external_body]
fn parse_after(schedule: &str, after: Timestamp) -> (r: Result<Timestamp, ScheduleError>)
    ensures
        answers(r, next_match(schedule@, after@)),
        r matches Ok(instant) ==> instant@ > after@,
{
    let reference = chrono::DateTime::from_timestamp(after.secs, after.nanos).unwrap_or_default();
    match cron_parser::parse(schedule, &reference) {
        Ok(next) => Ok(Timestamp { secs: next.timestamp(), nanos: next.timestamp_subsec_nanos() }),
        Err(cause) => match cause.kind() {
            ParseErrorKind::ImpossibleSchedule => Err(ScheduleError::NoOccurrence(cause)),
            ParseErrorKind::NoOccurrence => Err(ScheduleError::NoOccurrence(cause)),
            _ => Err(ScheduleError::Malformed(cause)),
        },
    }
}

/// The field that selects every value.
pub open spec fn any_value() -> Seq<char> {
    seq!['*']
}

/// Whether `schedule` has five fields and restricts both the day of the
/// month and the day of the week.
pub open spec fn restricts_both_days(schedule: Seq<char>) -> bool {
    &&& words(schedule).len() == 5
    &&& words(schedule)[2] != any_value()
    &&& words(schedule)[4] != any_value()
}

/// `schedule` with its field at `position` opened to every value.
pub open spec fn opened(schedule: Seq<char>, position: int) -> Seq<char> {
    joined(words(schedule).update(position, any_value()))
}

/// The answer for a schedule that is met where one of two schedules is met:
/// the earlier of their instants. A malformed part makes the whole malformed.
pub open spec fn either(a: Next, b: Next) -> Next {
    match (a, b) {
        (Next::Malformed, _) => Next::Malformed,
        (_, Next::Malformed) => Next::Malformed,
        (Next::At(x), Next::At(y)) => Next::At(if x <= y { x } else { y }),
        (Next::At(x), Next::Never) => Next::At(x),
        (Next::Never, Next::At(y)) => Next::At(y),
        (Next::Never, Next::Never) => Next::Never,
    }
}

/// When `schedule` is due next after `reference`.
///
/// Where the schedule restricts both day fields, it is due where its minute,
/// hour and month match and the day matches one of the two: the earlier of
/// the answers for the schedule without its day of the week and for the
/// schedule without its day of the month. Otherwise it is due where all five
/// fields match.
pub open spec fn next_due(schedule: Seq<char>, reference: int) -> Next {
    if restricts_both_days(schedule) {
        either(
            next_match(opened(schedule, 4), reference),
            next_match(opened(schedule, 2), reference),
        )
    } else {
        next_match(schedule, reference)
    }
}

/// Whether `field` is the field that selects every value.
fn is_any_value(field: &str) -> (r: bool)
    ensures
        r == (field@ == any_value()),
{
    if field.unicode_len() == 1 {
        let r = field.get_char(0) == '*';
        assert(r ==> field@ =~= any_value());
        r
    } else {
        false
    }
}

/// The earlier of two answers, for a schedule that is met where one of two
/// is met.
fn earlier(a: Result<Timestamp, ScheduleError>, b: Result<Timestamp, ScheduleError>) -> (r: Result<
    Timestamp,
    ScheduleError,
>)
    ensures
        forall|x: Next, y: Next| answers(a, x) && answers(b, y) ==> answers(r, either(x, y)),
        r matches Ok(instant) ==> (a == Ok::<Timestamp, ScheduleError>(instant) || b == Ok::<
            Timestamp,
            ScheduleError,
        >(instant)),
{
    match (a, b) {
        (Err(ScheduleError::Malformed(cause)), _) => Err(ScheduleError::Malformed(cause)),
        (_, Err(ScheduleError::Malformed(cause))) => Err(ScheduleError::Malformed(cause)),
        (Ok(x), Ok(y)) => if x.le(&y) {
            Ok(x)
        } else {
            Ok(y)
        },
        (Ok(x), Err(_)) => Ok(x),
        (Err(_), Ok(y)) => Ok(y),
        (Err(cause), Err(_)) => Err(cause),
    }
}

/// The next occurrence of `schedule` strictly after `reference`.
///
/// Fails exactly where the schedule is never due again: with `Malformed` for
/// a text that is not a well-formed expression of five fields, with
/// `NoOccurrence` for an expression that selects nothing after `reference`.
/// An occurrence that comes back is later than `reference`, also where
/// `reference` is itself an occurrence.
pub fn compute_next(schedule: &str, reference: Timestamp) -> (r: Result<Timestamp, ScheduleError>)
    ensures
        answers(r, next_due(schedule@, reference@)),
        r matches Ok(next) ==> next@ > reference@,
        r matches Ok(next) ==> next != reference,
{
    let mut fields = split_words(schedule);
    if fields.len() == 5 && !is_any_value(fields[2].as_str()) && !is_any_value(fields[4].as_str()) {
        let ghost all = fields.deep_view();
        let day_of_week = fields[4].clone();
        fields.set(4, String::from_str("*"));
        proof {
            reveal_strlit("*");
            assert("*"@ =~= any_value());
            assert(fields@[4]@ == any_value());
            assert(fields.deep_view() =~= all.update(4, any_value()));
            assert(fields.deep_view().subrange(0, 5) == fields.deep_view());
        }
        let by_date = join_words(&fields, 0, 5);
        fields.set(4, day_of_week);
        fields.set(2, String::from_str("*"));
        proof {
            assert(fields.deep_view() == all.update(2, any_value()));
            assert(fields.deep_view().subrange(0, 5) == fields.deep_view());
        }
        let by_weekday = join_words(&fields, 0, 5);
        earlier(
            parse_after(by_date.as_str(), reference),
            parse_after(by_weekday.as_str(), reference),
        )
    } else {
        parse_after(schedule, reference)
    }
}

/// Asking twice gives the same answer: two answers for one expression and
/// one reference both fail in the same way, or both name the same instant.
pub proof fn lemma_compute_next_repeats(
    schedule: Seq<char>,
    reference: int,
    first: Result<Timestamp, ScheduleError>,
    second: Result<Timestamp, ScheduleError>,
)
    requires
        answers(first, next_due(schedule, reference)),
        answers(second, next_due(schedule, reference)),
    ensures
        first is Ok <==> second is Ok,
        first matches Ok(a) ==> second matches Ok(b) && a@ == b@,
        first matches Err(ScheduleError::Malformed(_)) <==> second matches Err(
            ScheduleError::Malformed(_),
        ),
{
}

} // verus!
