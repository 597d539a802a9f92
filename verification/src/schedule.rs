//! When the next backup is due.
use crate::cron_text::{normalize_cron, with_seconds, CronTextError};
use crate::interval::{
    interval_reading, is_measured, is_plain_interval, lemma_plain_seconds, plain_seconds,
    read_interval,
};
use crate::time::{
    floor_days, local_day, local_offset, local_second_of_day, local_seconds, nanos_between, reports,
    seconds_showing, shows, Timestamp, DAY, FIRST_SECOND, LAST_SECOND, NANOS, YEAR_0,
};
use chrono::TimeZone;
use std::str::FromStr;
use vstd::prelude::*;

verus! {

/// A length of time: seconds, and less than a second in nanoseconds on top.
#[derive(Debug, Clone, Copy, PartialEq, Eq, Structural)]
pub struct Span {
    pub secs: u64,
    pub nanos: u32,
}

impl Span {
    /// The nanoseconds are less than a second.
    pub open spec fn wf(self) -> bool {
        self.nanos < NANOS
    }

    /// The whole length in nanoseconds.
    pub open spec fn total(self) -> int {
        self.secs * 1_000_000_000 + self.nanos
    }
}

/// What `cron::Schedule::from_str` finds wrong with an expression, if anything.
pub uninterp spec fn cron_complaint(expression: Seq<char>) -> Option<Seq<char>>;

/// Whether the schedule of an expression names what a clock shows that shows `shown` seconds since
/// 1970-01-01 00:00:00, by `cron::Schedule::includes`.
pub uninterp spec fn cron_names(expression: Seq<char>, shown: int) -> bool;

/// `cron::Schedule::from_str`, for what it finds wrong with an expression.
///
/// That depends on the expression alone.
#[verifier::external_body]
fn check_cron(expression: &str) -> (r: Option<String>)
    ensures
        cron_complaint(expression@) == (match r {
            Some(reason) => Some(reason@),
            None => None,
        }),
{
    cron::Schedule::from_str(expression).err().map(|error| error.to_string())
}

/// `cron::Schedule::includes`: whether a schedule names what a clock shows that shows `shown`
/// seconds since 1970-01-01 00:00:00.
///
/// That depends on the expression and the reading of the clock alone. An expression that
/// `cron::Schedule::from_str` refuses names nothing.
#[verifier::external_body]
fn cron_includes(expression: &str, shown: i64) -> (r: bool)
    requires
        FIRST_SECOND <= shown <= LAST_SECOND,
    ensures
        r == cron_names(expression@, shown as int),
        cron_complaint(expression@) is Some ==> !r,
{
    match cron::Schedule::from_str(expression) {
        Ok(schedule) => schedule.includes(chrono::DateTime::from_timestamp(shown, 0).unwrap()),
        Err(_) => false,
    }
}

/// Whether, of what an expression names from one reading of the clock on and before another, local
/// clocks show nothing: asked when they do, the machine answers that they never do.
pub open spec fn shows_none_named(expression: Seq<char>, from: int, to: int) -> bool {
    forall|shown: i64|
        from <= shown < to && #[trigger] cron_names(expression, shown as int) ==> shows(shown, None)
}

/// Whether `found` is when local clocks show the first reading that an expression names, from what
/// they show a second after `now` on.
///
/// Readings that the machine says are never shown do not count. In a year before the year 0 nothing
/// need be found.
pub open spec fn is_first_named(expression: Seq<char>, now: i64, found: Option<i64>) -> bool {
    match found {
        Some(secs) => exists|before: i32, shown: i64, last: i64|
            {
                &&& #[trigger] reports((now + 1) as i64, before)
                &&& now + 1 + before <= shown
                &&& cron_names(expression, shown as int)
                &&& #[trigger] shows(shown, Some((secs, last)))
                &&& shows_none_named(expression, now + 1 + before, shown as int)
            },
        None => cron_complaint(expression) is None && now >= YEAR_0 + DAY ==> exists|before: i32|
            {
                &&& #[trigger] reports((now + 1) as i64, before)
                &&& shows_none_named(expression, now + 1 + before, LAST_SECOND + 1)
            },
    }
}

/// `cron::Schedule::after`: the next second that a schedule names, in local time.
///
/// What local clocks show at that second is something that the expression names, in the years 1970
/// to 2100, and is no earlier than what they show a second after `now`. As clocks can be put back
/// in between, the second may not lie behind `now`. An expression that `cron::Schedule::from_str`
/// refuses leads to none.
///
/// It is found by going through what the expression names, in order, from what
/// `chrono::Local::offset_from_utc_datetime` says that local clocks show a second after `now`, up to
/// the first reading for which `chrono::Local::from_local_datetime` gives a second. The first of the
/// seconds that it gives is returned.
#[verifier::external_body]
fn next_by_cron(expression: &str, now: i64) -> (r: Option<i64>)
    requires
        FIRST_SECOND + DAY <= now <= LAST_SECOND - DAY - 1,
    ensures
        cron_complaint(expression@) is Some ==> r is None,
        r matches Some(secs) ==> -86_400 <= secs <= 4_134_067_200 && (exists|before: int, after: int|
            {
                &&& -86_400 < before < 86_400
                &&& -86_400 < after < 86_400
                &&& #[trigger] (now + 1 + before) <= #[trigger] (secs + after)
                &&& cron_names(expression@, secs + after)
            }),
        is_first_named(expression@, now, r),
{
    let schedule = cron::Schedule::from_str(expression).ok()?;
    let utc = chrono::DateTime::from_timestamp(now, 0)?.naive_utc();
    let next = schedule.after(&chrono::Local.from_utc_datetime(&utc)).next()?;
    Some(next.timestamp())
}

/// When backups are due.
#[derive(Debug, Clone)]
pub enum ScheduleSpec {
    /// A fixed time after another.
    Interval(Span),
    /// Whenever a multiple of a fixed time has passed since local midnight.
    Aligned(Span),
    /// As a cron expression says, in local time.
    Cron { expression: String },
}

/// What a [`ScheduleSpec`] says.
pub enum ScheduleView {
    Interval(Span),
    Aligned(Span),
    Cron { expression: Seq<char> },
}

impl View for ScheduleSpec {
    type V = ScheduleView;

    open spec fn view(&self) -> ScheduleView {
        match *self {
            ScheduleSpec::Interval(span) => ScheduleView::Interval(span),
            ScheduleSpec::Aligned(span) => ScheduleView::Aligned(span),
            ScheduleSpec::Cron { expression } => ScheduleView::Cron { expression: expression@ },
        }
    }
}

/// Why there is no schedule, or no next time on it.
#[derive(Debug)]
pub enum ScheduleError {
    /// Both an interval and a cron expression were given.
    Both,
    /// A cron expression was given, but is to be aligned like an interval.
    AlignedCron,
    /// The cron expression has the wrong shape.
    CronText(CronTextError),
    /// The cron expression is refused.
    InvalidCron { expression: String, reason: String },
    /// The interval is refused.
    InvalidInterval { interval: String, reason: String },
    /// The interval is no time at all.
    ZeroInterval,
    /// The interval is longer than the calendar can reckon with.
    IntervalTooLong,
    /// The cron expression names no time in the future.
    NoFutureRun,
}

/// What a [`ScheduleError`] says.
pub enum ScheduleErrorView {
    Both,
    AlignedCron,
    CronText(CronTextError),
    InvalidCron { expression: Seq<char>, reason: Seq<char> },
    InvalidInterval { interval: Seq<char>, reason: Seq<char> },
    ZeroInterval,
    IntervalTooLong,
    NoFutureRun,
}

impl View for ScheduleError {
    type V = ScheduleErrorView;

    open spec fn view(&self) -> ScheduleErrorView {
        match *self {
            ScheduleError::Both => ScheduleErrorView::Both,
            ScheduleError::AlignedCron => ScheduleErrorView::AlignedCron,
            ScheduleError::CronText(error) => ScheduleErrorView::CronText(error),
            ScheduleError::InvalidCron { expression, reason } => ScheduleErrorView::InvalidCron {
                expression: expression@,
                reason: reason@,
            },
            ScheduleError::InvalidInterval { interval, reason } => {
                ScheduleErrorView::InvalidInterval { interval: interval@, reason: reason@ }
            },
            ScheduleError::ZeroInterval => ScheduleErrorView::ZeroInterval,
            ScheduleError::IntervalTooLong => ScheduleErrorView::IntervalTooLong,
            ScheduleError::NoFutureRun => ScheduleErrorView::NoFutureRun,
        }
    }
}

/// The schedule of an interval that was read with the given result.
pub open spec fn interval_schedule(
    interval: Seq<char>,
    reading: Result<(u64, u32), Seq<char>>,
    aligned: bool,
) -> Result<ScheduleView, ScheduleErrorView> {
    match reading {
        Err(reason) => Err(ScheduleErrorView::InvalidInterval { interval, reason }),
        Ok((secs, nanos)) => if secs == 0 && nanos == 0 {
            Err(ScheduleErrorView::ZeroInterval)
        } else if aligned {
            Ok(ScheduleView::Aligned(Span { secs, nanos }))
        } else {
            Ok(ScheduleView::Interval(Span { secs, nanos }))
        },
    }
}

/// The schedule of a cron expression that was checked with the given result.
pub open spec fn cron_schedule(
    raw: Seq<char>,
    expression: Seq<char>,
    complaint: Option<Seq<char>>,
) -> Result<ScheduleView, ScheduleErrorView> {
    match complaint {
        Some(reason) => Err(ScheduleErrorView::InvalidCron { expression: raw, reason }),
        None => Ok(ScheduleView::Cron { expression }),
    }
}

/// The schedule that an interval and a cron expression ask for. Neither asks for an hour.
pub open spec fn schedule_for(
    interval: Option<Seq<char>>,
    cron: Option<Seq<char>>,
    aligned: bool,
) -> Result<ScheduleView, ScheduleErrorView> {
    match (interval, cron) {
        (Some(_), Some(_)) => Err(ScheduleErrorView::Both),
        (None, Some(raw)) => if aligned {
            Err(ScheduleErrorView::AlignedCron)
        } else {
            match with_seconds(raw) {
                Err(error) => Err(ScheduleErrorView::CronText(error)),
                Ok(expression) => cron_schedule(raw, expression, cron_complaint(expression)),
            }
        },
        (Some(text), None) => interval_schedule(text, interval_reading(text), aligned),
        (None, None) => interval_schedule(Seq::empty(), Ok((3_600, 0)), aligned),
    }
}

/// The text in an optional string.
pub open spec fn optional_str(text: Option<&str>) -> Option<Seq<char>> {
    match text {
        Some(t) => Some(t@),
        None => None,
    }
}

/// What came of making a schedule.
pub open spec fn made(r: Result<ScheduleSpec, ScheduleError>) -> Result<
    ScheduleView,
    ScheduleErrorView,
> {
    match r {
        Ok(schedule) => Ok(schedule@),
        Err(error) => Err(error@),
    }
}

/// The schedule of an interval that was read with the given result.
pub fn schedule_from_interval(
    interval: &str,
    reading: Result<(u64, u32), String>,
    aligned: bool,
) -> (r: Result<ScheduleSpec, ScheduleError>)
    ensures
        made(r) == interval_schedule(
            interval@,
            match reading {
                Ok(length) => Ok(length),
                Err(reason) => Err(reason@),
            },
            aligned,
        ),
{
    match reading {
        Err(reason) => Err(ScheduleError::InvalidInterval { interval: interval.to_owned(), reason }),
        Ok((secs, nanos)) => {
            if secs == 0 && nanos == 0 {
                Err(ScheduleError::ZeroInterval)
            } else if aligned {
                Ok(ScheduleSpec::Aligned(Span { secs, nanos }))
            } else {
                Ok(ScheduleSpec::Interval(Span { secs, nanos }))
            }
        },
    }
}

/// The schedule of a cron expression that was checked with the given result.
pub fn schedule_from_cron(raw: &str, expression: String, complaint: Option<String>) -> (r: Result<
    ScheduleSpec,
    ScheduleError,
>)
    ensures
        made(r) == cron_schedule(
            raw@,
            expression@,
            match complaint {
                Some(reason) => Some(reason@),
                None => None,
            },
        ),
{
    match complaint {
        Some(reason) => Err(ScheduleError::InvalidCron { expression: raw.to_owned(), reason }),
        None => Ok(ScheduleSpec::Cron { expression }),
    }
}

/// How many seconds the calendar can reckon with at most, and how many nanoseconds on top.
pub open spec fn span_fits(span: Span) -> bool {
    span.secs < 9_223_372_036_854_775 || (span.secs == 9_223_372_036_854_775 && span.nanos
        <= 807_000_000)
}

/// The point in time a length of time behind another.
///
/// Within a leap second less than a second leads no further than its end; any more leaves it.
pub open spec fn later_by(now: Timestamp, span: Span) -> (int, int) {
    if now.nanos < NANOS {
        let nanos = now.nanos + span.nanos;
        (now.secs + span.secs + nanos / 1_000_000_000, nanos % 1_000_000_000)
    } else if span.secs > 0 || now.nanos + span.nanos >= 2_000_000_000 {
        let nanos = now.nanos - 1_000_000_000 + span.nanos;
        (now.secs + span.secs + nanos / 1_000_000_000, nanos % 1_000_000_000)
    } else {
        (now.secs as int, now.nanos + span.nanos)
    }
}

/// The point in time a length of time behind another.
fn add_span(now: &Timestamp, span: &Span) -> (r: Timestamp)
    requires
        now.wf(),
        span.wf(),
        span_fits(*span),
    ensures
        (r.secs as int, r.nanos as int) == later_by(*now, *span),
{
    if now.nanos < NANOS {
        let nanos: u32 = now.nanos + span.nanos;
        if nanos >= NANOS {
            Timestamp { secs: now.secs + span.secs as i64 + 1, nanos: nanos - NANOS }
        } else {
            Timestamp { secs: now.secs + span.secs as i64, nanos }
        }
    } else if span.secs > 0 || now.nanos + span.nanos >= 2_000_000_000 {
        let nanos: u32 = now.nanos - NANOS + span.nanos;
        if nanos >= NANOS {
            Timestamp { secs: now.secs + span.secs as i64 + 1, nanos: nanos - NANOS }
        } else {
            Timestamp { secs: now.secs + span.secs as i64, nanos }
        }
    } else {
        Timestamp { secs: now.secs, nanos: now.nanos + span.nanos }
    }
}

/// Whatever the time, a length of time that is not zero leads to a later one.
pub proof fn law_interval_moves_forward(now: Timestamp, span: Span)
    requires
        now.wf(),
        span.wf(),
        span.total() > 0,
    ensures
        ({
            let (secs, nanos) = later_by(now, span);
            &&& secs > now.secs || (secs == now.secs && nanos > now.nanos)
            &&& 0 <= nanos < 2_000_000_000
        }),
{
}

/// The nanoseconds since local midnight.
pub open spec fn since_midnight(now: Timestamp, offset: int) -> int {
    local_second_of_day(now, offset) * 1_000_000_000 + now.nanos
}

/// The first multiple of a length of time behind another.
pub open spec fn next_multiple(elapsed: int, span: int) -> int {
    (elapsed / span + 1) * span
}

/// The first multiple behind `elapsed` is a multiple, lies behind `elapsed`, and not further than
/// the length of time.
pub proof fn law_next_multiple_is_next(elapsed: int, span: int)
    requires
        elapsed >= 0,
        span > 0,
    ensures
        next_multiple(elapsed, span) % span == 0,
        elapsed < next_multiple(elapsed, span) <= elapsed + span,
{
    let quotient = elapsed / span;
    assert(elapsed == quotient * span + elapsed % span && 0 <= elapsed % span < span)
        by (nonlinear_arith)
        requires
            span > 0,
            quotient == elapsed / span,
    ;
    assert((quotient + 1) * span == quotient * span + span) by (nonlinear_arith);
    assert(((quotient + 1) * span) % span == 0) by {
        vstd::arithmetic::div_mod::lemma_mod_multiples_basic(quotient + 1, span);
    }
}

/// The second that a local clock shows at the next boundary.
pub open spec fn boundary_second(now: Timestamp, span: Span, offset: int) -> int {
    local_seconds(now, offset) - local_second_of_day(now, offset) + next_multiple(
        since_midnight(now, offset),
        span.total(),
    ) / 1_000_000_000
}

/// The next boundary: a multiple of a length of time since local midnight.
///
/// `found` are the one or two seconds at which local clocks show the boundary, if there are any;
/// the earliest of them that lies in the future is meant. If none does, the clocks are about to be
/// put forward or back, and what is missing to the boundary is waited for.
pub open spec fn next_boundary(
    now: Timestamp,
    span: Span,
    offset: int,
    found: Option<(i64, i64)>,
) -> (int, int) {
    let elapsed = since_midnight(now, offset);
    let boundary = next_multiple(elapsed, span.total());
    let nanos = boundary % 1_000_000_000;
    let left = boundary - elapsed;
    let after = |secs: int| secs > now.secs || (secs == now.secs && nanos > now.nanos);
    match found {
        Some((one, other)) if after(one as int) && (one <= other || !after(other as int)) => (
            one as int,
            nanos,
        ),
        Some((one, other)) if after(other as int) => (other as int, nanos),
        _ => later_by(
            now,
            Span { secs: (left / 1_000_000_000) as u64, nanos: (left % 1_000_000_000) as u32 },
        ),
    }
}

/// Whether a length of time, counted from `now` on, stays well within the calendar.
pub open spec fn in_calendar(now: Timestamp, span: Span) -> bool {
    FIRST_SECOND + 3 * DAY <= now.secs && now.secs + span.secs <= LAST_SECOND - 4 * DAY
}

/// The nanoseconds since local midnight, and the first multiple of a length of time behind them.
fn boundary_after(now: &Timestamp, span: &Span, offset: i32) -> (r: (u128, u128))
    requires
        now.wf(),
        span.wf(),
        span.total() > 0,
        in_calendar(*now, *span),
        -DAY < offset < DAY,
    ensures
        r.0 == since_midnight(*now, offset as int),
        r.1 == next_multiple(r.0 as int, span.total()),
        r.0 < r.1 <= r.0 + span.total(),
        r.0 < 86_402_000_000_000,
{
    let (_, second) = floor_days(now.secs + offset as i64);
    let elapsed: u128 = second as u128 * 1_000_000_000 + now.nanos as u128;
    let whole: u128 = span.secs as u128 * 1_000_000_000 + span.nanos as u128;
    let quotient: u128 = elapsed / whole;
    proof {
        law_next_multiple_is_next(elapsed as int, whole as int);
        assert((quotient + 1) * whole <= elapsed + whole);
    }
    (elapsed, (quotient + 1) * whole)
}

/// The next boundary, given how far local clocks are ahead of UTC now, and when they show the
/// boundary.
pub fn aligned_run(now: &Timestamp, span: &Span, offset: i32, found: Option<(i64, i64)>) -> (r:
    Timestamp)
    requires
        now.wf(),
        span.wf(),
        span.total() > 0,
        in_calendar(*now, *span),
        -DAY < offset < DAY,
        found matches Some((one, other)) ==> FIRST_SECOND <= one <= LAST_SECOND && FIRST_SECOND
            <= other <= LAST_SECOND,
    ensures
        (r.secs as int, r.nanos as int) == next_boundary(*now, *span, offset as int, found),
        r.later(*now),
        r.wf(),
{
    let (elapsed, boundary) = boundary_after(now, span, offset);
    let nanos: u32 = (boundary % 1_000_000_000) as u32;
    if let Some((one, other)) = found {
        let one_is_after: bool = one > now.secs || (one == now.secs && nanos > now.nanos);
        let other_is_after: bool = other > now.secs || (other == now.secs && nanos > now.nanos);
        if one_is_after && (one <= other || !other_is_after) {
            return Timestamp { secs: one, nanos };
        }
        if other_is_after {
            return Timestamp { secs: other, nanos };
        }
    }
    let left: u128 = boundary - elapsed;
    let rest = Span {
        secs: (left / 1_000_000_000) as u64,
        nanos: (left % 1_000_000_000) as u32,
    };
    proof {
        assert(rest.total() == left);
        law_interval_moves_forward(*now, rest);
    }
    add_span(now, &rest)
}

/// The next boundary in local time.
fn next_aligned(now: &Timestamp, span: &Span) -> (r: Timestamp)
    requires
        now.wf(),
        span.wf(),
        span.total() > 0,
        in_calendar(*now, *span),
    ensures
        is_next_aligned(*now, *span, r),
        r.wf(),
{
    let offset: i32 = local_offset(now.secs);
    let (_, boundary) = boundary_after(now, span, offset);
    let (days, _) = floor_days(now.secs + offset as i64);
    let shown: i64 = days * DAY + (boundary / 1_000_000_000) as i64;
    let found: Option<(i64, i64)> = seconds_showing(shown);
    aligned_run(now, span, offset, found)
}

/// Whether a point in time is the next boundary, by the machine's local time.
///
/// Local clocks show a boundary less than a day away from when clocks in UTC do.
pub open spec fn is_next_aligned(now: Timestamp, span: Span, r: Timestamp) -> bool {
    &&& r.later(now)
    &&& exists|offset: i32, found: Option<(i64, i64)>|
        {
            &&& -DAY < offset < DAY
            &&& reports(now.secs, offset)
            &&& shows(boundary_second(now, span, offset as int) as i64, found)
            &&& found matches Some((one, other)) ==> {
                &&& -DAY < one - boundary_second(now, span, offset as int) < DAY
                &&& -DAY < other - boundary_second(now, span, offset as int) < DAY
            }
            &&& (r.secs as int, r.nanos as int) == #[trigger] next_boundary(
                now,
                span,
                offset as int,
                found,
            )
        }
}

/// The next time on a cron schedule, given the second that was found.
pub fn cron_run(found: Option<i64>) -> (r: Result<Timestamp, ScheduleError>)
    ensures
        match (found, r) {
            (Some(secs), Ok(next)) => next == (Timestamp { secs, nanos: 0 }),
            (None, Err(error)) => error@ == ScheduleErrorView::NoFutureRun,
            _ => false,
        },
{
    match found {
        Some(secs) => Ok(Timestamp { secs, nanos: 0 }),
        None => Err(ScheduleError::NoFutureRun),
    }
}

/// Whether a second can be the next that a cron expression names in local time.
///
/// What local clocks show then is named by the expression, lies in the years up to 2100, and is no
/// earlier than what they show a second after `now`. How far they are ahead of UTC, before and
/// after, is the machine's own.
pub open spec fn can_be_named(expression: Seq<char>, now: int, next: int) -> bool {
    &&& cron_complaint(expression) is None
    &&& -DAY <= next <= 4_134_067_200
    &&& exists|before: int, after: int|
        {
            &&& -DAY < before < DAY
            &&& -DAY < after < DAY
            &&& #[trigger] (now + 1 + before) <= #[trigger] (next + after)
            &&& cron_names(expression, next + after)
        }
}

/// Whether a point in time can be the next on a schedule.
pub open spec fn can_be_next(schedule: ScheduleSpec, now: Timestamp, next: Timestamp) -> bool {
    match schedule {
        ScheduleSpec::Interval(span) => {
            &&& span_fits(span)
            &&& (next.secs as int, next.nanos as int) == later_by(now, span)
        },
        ScheduleSpec::Aligned(span) => span_fits(span) && is_next_aligned(now, span, next),
        ScheduleSpec::Cron { expression } => {
            &&& next.nanos == 0
            &&& can_be_named(expression@, now.secs as int, next.secs as int)
            &&& is_first_named(expression@, now.secs, Some(next.secs))
        },
    }
}

/// Whether the next time on a schedule can fail to be told in the given way.
pub open spec fn can_fail(schedule: ScheduleSpec, error: ScheduleErrorView) -> bool {
    match schedule {
        ScheduleSpec::Interval(span) => !span_fits(span) && error
            == ScheduleErrorView::IntervalTooLong,
        ScheduleSpec::Aligned(span) => !span_fits(span) && error
            == ScheduleErrorView::IntervalTooLong,
        ScheduleSpec::Cron { expression } => error == ScheduleErrorView::NoFutureRun,
    }
}

/// Whether, at a time, the next time on a schedule can fail to be told in the given way.
///
/// By a cron expression that is when local clocks will show nothing that it names.
pub open spec fn can_fail_at(
    schedule: ScheduleSpec,
    now: Timestamp,
    error: ScheduleErrorView,
) -> bool {
    &&& can_fail(schedule, error)
    &&& schedule matches ScheduleSpec::Cron { expression } ==> is_first_named(
        expression@,
        now.secs,
        None,
    )
}

impl ScheduleSpec {
    /// An interval is some time.
    pub open spec fn wf(self) -> bool {
        match self {
            ScheduleSpec::Interval(span) => span.wf() && span.total() > 0,
            ScheduleSpec::Aligned(span) => span.wf() && span.total() > 0,
            ScheduleSpec::Cron { expression } => true,
        }
    }

    /// The schedule that an interval and a cron expression ask for, aligned to local midnight or
    /// not.
    pub fn from_run_args(interval: Option<&str>, cron: Option<&str>, aligned: bool) -> (r: Result<
        ScheduleSpec,
        ScheduleError,
    >)
        requires
            interval matches Some(text) ==> cron is Some || is_measured(text@),
        ensures
            made(r) == schedule_for(optional_str(interval), optional_str(cron), aligned),
            r matches Ok(schedule) ==> schedule.wf(),
            cron is None && interval is None ==> r is Ok,
            cron is None && (interval matches Some(text) && is_plain_interval(text@)
                && plain_seconds(text@) > 0) ==> r is Ok && {
                let span = Span { secs: plain_seconds(interval->0@) as u64, nanos: 0 };
                r->Ok_0@ == (if aligned {
                    ScheduleView::Aligned(span)
                } else {
                    ScheduleView::Interval(span)
                })
            },
    {
        match (interval, cron) {
            (Some(_), Some(_)) => Err(ScheduleError::Both),
            (None, Some(raw)) => {
                if aligned {
                    return Err(ScheduleError::AlignedCron);
                }
                match normalize_cron(raw) {
                    Err(error) => Err(ScheduleError::CronText(error)),
                    Ok(expression) => {
                        let complaint: Option<String> = check_cron(expression.as_str());
                        schedule_from_cron(raw, expression, complaint)
                    },
                }
            },
            (Some(text), None) => {
                let reading: Result<(u64, u32), String> = read_interval(text);
                proof {
                    if is_plain_interval(text@) {
                        lemma_plain_seconds(text@);
                    }
                }
                schedule_from_interval(text, reading, aligned)
            },
            (None, None) => {
                assert(""@ =~= Seq::<char>::empty()) by {
                    reveal_strlit("");
                }
                schedule_from_interval("", Ok((3_600, 0)), aligned)
            },
        }
    }

    /// The schedule that an interval and a cron expression ask for.
    pub fn from_args(interval: Option<&str>, cron: Option<&str>) -> (r: Result<
        ScheduleSpec,
        ScheduleError,
    >)
        requires
            interval matches Some(text) ==> cron is Some || is_measured(text@),
        ensures
            made(r) == schedule_for(optional_str(interval), optional_str(cron), false),
            r matches Ok(schedule) ==> schedule.wf(),
            cron is None && interval is None ==> r is Ok,
            cron is None && (interval matches Some(text) && is_plain_interval(text@)
                && plain_seconds(text@) > 0) ==> r is Ok && r->Ok_0@ == ScheduleView::Interval(
                (Span { secs: plain_seconds(interval->0@) as u64, nanos: 0 }),
            ),
    {
        ScheduleSpec::from_run_args(interval, cron, false)
    }

    /// Whether the calendar can tell when the next backup is due.
    pub open spec fn reaches(self, now: Timestamp) -> bool {
        match self {
            ScheduleSpec::Interval(span) => span_fits(span) ==> later_by(now, span).0
                <= LAST_SECOND,
            ScheduleSpec::Aligned(span) => span_fits(span) ==> in_calendar(now, span),
            ScheduleSpec::Cron { expression } => FIRST_SECOND + DAY <= now.secs <= LAST_SECOND - DAY
                - 1,
        }
    }

    /// Whether the calendar can tell when the next backup is due.
    pub fn can_follow(&self, now: &Timestamp) -> (r: bool)
        requires
            self.wf(),
            now.wf(),
        ensures
            r == self.reaches(*now),
    {
        match self {
            ScheduleSpec::Interval(span) => {
                !fits(span) || add_span(now, span).secs <= LAST_SECOND
            },
            ScheduleSpec::Aligned(span) => {
                !fits(span) || (FIRST_SECOND + 3 * DAY <= now.secs && now.secs + span.secs as i64
                    <= LAST_SECOND - 4 * DAY)
            },
            ScheduleSpec::Cron { .. } => {
                FIRST_SECOND + DAY <= now.secs && now.secs <= LAST_SECOND - DAY - 1
            },
        }
    }

    /// When the next backup is due.
    ///
    /// A fixed time later, or at the next boundary in local time: in the future either way. By a
    /// cron expression, at a whole second at which local clocks show what the expression names.
    pub fn next_after(&self, now: &Timestamp) -> (r: Result<Timestamp, ScheduleError>)
        requires
            self.wf(),
            now.wf(),
            self.reaches(*now),
        ensures
            match r {
                Ok(next) => {
                    &&& can_be_next(*self, *now, next)
                    &&& next.wf()
                    &&& !(self is Cron) ==> next.later(*now)
                },
                Err(error) => can_fail_at(*self, *now, error@),
            },
    {
        match self {
            ScheduleSpec::Interval(span) => {
                if !fits(span) {
                    return Err(ScheduleError::IntervalTooLong);
                }
                proof {
                    law_interval_moves_forward(*now, *span);
                }
                Ok(add_span(now, span))
            },
            ScheduleSpec::Aligned(span) => {
                if !fits(span) {
                    return Err(ScheduleError::IntervalTooLong);
                }
                Ok(next_aligned(now, span))
            },
            ScheduleSpec::Cron { expression } => cron_run(
                next_by_cron(expression.as_str(), now.secs),
            ),
        }
    }

    /// Whether a cron schedule names what a clock shows that shows `shown` seconds since 1970-01-01
    /// 00:00:00. Other schedules name nothing.
    pub fn names(&self, shown: i64) -> (r: bool)
        requires
            FIRST_SECOND <= shown <= LAST_SECOND,
        ensures
            r == (self@ matches ScheduleView::Cron { expression } && cron_names(
                expression,
                shown as int,
            )),
    {
        match self {
            ScheduleSpec::Interval(_) => false,
            ScheduleSpec::Aligned(_) => false,
            ScheduleSpec::Cron { expression } => cron_includes(expression.as_str(), shown),
        }
    }

    /// The cron expression that the schedule goes by, if it goes by one.
    pub fn expression(&self) -> (r: Option<&str>)
        ensures
            match (self@, r) {
                (ScheduleView::Cron { expression }, Some(text)) => text@ == expression,
                (ScheduleView::Cron { expression }, None) => false,
                (_, Some(_)) => false,
                (_, None) => true,
            },
    {
        match self {
            ScheduleSpec::Interval(_) => None,
            ScheduleSpec::Aligned(_) => None,
            ScheduleSpec::Cron { expression } => Some(expression.as_str()),
        }
    }
}

/// Whether the calendar can reckon with a length of time.
fn fits(span: &Span) -> (r: bool)
    ensures
        r == span_fits(*span),
{
    span.secs < 9_223_372_036_854_775 || (span.secs == 9_223_372_036_854_775 && span.nanos
        <= 807_000_000)
}

/// The signed distance in nanoseconds from one point in time to another: that of the days, and that
/// of the times of day.
pub open spec fn nanos_until(now: Timestamp, deadline: Timestamp) -> int {
    (local_day(deadline, 0) - local_day(now, 0)) * 86_400_000_000_000 + nanos_between(
        local_second_of_day(now, 0),
        now.nanos as int,
        local_second_of_day(deadline, 0),
        deadline.nanos as int,
    )
}

/// How long to sleep until a deadline: what is left, but no longer than a second.
pub open spec fn nap(now: Timestamp, deadline: Timestamp) -> int {
    let left = nanos_until(now, deadline);
    if left < 0 {
        0
    } else if left > 1_000_000_000 {
        1_000_000_000
    } else {
        left
    }
}

/// How long to sleep next on the way to a deadline, if at all: not once a shutdown is asked for, nor
/// once the deadline has come.
pub fn wait_until(deadline: &Timestamp, now: &Timestamp, shutdown: bool) -> (r: Option<Span>)
    requires
        deadline.wf(),
        now.wf(),
    ensures
        match r {
            Some(span) => !shutdown && deadline.later(*now) && span.wf() && span.total() == nap(
                *now,
                *deadline,
            ),
            None => shutdown || !deadline.later(*now),
        },
{
    if shutdown || !deadline.is_later(now) {
        return None;
    }
    let (now_day, now_second) = floor_days(now.secs);
    let (day, second) = floor_days(deadline.secs);
    let leap: i64 = if second > now_second && now.nanos >= NANOS {
        1
    } else if second < now_second && deadline.nanos >= NANOS {
        -1
    } else {
        0
    };
    let left: i128 = (day - now_day) as i128 * 86_400_000_000_000 + (second - now_second
        + leap) as i128 * 1_000_000_000 + (deadline.nanos as i128 - now.nanos as i128);
    assert(left == nanos_until(*now, *deadline));
    if left < 0 {
        Some(Span { secs: 0, nanos: 0 })
    } else if left >= 1_000_000_000 {
        Some(Span { secs: 1, nanos: 0 })
    } else {
        Some(Span { secs: 0, nanos: left as u32 })
    }
}

/// Sleeping never leads beyond the deadline, outside of leap seconds, and always some way towards
/// it.
pub proof fn law_naps_end_in_time(now: Timestamp, deadline: Timestamp, span: Span)
    requires
        now.wf(),
        deadline.wf(),
        now.nanos < NANOS,
        deadline.nanos < NANOS,
        deadline.later(now),
        span.wf(),
        span.total() == nap(now, deadline),
    ensures
        span.total() > 0,
        ({
            let (secs, nanos) = later_by(now, span);
            secs < deadline.secs || (secs == deadline.secs && nanos <= deadline.nanos)
        }),
{
    assert(nanos_until(now, deadline) == (deadline.secs - now.secs) * 1_000_000_000
        + deadline.nanos - now.nanos);
}

} // verus!
