//! What holds of schedules, whatever the time.
use crate::cron_text::{normalize_cron, CronTextError};
use crate::interval::interval_reading;
use crate::schedule::{
    aligned_run, boundary_second, can_be_next, cron_complaint, cron_names, is_first_named,
    law_next_multiple_is_next, made, nanos_until, nap, next_boundary, next_multiple,
    shows_none_named, since_midnight, wait_until, ScheduleError, ScheduleErrorView, ScheduleSpec,
    ScheduleView, Span,
};
use crate::time::{
    law_reports_are_less_than_a_day, reports, shows, steady, Timestamp, DAY, LAST_SECOND, NANOS,
    YEAR_0,
};
use vstd::prelude::*;

verus! {

/// While local clocks stay as far ahead of UTC as they are, a cron schedule runs at the first second
/// behind `now` at which they show what the expression names, if they show such a thing until `to`.
pub proof fn law_cron_runs_at_the_first_named_second(
    schedule: &ScheduleSpec,
    now: &Timestamp,
    r: Result<Timestamp, ScheduleError>,
    expression: Seq<char>,
    to: int,
    ahead: int,
    due: int,
)
    requires
        call_ensures(ScheduleSpec::next_after, (schedule, now), r),
        schedule matches ScheduleSpec::Cron { expression: text } && text@ == expression,
        cron_complaint(expression) is None,
        YEAR_0 + DAY <= now.secs,
        to <= LAST_SECOND - DAY,
        steady(now.secs + 1, to, ahead),
        now.secs < due <= to,
        cron_names(expression, due + ahead),
    ensures
        r matches Ok(next) && {
            &&& now.secs < next.secs <= due
            &&& next.nanos == 0
            &&& cron_names(expression, next.secs + ahead)
            &&& forall|s: int|
                now.secs < s < next.secs ==> !#[trigger] cron_names(expression, s + ahead)
        },
{
    let found = match r {
        Ok(next) => Some(next.secs),
        Err(_) => None,
    };
    assert(is_first_named(expression, now.secs, found));
    let from = (now.secs + 1) as i64;
    match found {
        Some(secs) => {
            let (before, shown, last) = choose|before: i32, shown: i64, last: i64|
                {
                    &&& #[trigger] reports(from, before)
                    &&& from + before <= shown
                    &&& cron_names(expression, shown as int)
                    &&& #[trigger] shows(shown, Some((secs, last)))
                    &&& shows_none_named(expression, from + before, shown as int)
                };
            assert(reports(from, before));
            law_reports_are_less_than_a_day(from, before);
            assert(before == ahead);
            assert forall|s: int|
                now.secs < s <= to && #[trigger] cron_names(expression, s + ahead) implies s + ahead
                >= shown by {
                let reading = (s + ahead) as i64;
                if reading < shown {
                    assert(cron_names(expression, reading as int));
                    assert(shows(reading, None));
                }
            }
            assert(due + ahead >= shown);
            assert(shows(shown, Some((secs, last))));
            assert(secs == shown - ahead);
            assert forall|s: int| now.secs < s < secs implies !#[trigger] cron_names(
                expression,
                s + ahead,
            ) by {}
        },
        None => {
            let before = choose|before: i32|
                {
                    &&& #[trigger] reports(from, before)
                    &&& shows_none_named(expression, from + before, LAST_SECOND + 1)
                };
            law_reports_are_less_than_a_day(from, before);
            let reading = (due + ahead) as i64;
            assert(cron_names(expression, reading as int));
            assert(shows(reading, None));
        },
    }
}

/// While local clocks stay as far ahead of UTC as they are, a cron schedule passes over nothing that
/// its expression names.
pub proof fn law_cron_passes_over_nothing(
    schedule: &ScheduleSpec,
    now: &Timestamp,
    next: Timestamp,
    expression: Seq<char>,
    ahead: int,
    s: int,
)
    requires
        call_ensures(
            ScheduleSpec::next_after,
            (schedule, now),
            Ok::<Timestamp, ScheduleError>(next),
        ),
        schedule matches ScheduleSpec::Cron { expression: text } && text@ == expression,
        now.wf(),
        now.secs < LAST_SECOND,
        steady(now.secs + 1, next.secs as int, ahead),
        now.secs < s < next.secs,
    ensures
        !cron_names(expression, s + ahead),
{
    let from = (now.secs + 1) as i64;
    let secs = next.secs;
    let (before, shown, last) = choose|before: i32, shown: i64, last: i64|
        {
            &&& #[trigger] reports(from, before)
            &&& from + before <= shown
            &&& cron_names(expression, shown as int)
            &&& #[trigger] shows(shown, Some((secs, last)))
            &&& shows_none_named(expression, from + before, shown as int)
        };
    assert(is_first_named(expression, now.secs, Some(secs)));
    assert(reports(from, before));
    law_reports_are_less_than_a_day(from, before);
    assert(before == ahead);
    let reading = (s + ahead) as i64;
    if cron_names(expression, s + ahead) {
        if reading < shown {
            assert(cron_names(expression, reading as int));
            assert(shows(reading, None));
        } else {
            assert(shows(shown, Some((secs, last))));
        }
    }
}

/// Nothing between `elapsed` and the first multiple behind it is a multiple.
proof fn lemma_no_multiple_before(elapsed: int, span: int, x: int)
    requires
        elapsed >= 0,
        span > 0,
        elapsed < x < next_multiple(elapsed, span),
    ensures
        x % span != 0,
{
    if x % span == 0 {
        let m = x / span;
        let q = elapsed / span;
        assert(x == m * span) by (nonlinear_arith)
            requires
                span > 0,
                x % span == 0,
                m == x / span,
        ;
        assert(q * span <= elapsed) by (nonlinear_arith)
            requires
                span > 0,
                elapsed >= 0,
                q == elapsed / span,
        ;
        assert(m > q) by (nonlinear_arith)
            requires
                q * span <= elapsed,
                elapsed < m * span,
                span > 0,
        ;
        assert(m * span >= (q + 1) * span) by (nonlinear_arith)
            requires
                m >= q + 1,
                span > 0,
        ;
    }
}

/// While local clocks stay as far ahead of UTC as they are, an aligned schedule runs when the time
/// since local midnight is a whole multiple of the interval, and at the first such time behind
/// `now`.
///
/// Where the interval divides a day, it does not matter which midnight is meant.
pub proof fn law_aligned_run_is_the_next_multiple(
    schedule: &ScheduleSpec,
    now: &Timestamp,
    next: Timestamp,
    span: Span,
    ahead: int,
    midnight: int,
)
    requires
        call_ensures(
            ScheduleSpec::next_after,
            (schedule, now),
            Ok::<Timestamp, ScheduleError>(next),
        ),
        schedule == ScheduleSpec::Aligned(span),
        schedule.wf(),
        schedule.reaches(*now),
        now.wf(),
        steady(now.secs as int, now.secs + span.secs + 2, ahead),
        midnight % 86_400 == 0,
        midnight <= now.secs + ahead < midnight + 86_400,
    ensures
        ({
            let length = span.secs * 1_000_000_000 + span.nanos;
            let elapsed = (next.secs + ahead - midnight) * 1_000_000_000 + next.nanos;
            &&& next.nanos < 1_000_000_000
            &&& next.secs > now.secs || (next.secs == now.secs && next.nanos > now.nanos)
            &&& elapsed % length == 0
            &&& now.nanos < 1_000_000_000 ==> forall|t: Timestamp|
                {
                    &&& #[trigger] t.nanos < 1_000_000_000
                    &&& t.secs > now.secs || (t.secs == now.secs && t.nanos > now.nanos)
                    &&& t.secs < next.secs || (t.secs == next.secs && t.nanos < next.nanos)
                } ==> ((t.secs + ahead - midnight) * 1_000_000_000 + t.nanos) % length != 0
            &&& 86_400_000_000_000int % length == 0 ==> ((next.secs + ahead) % 86_400 * 1_000_000_000
                + next.nanos) % length == 0
        }),
{
    let length = span.secs * 1_000_000_000 + span.nanos;
    assert(can_be_next(*schedule, *now, next));
    let (offset, found) = choose|offset: i32, found: Option<(i64, i64)>|
        {
            &&& -DAY < offset < DAY
            &&& reports(now.secs, offset)
            &&& shows(boundary_second(*now, span, offset as int) as i64, found)
            &&& found matches Some((one, other)) ==> {
                &&& -DAY < one - boundary_second(*now, span, offset as int) < DAY
                &&& -DAY < other - boundary_second(*now, span, offset as int) < DAY
            }
            &&& (next.secs as int, next.nanos as int) == #[trigger] next_boundary(
                *now,
                span,
                offset as int,
                found,
            )
        };
    assert(reports(now.secs, offset));
    assert(offset == ahead);
    let elapsed = since_midnight(*now, ahead);
    let boundary = next_multiple(elapsed, length);
    law_next_multiple_is_next(elapsed, length);
    let second = (now.secs + ahead) % 86_400;
    assert(now.secs + ahead == midnight + second);
    assert(elapsed == second * 1_000_000_000 + now.nanos);
    let shown = boundary_second(*now, span, ahead);
    assert(shown == midnight + boundary / 1_000_000_000);
    assert(boundary / 1_000_000_000 >= second);
    assert(boundary / 1_000_000_000 <= second + span.secs + 2);
    assert(shows(shown as i64, found));
    assert(found == Some(((shown - ahead) as i64, (shown - ahead) as i64)));
    assert(next.secs == shown - ahead && next.nanos == boundary % 1_000_000_000);
    assert((next.secs + ahead - midnight) * 1_000_000_000 + next.nanos == boundary);
    if now.nanos < 1_000_000_000 {
        assert forall|t: Timestamp|
            {
                &&& #[trigger] t.nanos < 1_000_000_000
                &&& t.secs > now.secs || (t.secs == now.secs && t.nanos > now.nanos)
                &&& t.secs < next.secs || (t.secs == next.secs && t.nanos < next.nanos)
            } implies ((t.secs + ahead - midnight) * 1_000_000_000 + t.nanos) % length != 0 by {
            lemma_no_multiple_before(
                elapsed,
                length,
                (t.secs + ahead - midnight) * 1_000_000_000 + t.nanos,
            );
        }
    }
    if 86_400_000_000_000int % length == 0 {
        let days = (next.secs + ahead - midnight) / 86_400;
        let rest = (next.secs + ahead) % 86_400 * 1_000_000_000 + next.nanos;
        assert(rest == boundary - days * 86_400_000_000_000);
        lemma_multiples_apart(boundary, days, length);
    }
}

/// Whole days more or less make no difference to a multiple of what divides a day.
proof fn lemma_multiples_apart(x: int, days: int, length: int)
    requires
        length > 0,
        x % length == 0,
        86_400_000_000_000int % length == 0,
    ensures
        (x - days * 86_400_000_000_000) % length == 0,
{
    let m = x / length;
    let d = 86_400_000_000_000int / length;
    assert(x == m * length) by (nonlinear_arith)
        requires
            length > 0,
            x % length == 0,
            m == x / length,
    ;
    assert(86_400_000_000_000int == d * length) by (nonlinear_arith)
        requires
            length > 0,
            86_400_000_000_000int % length == 0,
            d == 86_400_000_000_000int / length,
    ;
    assert(x - days * 86_400_000_000_000 == (m - days * d) * length) by (nonlinear_arith)
        requires
            x == m * length,
            86_400_000_000_000int == d * length,
    ;
    vstd::arithmetic::div_mod::lemma_mod_multiples_basic(m - days * d, length);
}

/// A schedule by an interval runs that much later, to the nanosecond. Within a leap second, less
/// than what is left of it is counted in it, and more than that from the second behind it on.
pub proof fn law_interval_is_kept(
    schedule: &ScheduleSpec,
    now: &Timestamp,
    next: Timestamp,
    span: Span,
)
    requires
        call_ensures(
            ScheduleSpec::next_after,
            (schedule, now),
            Ok::<Timestamp, ScheduleError>(next),
        ),
        schedule == ScheduleSpec::Interval(span),
        schedule.wf(),
        now.wf(),
    ensures
        ({
            let length = span.secs * 1_000_000_000 + span.nanos;
            let later = (next.secs - now.secs) * 1_000_000_000 + next.nanos - now.nanos;
            &&& now.nanos < 1_000_000_000 ==> later == length && next.nanos < 1_000_000_000
            &&& now.nanos >= 1_000_000_000 && now.nanos + length < 2_000_000_000 ==> later == length
            &&& now.nanos >= 1_000_000_000 && now.nanos + length >= 2_000_000_000 ==> later == length
                - 1_000_000_000 && next.nanos < 1_000_000_000
        }),
{
    assert(can_be_next(*schedule, *now, next));
}

/// An interval leads to a time exactly if it is no longer than so many milliseconds as 63 bits can
/// count.
pub proof fn law_only_too_long_intervals_fail(
    schedule: &ScheduleSpec,
    now: &Timestamp,
    r: Result<Timestamp, ScheduleError>,
    span: Span,
)
    requires
        call_ensures(ScheduleSpec::next_after, (schedule, now), r),
        schedule == ScheduleSpec::Interval(span) || schedule == ScheduleSpec::Aligned(span),
        span.wf(),
    ensures
        r is Ok <==> span.secs * 1_000_000_000 + span.nanos <= 9_223_372_036_854_775_807 * 1_000_000,
        r matches Err(error) ==> error@ == ScheduleErrorView::IntervalTooLong,
{
}

/// On the way to a deadline the scheduler sleeps a second at a time, and the last time just until
/// the deadline. It does not sleep once the deadline has come, nor once a shutdown is asked for.
pub proof fn law_sleeps_lead_to_the_deadline(
    deadline: &Timestamp,
    now: &Timestamp,
    shutdown: bool,
    r: Option<Span>,
)
    requires
        call_ensures(wait_until, (deadline, now, shutdown), r),
        now.wf(),
        deadline.wf(),
        now.nanos < NANOS,
        deadline.nanos < NANOS,
    ensures
        ({
            let left = (deadline.secs - now.secs) * 1_000_000_000 + deadline.nanos - now.nanos;
            match r {
                None => shutdown || left <= 0,
                Some(span) => {
                    let sleep = span.secs * 1_000_000_000 + span.nanos;
                    &&& !shutdown
                    &&& left > 0
                    &&& left <= 1_000_000_000 ==> sleep == left
                    &&& left > 1_000_000_000 ==> sleep == 1_000_000_000
                },
            }
        }),
{
    if let Some(span) = r {
        assert(span.total() == nap(*now, *deadline));
        assert(nanos_until(*now, *deadline) == (deadline.secs - now.secs)
            * 1_000_000_000 + deadline.nanos - now.nanos);
    }
}

/// What the options of a schedule amount to: an interval and a cron expression exclude each other, a
/// cron expression is not aligned, no time at all is no interval, and without either a backup is due
/// every hour. An interval that is aligned is the same interval.
pub proof fn law_schedule_options_mean_what_they_say(
    interval: Option<&str>,
    cron: Option<&str>,
    aligned: bool,
    r: Result<ScheduleSpec, ScheduleError>,
)
    requires
        call_ensures(ScheduleSpec::from_run_args, (interval, cron, aligned), r),
    ensures
        interval is Some && cron is Some ==> (r matches Err(error) && error@
            == ScheduleErrorView::Both),
        interval is None && cron is Some && aligned ==> (r matches Err(error) && error@
            == ScheduleErrorView::AlignedCron),
        interval is None && cron is None ==> r == Ok::<ScheduleSpec, ScheduleError>(
            if aligned {
                ScheduleSpec::Aligned(Span { secs: 3_600, nanos: 0 })
            } else {
                ScheduleSpec::Interval(Span { secs: 3_600, nanos: 0 })
            },
        ),
        cron is None ==> match r {
            Ok(ScheduleSpec::Interval(span)) => !aligned && span.secs + span.nanos > 0 && (
            interval matches Some(text) ==> interval_reading(text@) == Ok::<(u64, u32), Seq<char>>(
                (span.secs, span.nanos),
            )),
            Ok(ScheduleSpec::Aligned(span)) => aligned && span.secs + span.nanos > 0 && (
            interval matches Some(text) ==> interval_reading(text@) == Ok::<(u64, u32), Seq<char>>(
                (span.secs, span.nanos),
            )),
            Ok(ScheduleSpec::Cron { expression }) => false,
            Err(error) => interval matches Some(text) && match interval_reading(text@) {
                Ok((secs, nanos)) => secs == 0 && nanos == 0 && error@
                    == ScheduleErrorView::ZeroInterval,
                Err(reason) => error@ == (ScheduleErrorView::InvalidInterval {
                    interval: text@,
                    reason,
                }),
            },
        },
{
    match r {
        Ok(schedule) => {
            assert(made(r) == Ok::<ScheduleView, ScheduleErrorView>(schedule@));
            match schedule {
                ScheduleSpec::Interval(span) => {},
                ScheduleSpec::Aligned(span) => {},
                ScheduleSpec::Cron { expression } => {},
            }
        },
        Err(error) => {},
    }
}

/// A cron schedule goes by the expression given, in the form that begins with the seconds, and is
/// refused exactly if that form cannot be made or the expression has a fault.
pub proof fn law_cron_schedules_go_by_what_is_given(
    raw: &str,
    text: Result<String, CronTextError>,
    r: Result<ScheduleSpec, ScheduleError>,
)
    requires
        call_ensures(ScheduleSpec::from_run_args, (None::<&str>, Some(raw), false), r),
        call_ensures(normalize_cron, (raw,), text),
    ensures
        match (text, r) {
            (Ok(normal), Ok(ScheduleSpec::Cron { expression })) => expression@ == normal@
                && cron_complaint(normal@) is None,
            (Ok(normal), Err(error)) => cron_complaint(normal@) matches Some(reason) && error@ == (
            ScheduleErrorView::InvalidCron { expression: raw@, reason }),
            (Err(fault), Err(error)) => error@ == ScheduleErrorView::CronText(fault),
            _ => false,
        },
{
    match r {
        Ok(schedule) => {
            match schedule {
                ScheduleSpec::Interval(span) => {},
                ScheduleSpec::Aligned(span) => {},
                ScheduleSpec::Cron { expression } => {},
            }
        },
        Err(error) => {},
    }
}

/// Where local clocks show the boundary twice, an aligned schedule runs at the first of the two times
/// that is still to come. Where they never show it, or no longer will, it waits for what was missing
/// to the boundary.
pub proof fn law_first_showing_of_a_boundary_counts(
    now: &Timestamp,
    span: &Span,
    offset: i32,
    found: Option<(i64, i64)>,
    r: Timestamp,
    midnight: int,
)
    requires
        call_ensures(aligned_run, (now, span, offset, found), r),
        now.wf(),
        span.wf(),
        span.secs + span.nanos > 0,
        now.nanos < 1_000_000_000,
        midnight % 86_400 == 0,
        midnight <= now.secs + offset < midnight + 86_400,
    ensures
        ({
            let length = span.secs * 1_000_000_000 + span.nanos;
            let elapsed = (now.secs + offset - midnight) * 1_000_000_000 + now.nanos;
            let missing = length - elapsed % length;
            let nanos = (elapsed + missing) % 1_000_000_000;
            let comes = |secs: int| secs > now.secs || (secs == now.secs && nanos > now.nanos);
            match found {
                Some((one, other)) if comes(one as int) && comes(other as int) => r.nanos == nanos && (
                r.secs == one || r.secs == other) && r.secs <= one && r.secs <= other,
                Some((one, other)) if comes(one as int) => r.secs == one && r.nanos == nanos,
                Some((one, other)) if comes(other as int) => r.secs == other && r.nanos == nanos,
                _ => missing < 18_446_744_073_709_551_616_000_000_000 ==> r.secs * 1_000_000_000
                    + r.nanos == now.secs * 1_000_000_000 + now.nanos + missing,
            }
        }),
{
    let length = span.secs * 1_000_000_000 + span.nanos;
    let second = (now.secs + offset) % 86_400;
    assert(now.secs + offset == midnight + second);
    let elapsed = since_midnight(*now, offset as int);
    assert(elapsed == (now.secs + offset - midnight) * 1_000_000_000 + now.nanos);
    law_next_multiple_is_next(elapsed, length);
    let quotient = elapsed / length;
    assert(elapsed == quotient * length + elapsed % length) by (nonlinear_arith)
        requires
            length > 0,
            quotient == elapsed / length,
    ;
    assert((quotient + 1) * length == quotient * length + length) by (nonlinear_arith);
    assert(next_multiple(elapsed, length) - elapsed == length - elapsed % length);
}

/// In the years 0 to 9000 every schedule can be followed whose interval is no longer than a hundred
/// years.
pub proof fn law_ordinary_schedules_can_be_followed(
    schedule: &ScheduleSpec,
    now: &Timestamp,
    r: bool,
)
    requires
        call_ensures(ScheduleSpec::can_follow, (schedule, now), r),
        now.wf(),
        -62_167_219_200 <= now.secs <= 221_845_392_000,
        schedule matches ScheduleSpec::Interval(span) ==> span.nanos < 1_000_000_000 && span.secs
            <= 3_155_760_000,
        schedule matches ScheduleSpec::Aligned(span) ==> span.nanos < 1_000_000_000 && span.secs
            <= 3_155_760_000,
    ensures
        r,
{
}

} // verus!
