//! The calendar: what the digits of a date and time mean.
use crate::order::{lemma_lex_irreflexive, lemma_lex_total, lex_less, strict_total_order};
use crate::time::{digit, is_day_label, is_digit, is_stamp, two_digits, END_OF_YEAR_9999, YEAR_0};
use vstd::prelude::*;

verus! {

/// Whether a year has a 29th of February.
pub open spec fn is_leap_year(year: int) -> bool {
    year % 4 == 0 && (year % 100 != 0 || year % 400 == 0)
}

/// How many days of a year come before a month. The month behind December comes after all of them.
pub open spec fn days_before_month(year: int, month: int) -> int {
    let days = seq![0int, 31, 59, 90, 120, 151, 181, 212, 243, 273, 304, 334, 365];
    days[month - 1] + (if month > 2 && is_leap_year(year) {
        1int
    } else {
        0
    })
}

/// How many days a month has.
pub open spec fn month_days(year: int, month: int) -> int {
    days_before_month(year, month + 1) - days_before_month(year, month)
}

/// How many days lie between the start of the year 0 and that of a later one. Each year has 365, and
/// each leap year one more.
pub open spec fn days_before_year(year: int) -> int {
    365 * year + (year + 3) / 4 - (year + 99) / 100 + (year + 399) / 400
}

/// Whether there is such a date.
pub open spec fn is_date(year: int, month: int, day: int) -> bool {
    1 <= month <= 12 && 1 <= day <= month_days(year, month)
}

/// A date as a day counted from 1970-01-01.
pub open spec fn day_number(year: int, month: int, day: int) -> int {
    days_before_year(year) - 719_528 + days_before_month(year, month) + day - 1
}

/// The number that the four digits from place `i` on write.
pub open spec fn four_digits(text: Seq<char>, i: int) -> int {
    100 * two_digits(text, i) + two_digits(text, i + 2)
}

/// The time that a timestamp written `YYYYMMDDTHHMMSSZ` means, in seconds since 1970-01-01 00:00:00
/// UTC and nanoseconds, if there is such a time.
///
/// Second 60 is a leap second: a second's worth of nanoseconds on top of second 59.
pub open spec fn stamp_reading(stamp: Seq<char>) -> Option<(int, int)> {
    let year = four_digits(stamp, 0);
    let month = two_digits(stamp, 4);
    let day = two_digits(stamp, 6);
    let hour = two_digits(stamp, 9);
    let minute = two_digits(stamp, 11);
    let second = two_digits(stamp, 13);
    let start = day_number(year, month, day) * 86_400 + hour * 3_600 + minute * 60;
    if !is_date(year, month, day) || hour > 23 || minute > 59 || second > 60 {
        None
    } else if second == 60 {
        Some((start + 59, 1_000_000_000))
    } else {
        Some((start + second, 0))
    }
}

/// The day that a label written `YYYY-MM-DD` means, counted from 1970-01-01, if there is such a day.
pub open spec fn label_reading(label: Seq<char>) -> Option<int> {
    let year = four_digits(label, 0);
    let month = two_digits(label, 5);
    let day = two_digits(label, 8);
    if is_date(year, month, day) {
        Some(day_number(year, month, day))
    } else {
        None
    }
}

/// Days are counted from 1970-01-01, and the days of each month begin where those of the month
/// before it end.
pub proof fn law_months_follow_each_other(year: int, month: int)
    requires
        1 <= month <= 12,
    ensures
        day_number(1970, 1, 1) == 0,
        28 <= month_days(year, month) <= 31,
        day_number(year, month, month_days(year, month)) + 1 == (if month < 12 {
            day_number(year, month + 1, 1)
        } else {
            day_number(year + 1, 1, 1)
        }),
{
    let days = seq![0int, 31, 59, 90, 120, 151, 181, 212, 243, 273, 304, 334, 365];
    assert(days[month] - days[month - 1] >= 28);
    lemma_year_has_its_days(year);
}

/// A year has 365 days, a leap year one more.
proof fn lemma_year_has_its_days(year: int)
    ensures
        days_before_year(year + 1) == days_before_year(year) + 365 + (if is_leap_year(year) {
            1int
        } else {
            0
        }),
{
    assert((year + 4) / 4 == (year + 3) / 4 + (if year % 4 == 0 {
        1int
    } else {
        0
    }));
    assert((year + 100) / 100 == (year + 99) / 100 + (if year % 100 == 0 {
        1int
    } else {
        0
    }));
    assert((year + 400) / 400 == (year + 399) / 400 + (if year % 400 == 0 {
        1int
    } else {
        0
    }));
}

/// Later months of a year begin no earlier than the one before them ends.
proof fn lemma_months_are_ordered(year: int, month: int, later: int)
    requires
        1 <= month < later <= 13,
    ensures
        days_before_month(year, month) + month_days(year, month) <= days_before_month(year, later),
{
    let days = seq![0int, 31, 59, 90, 120, 151, 181, 212, 243, 273, 304, 334, 365];
    assert(days[month] <= days[later - 1]);
}

/// Later years begin no earlier than the one before them ends.
proof fn lemma_years_are_ordered(year: int, later: int)
    requires
        year < later,
    ensures
        days_before_year(year + 1) <= days_before_year(later),
    decreases later - year,
{
    if year + 1 < later {
        lemma_years_are_ordered(year, later - 1);
        lemma_year_has_its_days(later - 1);
    }
}

/// Dates are ordered by year, then by month, then by day.
pub proof fn law_dates_are_ordered(y: int, m: int, d: int, y2: int, m2: int, d2: int)
    requires
        is_date(y, m, d),
        is_date(y2, m2, d2),
    ensures
        day_number(y, m, d) < day_number(y2, m2, d2) <==> y < y2 || (y == y2 && (m < m2 || (m == m2
            && d < d2))),
{
    lemma_date_comes_first(y, m, d, y2, m2, d2);
    lemma_date_comes_first(y2, m2, d2, y, m, d);
}

/// A date in an earlier year or month comes first.
proof fn lemma_date_comes_first(y: int, m: int, d: int, y2: int, m2: int, d2: int)
    requires
        is_date(y, m, d),
        is_date(y2, m2, d2),
    ensures
        y < y2 || (y == y2 && m < m2) ==> day_number(y, m, d) < day_number(y2, m2, d2),
{
    if y < y2 {
        lemma_years_are_ordered(y, y2);
        lemma_year_has_its_days(y);
        if m < 12 {
            lemma_months_are_ordered(y, m, 13);
        }
        if 1 < m2 {
            lemma_months_are_ordered(y2, 1, m2);
        }
    } else if y == y2 && m < m2 {
        lemma_months_are_ordered(y, m, m2);
    }
}

/// The order of characters by value.
pub open spec fn char_less() -> spec_fn(char, char) -> bool {
    |x: char, y: char| x < y
}

/// The first place at which two texts of one length differ tells which comes first.
proof fn lemma_first_difference(a: Seq<char>, b: Seq<char>) -> (k: int)
    requires
        a.len() == b.len(),
        lex_less(char_less(), a, b),
    ensures
        0 <= k < a.len(),
        forall|i: int| 0 <= i < k ==> a[i] == b[i],
        a[k] < b[k],
    decreases a.len(),
{
    if a[0] != b[0] {
        0
    } else {
        let rest = lemma_first_difference(a.drop_first(), b.drop_first());
        assert forall|i: int| 0 <= i < rest + 1 implies a[i] == b[i] by {
            if i > 0 {
                assert(a.drop_first()[i - 1] == b.drop_first()[i - 1]);
            }
        }
        rest + 1
    }
}

/// Whether one time, in seconds and nanoseconds, comes before another.
pub open spec fn reading_less(a: (int, int), b: (int, int)) -> bool {
    a.0 < b.0 || (a.0 == b.0 && a.1 < b.1)
}

/// The time that a timestamp means lies in the years 0 to 9999.
pub proof fn lemma_stamp_is_in_range(stamp: Seq<char>)
    requires
        is_stamp(stamp),
        stamp_reading(stamp) is Some,
    ensures
        ({
            let (secs, nanos) = stamp_reading(stamp)->0;
            YEAR_0 <= secs <= END_OF_YEAR_9999 && 0 <= nanos <= 1_000_000_000
        }),
{
    assert forall|i: int| 0 <= i < 16 && i != 8 && i != 15 implies 0 <= digit(
        #[trigger] stamp[i],
    ) <= 9 by {
        assert(is_digit(stamp[i]));
    }
    let year = four_digits(stamp, 0);
    let month = two_digits(stamp, 4);
    let day = two_digits(stamp, 6);
    law_dates_are_ordered(year, month, day, 0, 1, 1);
    law_dates_are_ordered(9_999, 12, 31, year, month, day);
}

/// The timestamp that comes first as a text means the earlier time.
proof fn lemma_earlier_stamp(a: Seq<char>, b: Seq<char>)
    requires
        is_stamp(a),
        is_stamp(b),
        stamp_reading(a) is Some,
        stamp_reading(b) is Some,
        lex_less(char_less(), a, b),
    ensures
        reading_less(stamp_reading(a)->0, stamp_reading(b)->0),
{
    let k = lemma_first_difference(a, b);
    assert(k != 8 && k != 15);
    assert forall|i: int| 0 <= i < 16 && i != 8 && i != 15 implies 0 <= digit(#[trigger] a[i]) <= 9
        && 0 <= digit(b[i]) <= 9 by {
        assert(is_digit(a[i]) && is_digit(b[i]));
    }
    law_dates_are_ordered(
        four_digits(a, 0),
        two_digits(a, 4),
        two_digits(a, 6),
        four_digits(b, 0),
        two_digits(b, 4),
        two_digits(b, 6),
    );
    if k < 4 {
        assert(four_digits(a, 0) < four_digits(b, 0));
    } else if k < 6 {
        assert(two_digits(a, 4) < two_digits(b, 4));
    } else if k < 8 {
        assert(two_digits(a, 6) < two_digits(b, 6));
    } else if k < 11 {
        assert(two_digits(a, 9) < two_digits(b, 9));
    } else if k < 13 {
        assert(two_digits(a, 11) < two_digits(b, 11));
    } else {
        assert(two_digits(a, 13) < two_digits(b, 13));
    }
}

/// The label that comes first as a text means the earlier day.
proof fn lemma_earlier_label(a: Seq<char>, b: Seq<char>)
    requires
        is_day_label(a),
        is_day_label(b),
        label_reading(a) is Some,
        label_reading(b) is Some,
        lex_less(char_less(), a, b),
    ensures
        label_reading(a)->0 < label_reading(b)->0,
{
    let k = lemma_first_difference(a, b);
    assert(k != 4 && k != 7);
    law_dates_are_ordered(
        four_digits(a, 0),
        two_digits(a, 5),
        two_digits(a, 8),
        four_digits(b, 0),
        two_digits(b, 5),
        two_digits(b, 8),
    );
    if k < 4 {
        assert(four_digits(a, 0) < four_digits(b, 0));
    } else if k < 7 {
        assert(two_digits(a, 5) < two_digits(b, 5));
    } else {
        assert(two_digits(a, 8) < two_digits(b, 8));
    }
}

/// Timestamps are ordered as texts like the times that they mean, and no two of them mean the same.
pub proof fn law_stamps_are_ordered_like_times(a: Seq<char>, b: Seq<char>)
    requires
        is_stamp(a),
        is_stamp(b),
        stamp_reading(a) is Some,
        stamp_reading(b) is Some,
    ensures
        lex_less(char_less(), a, b) == reading_less(stamp_reading(a)->0, stamp_reading(b)->0),
        stamp_reading(a) == stamp_reading(b) ==> a == b,
{
    assert(strict_total_order(char_less()));
    lemma_lex_total(char_less(), a, b);
    lemma_lex_irreflexive(char_less(), a);
    if lex_less(char_less(), a, b) {
        lemma_earlier_stamp(a, b);
    } else if lex_less(char_less(), b, a) {
        lemma_earlier_stamp(b, a);
    }
}

/// The labels of days are ordered as texts like the days that they mean, and no two of them mean the
/// same.
pub proof fn law_labels_are_ordered_like_days(a: Seq<char>, b: Seq<char>)
    requires
        is_day_label(a),
        is_day_label(b),
        label_reading(a) is Some,
        label_reading(b) is Some,
    ensures
        lex_less(char_less(), a, b) == (label_reading(a)->0 < label_reading(b)->0),
        label_reading(a) == label_reading(b) ==> a == b,
{
    assert(strict_total_order(char_less()));
    lemma_lex_total(char_less(), a, b);
    lemma_lex_irreflexive(char_less(), a);
    if lex_less(char_less(), a, b) {
        lemma_earlier_label(a, b);
    } else if lex_less(char_less(), b, a) {
        lemma_earlier_label(b, a);
    }
}

} // verus!
