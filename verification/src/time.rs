//! Points in time, times of day, and the calendar work behind them.
use crate::calendar::{label_reading, stamp_reading};
use chrono::TimeZone;
use vstd::prelude::*;

verus! {

/// The first second that the calendar can represent.
pub const FIRST_SECOND: i64 = -8_334_601_228_800;

/// The last second that the calendar can represent.
pub const LAST_SECOND: i64 = 8_210_266_876_799;

/// The first second of the year 0.
pub const YEAR_0: i64 = -62_167_219_200;

/// The last second of the year 9999.
pub const END_OF_YEAR_9999: i64 = 253_402_300_799;

/// How many nanoseconds a second has.
pub const NANOS: u32 = 1_000_000_000;

/// How many seconds a day has.
pub const DAY: i64 = 86_400;

/// A point in time: seconds since 1970-01-01 00:00:00 UTC, and nanoseconds on top.
///
/// Nanoseconds from 1,000,000,000 up to 1,999,999,999 lie in the leap second that follows the second.
#[derive(Debug, Clone, Copy, PartialEq, Eq, Structural)]
pub struct Timestamp {
    pub secs: i64,
    pub nanos: u32,
}

/// A time of day: seconds since midnight, and nanoseconds on top.
///
/// Nanoseconds from 1,000,000,000 up to 1,999,999,999 lie in the leap second that follows the second.
#[derive(Debug, Clone, Copy, PartialEq, Eq, Structural)]
pub struct ClockTime {
    pub secs: u32,
    pub nanos: u32,
}

impl Timestamp {
    /// Whether the calendar can represent the point in time.
    pub open spec fn wf(self) -> bool {
        &&& FIRST_SECOND <= self.secs <= LAST_SECOND
        &&& self.nanos < 2 * NANOS
    }

    /// Whether this point in time lies behind `other`.
    pub open spec fn later(self, other: Timestamp) -> bool {
        self.secs > other.secs || (self.secs == other.secs && self.nanos > other.nanos)
    }

    /// Whether this point in time lies behind `other`.
    pub fn is_later(&self, other: &Timestamp) -> (r: bool)
        ensures
            r == self.later(*other),
    {
        self.secs > other.secs || (self.secs == other.secs && self.nanos > other.nanos)
    }
}

impl ClockTime {
    /// Whether the time lies within a day.
    pub open spec fn wf(self) -> bool {
        &&& self.secs < DAY
        &&& self.nanos < 2 * NANOS
    }

    /// Whether this time of day lies before `other`.
    pub open spec fn earlier(self, other: ClockTime) -> bool {
        self.secs < other.secs || (self.secs == other.secs && self.nanos < other.nanos)
    }

    /// Whether this time of day lies before `other`.
    pub fn is_earlier(&self, other: &ClockTime) -> (r: bool)
        ensures
            r == self.earlier(*other),
    {
        self.secs < other.secs || (self.secs == other.secs && self.nanos < other.nanos)
    }
}

/// The seconds that a clock shows which is `offset` seconds ahead of UTC.
pub open spec fn local_seconds(at: Timestamp, offset: int) -> int {
    at.secs + offset
}

/// The day that such a clock shows, counted from 1970-01-01.
pub open spec fn local_day(at: Timestamp, offset: int) -> int {
    local_seconds(at, offset) / (DAY as int)
}

/// The seconds since midnight that such a clock shows.
pub open spec fn local_second_of_day(at: Timestamp, offset: int) -> int {
    local_seconds(at, offset) % (DAY as int)
}

/// The signed distance in nanoseconds from one time of day to another.
///
/// A leap second between the two counts as a second of its own.
pub open spec fn nanos_between(
    from_secs: int,
    from_nanos: int,
    to_secs: int,
    to_nanos: int,
) -> int {
    let leap: int = if to_secs > from_secs && from_nanos >= NANOS {
        1
    } else if to_secs < from_secs && to_nanos >= NANOS {
        -1
    } else {
        0
    };
    (to_secs - from_secs + leap) * (NANOS as int) + (to_nanos - from_nanos)
}

/// How many whole seconds lie between two times of day, whichever comes first.
pub open spec fn whole_seconds_between(
    from_secs: int,
    from_nanos: int,
    to_secs: int,
    to_nanos: int,
) -> int {
    let nanos = nanos_between(from_secs, from_nanos, to_secs, to_nanos);
    (if nanos < 0 {
        -nanos
    } else {
        nanos
    }) / (NANOS as int)
}

/// The day that a clock shows which is `offset` seconds ahead of UTC.
pub fn day_of(at: &Timestamp, offset: i32) -> (r: i64)
    requires
        at.wf(),
        -DAY < offset < DAY,
    ensures
        r == local_day(*at, offset as int),
        -100_000_000 < r < 100_000_000,
{
    floor_days(at.secs + offset as i64).0
}

/// The seconds since midnight that such a clock shows.
pub fn second_of_day(at: &Timestamp, offset: i32) -> (r: i64)
    requires
        at.wf(),
        -DAY < offset < DAY,
    ensures
        r == local_second_of_day(*at, offset as int),
        0 <= r < DAY,
{
    floor_days(at.secs + offset as i64).1
}

/// Whole days and the seconds left over, rounding towards the past.
pub fn floor_days(secs: i64) -> (r: (i64, i64))
    requires
        FIRST_SECOND - DAY <= secs <= LAST_SECOND + DAY,
    ensures
        r.0 == secs as int / (DAY as int),
        r.1 == secs as int % (DAY as int),
        0 <= r.1 < DAY,
        -100_000_000 < r.0 < 100_000_000,
{
    if secs >= 0 {
        (secs / DAY, secs % DAY)
    } else {
        let behind: i64 = -(secs + 1);
        let days: i64 = -(behind / DAY) - 1;
        let left: i64 = secs - days * DAY;
        (days, left)
    }
}

/// How many whole seconds lie between two times of day, whichever comes first.
pub fn seconds_between(from: &ClockTime, to_secs: i64, to_nanos: u32) -> (r: i64)
    requires
        from.wf(),
        0 <= to_secs < DAY,
        to_nanos < 2 * NANOS,
    ensures
        r == whole_seconds_between(
            from.secs as int,
            from.nanos as int,
            to_secs as int,
            to_nanos as int,
        ),
{
    let from_secs: i64 = from.secs as i64;
    let leap: i64 = if to_secs > from_secs && from.nanos >= NANOS {
        1
    } else if to_secs < from_secs && to_nanos >= NANOS {
        -1
    } else {
        0
    };
    let nanos: i64 = (to_secs - from_secs + leap) * 1_000_000_000 + (to_nanos as i64
        - from.nanos as i64);
    if nanos < 0 {
        -nanos / 1_000_000_000
    } else {
        nanos / 1_000_000_000
    }
}

/// What reading a text as a time of day in a given format yields: seconds since midnight and
/// nanoseconds, or nothing.
pub uninterp spec fn clock_reading(text: Seq<char>, format: Seq<char>) -> Option<(u32, u32)>;

/// What reading a text as a date and time in UTC in a given format yields: seconds since 1970 and
/// nanoseconds, or nothing.
pub uninterp spec fn moment_reading(text: Seq<char>, format: Seq<char>) -> Option<(i64, u32)>;

/// What a point in time looks like, written in UTC in a given format.
pub uninterp spec fn moment_text(secs: i64, format: Seq<char>) -> Seq<char>;

/// The value of a decimal digit.
pub open spec fn digit(c: char) -> int {
    c as int - '0' as int
}

/// Whether a character is a decimal digit.
pub open spec fn is_digit(c: char) -> bool {
    '0' <= c <= '9'
}

/// The number that the two digits from place `i` on write.
pub open spec fn two_digits(text: Seq<char>, i: int) -> int {
    10 * digit(text[i]) + digit(text[i + 1])
}

/// Whether two digits stand at place `i`.
pub open spec fn has_two_digits(text: Seq<char>, i: int) -> bool {
    is_digit(text[i]) && is_digit(text[i + 1])
}

/// Whether the text is a time written `HH:MM`.
pub open spec fn is_hours_minutes(text: Seq<char>) -> bool {
    &&& text.len() == 5
    &&& has_two_digits(text, 0)
    &&& text[2] == ':'
    &&& has_two_digits(text, 3)
    &&& two_digits(text, 0) < 24
    &&& two_digits(text, 3) < 60
}

/// Whether the text is a time written `HH:MM:SS`.
pub open spec fn is_hours_minutes_seconds(text: Seq<char>) -> bool {
    &&& text.len() == 8
    &&& has_two_digits(text, 0)
    &&& text[2] == ':'
    &&& has_two_digits(text, 3)
    &&& text[5] == ':'
    &&& has_two_digits(text, 6)
    &&& two_digits(text, 0) < 24
    &&& two_digits(text, 3) < 60
    &&& two_digits(text, 6) < 60
}

/// Whether the text is a day written `YYYY-MM-DD`, by the places of its digits and dashes.
pub open spec fn is_day_label(text: Seq<char>) -> bool {
    &&& text.len() == 10
    &&& has_two_digits(text, 0)
    &&& has_two_digits(text, 2)
    &&& text[4] == '-'
    &&& has_two_digits(text, 5)
    &&& text[7] == '-'
    &&& has_two_digits(text, 8)
}

/// Whether the characters are a day written `YYYY-MM-DD`, by the places of its digits and dashes.
pub fn reads_as_day(chars: &Vec<char>) -> (r: bool)
    ensures
        r == is_day_label(chars@),
{
    if chars.len() != 10 || chars[4] != '-' || chars[7] != '-' {
        return false;
    }
    let mut i: usize = 0;
    while i < 10
        invariant
            i <= 10,
            chars@.len() == 10,
            chars@[4] == '-',
            chars@[7] == '-',
            forall|k: int| 0 <= k < i && k != 4 && k != 7 ==> is_digit(#[trigger] chars@[k]),
        decreases 10 - i,
    {
        let c: char = chars[i];
        if i != 4 && i != 7 && !('0' <= c && c <= '9') {
            assert(!is_digit(chars@[i as int]));
            return false;
        }
        i = i + 1;
    }
    true
}

/// Whether the text is a timestamp written `YYYYMMDDTHHMMSSZ`, by the places of its digits.
pub open spec fn is_stamp(text: Seq<char>) -> bool {
    &&& text.len() == 16
    &&& forall|i: int| 0 <= i < 8 ==> is_digit(#[trigger] text[i])
    &&& text[8] == 'T'
    &&& forall|i: int| 9 <= i < 15 ==> is_digit(#[trigger] text[i])
    &&& text[15] == 'Z'
}

/// `chrono::NaiveTime::parse_from_str`, with the time as seconds since midnight and nanoseconds.
///
/// Its result depends on the two texts alone and lies within a day. `%H:%M` reads a time written
/// `HH:MM`, `%H:%M:%S` one written `HH:MM:SS`, and `%H:%M:%S` does not read `HH:MM`.
#[verifier::external_body]
pub(crate) fn read_clock(text: &str, format: &str) -> (r: Option<(u32, u32)>)
    ensures
        r == clock_reading(text@, format@),
        r matches Some(time) ==> time.0 < 86_400 && time.1 < 2_000_000_000,
        is_hours_minutes(text@) && format@ == "%H:%M"@ ==> r == Some(
            ((two_digits(text@, 0) * 3600 + two_digits(text@, 3) * 60) as u32, 0u32),
        ),
        is_hours_minutes_seconds(text@) && format@ == "%H:%M:%S"@ ==> r == Some(
            (
                (two_digits(text@, 0) * 3600 + two_digits(text@, 3) * 60 + two_digits(text@, 6)) as u32,
                0u32,
            ),
        ),
        is_hours_minutes(text@) && format@ == "%H:%M:%S"@ ==> r is None,
{
    let time = chrono::NaiveTime::parse_from_str(text, format).ok()?;
    Some((
        chrono::Timelike::num_seconds_from_midnight(&time),
        chrono::Timelike::nanosecond(&time),
    ))
}

/// `chrono::NaiveDateTime::parse_from_str`, with the result taken as UTC.
///
/// Its result depends on the two texts alone and lies within chrono's range of dates. The format
/// `%Y%m%dT%H%M%SZ` reads sixteen characters with the digits in their places as the time that the
/// digits mean, and refuses them if there is no such time.
#[verifier::external_body]
pub(crate) fn read_moment(text: &str, format: &str) -> (r: Option<(i64, u32)>)
    ensures
        r == moment_reading(text@, format@),
        r matches Some(moment) ==> FIRST_SECOND <= moment.0 <= LAST_SECOND && moment.1
            < 2_000_000_000,
        is_stamp(text@) && format@ == "%Y%m%dT%H%M%SZ"@ ==> stamp_reading(text@) == (match r {
            Some(moment) => Some((moment.0 as int, moment.1 as int)),
            None => None,
        }),
{
    let moment = chrono::NaiveDateTime::parse_from_str(text, format).ok()?.and_utc();
    Some((moment.timestamp(), moment.timestamp_subsec_nanos()))
}

/// `chrono::DateTime::format` on a whole second in UTC.
///
/// Its result depends on the second and the format alone. From the year 0 to the year 9999, the
/// format `%Y%m%dT%H%M%SZ` writes sixteen characters, whose digits mean that second, and the format
/// `%Y-%m-%d` writes ten, whose digits mean its day.
#[verifier::external_body]
pub(crate) fn write_moment(secs: i64, format: &str) -> (r: String)
    requires
        FIRST_SECOND <= secs <= LAST_SECOND,
        format@ == "%Y%m%dT%H%M%SZ"@ || format@ == "%Y-%m-%d"@,
    ensures
        r@ == moment_text(secs, format@),
        YEAR_0 <= secs <= END_OF_YEAR_9999 && format@ == "%Y%m%dT%H%M%SZ"@ ==> is_stamp(r@)
            && stamp_reading(r@) == Some((secs as int, 0int)),
        YEAR_0 <= secs <= END_OF_YEAR_9999 && format@ == "%Y-%m-%d"@ ==> is_day_label(r@)
            && label_reading(r@) == Some(secs as int / 86_400),
{
    chrono::DateTime::from_timestamp(secs, 0).unwrap().format(format).to_string()
}

/// `chrono::Local::offset_from_utc_datetime`: how many seconds local clocks are ahead of UTC.
///
/// The offset is the machine's own. It is always less than a day.
#[verifier::external_body]
pub(crate) fn local_offset(secs: i64) -> (r: i32)
    requires
        FIRST_SECOND <= secs <= LAST_SECOND,
    ensures
        -86_400 < r < 86_400,
{
    let utc = chrono::DateTime::from_timestamp(secs, 0).unwrap().naive_utc();
    chrono::Local.offset_from_utc_datetime(&utc).local_minus_utc()
}

/// `chrono::Local::from_local_datetime`: the one or two seconds at which local clocks show what a
/// clock in UTC shows at `shown`, if there are any. Where there is one it comes twice.
///
/// Which seconds these are, and in which order they come, rests on the machine's time zone. Each is
/// less than a day away.
#[verifier::external_body]
pub(crate) fn seconds_showing(shown: i64) -> (r: Option<(i64, i64)>)
    requires
        FIRST_SECOND <= shown <= LAST_SECOND,
    ensures
        r matches Some(found) ==> -86_400 < found.0 - shown < 86_400 && -86_400 < found.1 - shown
            < 86_400,
{
    let local = chrono::DateTime::from_timestamp(shown, 0).unwrap().naive_utc();
    let found = chrono::Local.from_local_datetime(&local);
    Some((found.earliest()?.timestamp(), found.latest()?.timestamp()))
}

/// Whether the machine can answer `ahead` when asked how many seconds local clocks are ahead of UTC
/// at a second.
///
/// The answer is the machine's own, and may be another one once its time zone is changed.
pub open(crate) spec fn reports(secs: i64, ahead: i32) -> bool {
    call_ensures(local_offset, (secs,), ahead)
}

/// Whether the machine can answer `found` when asked for the one or two seconds at which local clocks
/// show what a clock in UTC shows at `shown`.
pub open(crate) spec fn shows(shown: i64, found: Option<(i64, i64)>) -> bool {
    call_ensures(seconds_showing, (shown,), found)
}

/// Whether local clocks stay `ahead` seconds ahead of UTC from one second to another: that is what
/// the machine reports for each of the seconds between, and what local clocks show at one of them
/// they show at no other time.
pub open spec fn steady(from: int, to: int, ahead: int) -> bool {
    &&& forall|secs: i64, answer: i32|
        from <= secs <= to && #[trigger] reports(secs, answer) ==> answer == ahead
    &&& forall|shown: i64, found: Option<(i64, i64)>|
        from + ahead <= shown <= to + ahead && #[trigger] shows(shown, found) ==> found == Some(
            ((shown - ahead) as i64, (shown - ahead) as i64),
        )
}

/// What the machine reports, and when it says that local clocks show something, is what it answers to
/// the calls, unchanged.
pub(crate) proof fn law_answers_are_taken_unchanged(
    secs: i64,
    ahead: i32,
    shown: i64,
    found: Option<(i64, i64)>,
)
    ensures
        reports(secs, ahead) == call_ensures(local_offset, (secs,), ahead),
        shows(shown, found) == call_ensures(seconds_showing, (shown,), found),
{
}

/// What the machine reports is less than a day.
pub proof fn law_reports_are_less_than_a_day(secs: i64, ahead: i32)
    requires
        reports(secs, ahead),
    ensures
        -86_400 < ahead < 86_400,
{
}

/// A label of a day is ten characters: four digits, a dash, two digits, a dash, two digits. A
/// timestamp is sixteen: eight digits, a `T`, six digits, a `Z`.
pub proof fn law_labels_and_stamps_by_their_places(text: Seq<char>)
    ensures
        is_day_label(text) <==> text.len() == 10 && forall|i: int|
            0 <= i < 10 ==> (if i == 4 || i == 7 {
                #[trigger] text[i] == '-'
            } else {
                '0' <= text[i] <= '9'
            }),
        is_stamp(text) <==> text.len() == 16 && forall|i: int|
            0 <= i < 16 ==> (if i == 8 {
                #[trigger] text[i] == 'T'
            } else if i == 15 {
                text[i] == 'Z'
            } else {
                '0' <= text[i] <= '9'
            }),
{
    if is_stamp(text) {
        assert forall|i: int| 0 <= i < 16 implies (if i == 8 {
            #[trigger] text[i] == 'T'
        } else if i == 15 {
            text[i] == 'Z'
        } else {
            '0' <= text[i] <= '9'
        }) by {
            assert(i == 8 || i == 15 || is_digit(text[i]));
        }
    }
}

} // verus!
