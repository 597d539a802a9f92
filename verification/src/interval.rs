//! Intervals as they are written: numbers, each with a unit of time.
use crate::text::{chars_of, is_white_space, same_text, text_of, white_space_char};
use crate::time::{digit, is_digit};
use vstd::prelude::*;

verus! {

/// The first length of time, in nanoseconds, whose whole seconds 64 bits cannot hold.
pub const TOO_LONG: u128 = 18_446_744_073_709_551_616_000_000_000;

/// Whether a character can belong to a unit.
pub open spec fn is_unit_char(c: char) -> bool {
    'a' <= c <= 'z' || 'A' <= c <= 'Z' || c == '\u{b5}'
}

/// How many nanoseconds a unit has; none if there is no such unit.
pub open spec fn unit_nanos(unit: Seq<char>) -> nat {
    if unit == "nanos"@ || unit == "nsec"@ || unit == "ns"@ {
        1
    } else if unit == "usec"@ || unit == "us"@ || unit == "\u{b5}s"@ {
        1_000
    } else if unit == "millis"@ || unit == "msec"@ || unit == "ms"@ {
        1_000_000
    } else if unit == "seconds"@ || unit == "second"@ || unit == "secs"@ || unit == "sec"@ || unit
        == "s"@ {
        1_000_000_000
    } else if unit == "minutes"@ || unit == "minute"@ || unit == "min"@ || unit == "mins"@ || unit
        == "m"@ {
        60_000_000_000
    } else if unit == "hours"@ || unit == "hour"@ || unit == "hr"@ || unit == "hrs"@ || unit
        == "h"@ {
        3_600_000_000_000
    } else if unit == "days"@ || unit == "day"@ || unit == "d"@ {
        86_400_000_000_000
    } else if unit == "weeks"@ || unit == "week"@ || unit == "wk"@ || unit == "wks"@ || unit
        == "w"@ {
        604_800_000_000_000
    } else if unit == "months"@ || unit == "month"@ || unit == "M"@ {
        2_630_016_000_000_000
    } else if unit == "years"@ || unit == "year"@ || unit == "yr"@ || unit == "yrs"@ || unit
        == "y"@ {
        31_557_600_000_000_000
    } else {
        0
    }
}

/// What the end of a text belongs to.
#[derive(Debug, Clone, Copy, PartialEq, Eq, Structural)]
pub enum Phase {
    /// Nothing yet: a number is to come.
    Start,
    /// A number.
    Number,
    /// The decimal places of a number.
    Fraction,
    /// The unit behind a number.
    Unit,
    /// The text is no interval.
    Refused,
    /// A number completes [`TOO_LONG`] by some nanoseconds.
    Brimful,
}

/// How far the numbers of a text add up.
#[verifier::ext_equal]
pub struct Scan {
    pub phase: Phase,
    /// The sum of the numbers whose units have ended, in nanoseconds.
    pub total: nat,
    pub number: nat,
    /// The decimal places, and the power of ten that they are divided by; 0 if there are none.
    pub numerator: nat,
    pub denominator: nat,
    pub unit: Seq<char>,
}

/// The state with another phase.
pub open spec fn in_phase(scan: Scan, phase: Phase) -> Scan {
    Scan { phase, ..scan }
}

/// The state in which so many seconds, or nanoseconds if `fine`, are added to the sum.
///
/// A count that 64 bits cannot hold is refused. Up to a second of nanoseconds is added before it is
/// carried over.
pub open spec fn with_amount(scan: Scan, count: nat, fine: bool) -> Scan {
    let amount = if fine {
        count
    } else {
        count * 1_000_000_000
    };
    if count > u64::MAX || (fine && scan.total % 1_000_000_000 + count > u64::MAX) {
        in_phase(scan, Phase::Refused)
    } else if scan.total + amount < TOO_LONG {
        Scan { total: scan.total + amount, ..scan }
    } else if scan.total + amount == TOO_LONG && fine && count <= 1_000_000_000 {
        in_phase(scan, Phase::Brimful)
    } else {
        in_phase(scan, Phase::Refused)
    }
}

/// The state in which the unit has ended.
///
/// Whole numbers of units shorter than a second are counted in nanoseconds, and so are decimal
/// places of a minute or less. The others are counted in seconds.
pub open spec fn with_unit_ended(scan: Scan) -> Scan {
    let unit = unit_nanos(scan.unit);
    let whole = if unit < 1_000_000_000 {
        with_amount(scan, scan.number * unit, true)
    } else {
        with_amount(scan, scan.number * (unit / 1_000_000_000), false)
    };
    let fine = unit <= 60_000_000_000;
    let places = scan.numerator * (if fine {
        unit
    } else {
        unit / 1_000_000_000
    });
    if unit == 0 {
        in_phase(scan, Phase::Refused)
    } else if whole.phase !is Unit || scan.denominator == 0 {
        whole
    } else if unit == 1 || places > u64::MAX || places % scan.denominator != 0 {
        in_phase(whole, Phase::Refused)
    } else {
        with_amount(whole, places / scan.denominator, fine)
    }
}

/// The state in which a number begins.
pub open spec fn with_number_begun(scan: Scan, c: char) -> Scan {
    Scan {
        phase: Phase::Number,
        total: scan.total,
        number: digit(c) as nat,
        numerator: 0,
        denominator: 0,
        unit: Seq::empty(),
    }
}

/// The state that a character leads to.
pub open spec fn with_char(scan: Scan, c: char) -> Scan {
    match scan.phase {
        Phase::Start => if is_digit(c) {
            with_number_begun(scan, c)
        } else if is_white_space(c) {
            scan
        } else {
            in_phase(scan, Phase::Refused)
        },
        Phase::Number => if is_digit(c) {
            let number = (scan.number * 10 + digit(c)) as nat;
            if number <= u64::MAX {
                Scan { number, ..scan }
            } else {
                in_phase(scan, Phase::Refused)
            }
        } else if is_white_space(c) {
            scan
        } else if is_unit_char(c) {
            Scan { phase: Phase::Unit, unit: seq![c], ..scan }
        } else if c == '.' {
            Scan { phase: Phase::Fraction, numerator: 0, denominator: 1, ..scan }
        } else {
            in_phase(scan, Phase::Refused)
        },
        Phase::Fraction => if is_digit(c) {
            if scan.denominator * 10 <= u64::MAX {
                Scan {
                    numerator: (scan.numerator * 10 + digit(c)) as nat,
                    denominator: scan.denominator * 10,
                    ..scan
                }
            } else {
                in_phase(scan, Phase::Refused)
            }
        } else if is_white_space(c) {
            scan
        } else if is_unit_char(c) && scan.denominator != 1 {
            Scan { phase: Phase::Unit, unit: seq![c], ..scan }
        } else {
            in_phase(scan, Phase::Refused)
        },
        Phase::Unit => if is_unit_char(c) {
            Scan { unit: scan.unit.push(c), ..scan }
        } else if is_digit(c) || is_white_space(c) {
            let ended = with_unit_ended(scan);
            if ended.phase !is Unit {
                ended
            } else if is_digit(c) {
                with_number_begun(ended, c)
            } else {
                in_phase(ended, Phase::Start)
            }
        } else {
            in_phase(scan, Phase::Refused)
        },
        Phase::Refused => scan,
        Phase::Brimful => scan,
    }
}

/// How far the numbers of a text add up.
pub open spec fn scan_of(text: Seq<char>) -> Scan
    decreases text.len(),
{
    if text.len() == 0 {
        Scan {
            phase: Phase::Start,
            total: 0,
            number: 0,
            numerator: 0,
            denominator: 0,
            unit: Seq::empty(),
        }
    } else {
        with_char(scan_of(text.drop_last()), text.last())
    }
}

/// Whether no number of an interval completes [`TOO_LONG`] by some nanoseconds.
pub open spec fn is_measured(text: Seq<char>) -> bool {
    let scan = scan_of(text);
    if scan.phase is Unit {
        with_unit_ended(scan).phase !is Brimful
    } else {
        scan.phase !is Brimful
    }
}

/// The number that some digits write.
pub open spec fn decimal(digits: Seq<char>) -> nat
    decreases digits.len(),
{
    if digits.len() == 0 {
        0
    } else {
        (decimal(digits.drop_last()) * 10 + digit(digits.last())) as nat
    }
}

/// How many seconds the unit has that a letter stands for.
pub open spec fn unit_seconds(letter: char) -> int {
    if letter == 's' {
        1
    } else if letter == 'm' {
        60
    } else if letter == 'h' {
        3_600
    } else if letter == 'd' {
        86_400
    } else if letter == 'w' {
        604_800
    } else {
        0
    }
}

/// Whether an interval is written as up to nine digits and a letter for seconds, minutes, hours,
/// days or weeks.
pub open spec fn is_plain_interval(text: Seq<char>) -> bool {
    &&& 2 <= text.len() <= 10
    &&& forall|i: int| 0 <= i < text.len() - 1 ==> is_digit(#[trigger] text[i])
    &&& unit_seconds(text.last()) > 0
}

/// How many seconds such an interval has.
pub open spec fn plain_seconds(text: Seq<char>) -> int {
    decimal(text.drop_last()) * unit_seconds(text.last())
}

/// What `humantime::parse_duration` makes of a text: seconds and nanoseconds, or its complaint.
pub uninterp spec fn interval_reading(text: Seq<char>) -> Result<(u64, u32), Seq<char>>;

/// `humantime::parse_duration`, with the result as seconds and nanoseconds.
///
/// The result depends on the text alone, and its nanoseconds are less than a second. Digits and a
/// letter for a unit mean what they say.
///
/// It panics where a number completes [`TOO_LONG`] by nanoseconds that make up a second with those
/// before, so no number does.
#[verifier::external_body]
pub(crate) fn read_interval(text: &str) -> (r: Result<(u64, u32), String>)
    requires
        is_measured(text@),
    ensures
        interval_reading(text@) == (match r {
            Ok(reading) => Ok(reading),
            Err(reason) => Err(reason@),
        }),
        r matches Ok(reading) ==> reading.1 < 1_000_000_000,
        is_plain_interval(text@) ==> (match r {
            Ok(reading) => reading.0 == plain_seconds(text@) && reading.1 == 0,
            Err(_) => false,
        }),
{
    humantime::parse_duration(text)
        .map(|length| (length.as_secs(), length.subsec_nanos()))
        .map_err(|error| error.to_string())
}

/// How many nanoseconds a unit has; none if there is no such unit.
fn nanos_in(unit: &str) -> (r: u64)
    ensures
        r == unit_nanos(unit@),
{
    if same_text(unit, "nanos") || same_text(unit, "nsec") || same_text(unit, "ns") {
        1
    } else if same_text(unit, "usec") || same_text(unit, "us") || same_text(unit, "\u{b5}s") {
        1_000
    } else if same_text(unit, "millis") || same_text(unit, "msec") || same_text(unit, "ms") {
        1_000_000
    } else if same_text(unit, "seconds") || same_text(unit, "second") || same_text(unit, "secs")
        || same_text(unit, "sec") || same_text(unit, "s") {
        1_000_000_000
    } else if same_text(unit, "minutes") || same_text(unit, "minute") || same_text(unit, "min")
        || same_text(unit, "mins") || same_text(unit, "m") {
        60_000_000_000
    } else if same_text(unit, "hours") || same_text(unit, "hour") || same_text(unit, "hr")
        || same_text(unit, "hrs") || same_text(unit, "h") {
        3_600_000_000_000
    } else if same_text(unit, "days") || same_text(unit, "day") || same_text(unit, "d") {
        86_400_000_000_000
    } else if same_text(unit, "weeks") || same_text(unit, "week") || same_text(unit, "wk")
        || same_text(unit, "wks") || same_text(unit, "w") {
        604_800_000_000_000
    } else if same_text(unit, "months") || same_text(unit, "month") || same_text(unit, "M") {
        2_630_016_000_000_000
    } else if same_text(unit, "years") || same_text(unit, "year") || same_text(unit, "yr")
        || same_text(unit, "yrs") || same_text(unit, "y") {
        31_557_600_000_000_000
    } else {
        0
    }
}

/// How far the numbers of a text add up, while it is read.
struct Scanner {
    phase: Phase,
    total: u128,
    number: u64,
    numerator: u64,
    denominator: u64,
    unit: Vec<char>,
}

impl View for Scanner {
    type V = Scan;

    closed spec fn view(&self) -> Scan {
        Scan {
            phase: self.phase,
            total: self.total as nat,
            number: self.number as nat,
            numerator: self.numerator as nat,
            denominator: self.denominator as nat,
            unit: self.unit@,
        }
    }
}

impl Scanner {
    /// The sum can be held, and the decimal places are fewer than what they are divided by.
    spec fn wf(&self) -> bool {
        &&& self.total < TOO_LONG
        &&& self.denominator > 0 ==> self.numerator < self.denominator
        &&& self.phase is Fraction ==> self.denominator > 0
    }

    /// Adds so many seconds, or nanoseconds if `fine`, to the sum.
    fn add_amount(&mut self, count: u128, fine: bool)
        requires
            old(self).wf(),
        ensures
            final(self).wf(),
            final(self)@ == with_amount(old(self)@, count as nat, fine),
    {
        let limit: u128 = u64::MAX as u128;
        if count > limit || (fine && self.total % 1_000_000_000 + count > limit) {
            self.phase = Phase::Refused;
            return;
        }
        let sum: u128 = if fine {
            self.total + count
        } else {
            self.total + count * 1_000_000_000
        };
        if sum < TOO_LONG {
            self.total = sum;
        } else if sum == TOO_LONG && fine && count <= 1_000_000_000 {
            self.phase = Phase::Brimful;
        } else {
            self.phase = Phase::Refused;
        }
    }

    /// Ends the unit.
    fn end_unit(&mut self)
        requires
            old(self).wf(),
            old(self)@.phase is Unit,
        ensures
            final(self).wf(),
            final(self)@ == with_unit_ended(old(self)@),
    {
        let unit: u64 = nanos_in(text_of(&self.unit).as_str());
        if unit == 0 {
            self.phase = Phase::Refused;
            return;
        }
        let seconds: u64 = unit / 1_000_000_000;
        let number: u64 = self.number;
        let numerator: u64 = self.numerator;
        let fine: bool = unit <= 60_000_000_000;
        let step: u64 = if fine {
            unit
        } else {
            seconds
        };
        proof {
            lemma_count_fits(number, unit);
            lemma_count_fits(number, seconds);
            lemma_count_fits(numerator, step);
        }
        if unit < 1_000_000_000 {
            self.add_amount(number as u128 * unit as u128, true);
        } else {
            self.add_amount(number as u128 * seconds as u128, false);
        }
        if self.phase != Phase::Unit || self.denominator == 0 {
            return;
        }
        let places: u128 = numerator as u128 * step as u128;
        let denominator: u128 = self.denominator as u128;
        if unit == 1 || places > u64::MAX as u128 || places % denominator != 0 {
            self.phase = Phase::Refused;
            return;
        }
        self.add_amount(places / denominator, fine);
    }

    /// Begins a number.
    fn begin_number(&mut self, c: char)
        requires
            old(self).wf(),
            is_digit(c),
        ensures
            final(self).wf(),
            final(self)@ == with_number_begun(old(self)@, c),
    {
        self.phase = Phase::Number;
        self.number = (c as u32 - 48) as u64;
        self.numerator = 0;
        self.denominator = 0;
        self.unit = Vec::new();
    }

    /// Takes a character.
    fn take(&mut self, c: char)
        requires
            old(self).wf(),
        ensures
            final(self).wf(),
            final(self)@ == with_char(old(self)@, c),
    {
        let is_number: bool = '0' <= c && c <= '9';
        let is_letter: bool = ('a' <= c && c <= 'z') || ('A' <= c && c <= 'Z') || c == '\u{b5}';
        let is_blank: bool = white_space_char(c);
        match self.phase {
            Phase::Start => {
                if is_number {
                    self.begin_number(c);
                } else if !is_blank {
                    self.phase = Phase::Refused;
                }
            },
            Phase::Number => {
                if is_number {
                    let next: u128 = self.number as u128 * 10 + (c as u32 - 48) as u128;
                    if next <= u64::MAX as u128 {
                        self.number = next as u64;
                    } else {
                        self.phase = Phase::Refused;
                    }
                } else if is_blank {
                } else if is_letter {
                    self.begin_unit(c);
                } else if c == '.' {
                    self.phase = Phase::Fraction;
                    self.numerator = 0;
                    self.denominator = 1;
                } else {
                    self.phase = Phase::Refused;
                }
            },
            Phase::Fraction => {
                if is_number {
                    if self.denominator <= u64::MAX / 10 {
                        let place: u64 = (c as u32 - 48) as u64;
                        self.numerator = self.numerator * 10 + place;
                        self.denominator = self.denominator * 10;
                    } else {
                        self.phase = Phase::Refused;
                    }
                } else if is_blank {
                } else if is_letter && self.denominator != 1 {
                    self.begin_unit(c);
                } else {
                    self.phase = Phase::Refused;
                }
            },
            Phase::Unit => {
                if is_letter {
                    self.unit.push(c);
                } else if is_number || is_blank {
                    self.end_unit();
                    if self.phase != Phase::Unit {
                    } else if is_number {
                        self.begin_number(c);
                    } else {
                        self.phase = Phase::Start;
                    }
                } else {
                    self.phase = Phase::Refused;
                }
            },
            Phase::Refused => {},
            Phase::Brimful => {},
        }
    }

    /// Begins a unit.
    fn begin_unit(&mut self, c: char)
        requires
            old(self).wf(),
        ensures
            final(self).wf(),
            final(self)@ == (Scan { phase: Phase::Unit, unit: seq![c], ..old(self)@ }),
    {
        let mut unit: Vec<char> = Vec::new();
        unit.push(c);
        assert(unit@ =~= seq![c]);
        self.unit = unit;
        self.phase = Phase::Unit;
    }
}

/// A number of 64 bits can be counted in any unit.
proof fn lemma_count_fits(number: u64, unit: u64)
    ensures
        0 <= number * unit <= u128::MAX,
{
    assert(0 <= number * unit <= 18_446_744_073_709_551_615 * 18_446_744_073_709_551_615)
        by (nonlinear_arith)
        requires
            0 <= number <= 18_446_744_073_709_551_615,
            0 <= unit <= 18_446_744_073_709_551_615,
    ;
}

/// Whether no number of an interval completes [`TOO_LONG`] by some nanoseconds.
pub fn interval_is_measured(text: &str) -> (r: bool)
    ensures
        r == is_measured(text@),
{
    let chars: Vec<char> = chars_of(text);
    let mut scanner = Scanner {
        phase: Phase::Start,
        total: 0,
        number: 0,
        numerator: 0,
        denominator: 0,
        unit: Vec::new(),
    };
    let mut i: usize = 0;
    assert(scanner@ =~= scan_of(chars@.take(0)));
    while i < chars.len()
        invariant
            scanner.wf(),
            i <= chars@.len(),
            scanner@ == scan_of(chars@.take(i as int)),
        decreases chars@.len() - i,
    {
        assert(chars@.take(i + 1).drop_last() =~= chars@.take(i as int));
        scanner.take(chars[i]);
        i = i + 1;
    }
    assert(chars@.take(chars@.len() as int) =~= chars@);
    if scanner.phase == Phase::Unit {
        scanner.end_unit();
    }
    scanner.phase != Phase::Brimful
}

/// Up to nine digits write a number below a billion, and are read as that number.
proof fn lemma_digits(text: Seq<char>)
    requires
        text.len() <= 9,
        forall|i: int| 0 <= i < text.len() ==> is_digit(#[trigger] text[i]),
    ensures
        decimal(text) < 1_000_000_000,
        text.len() <= 8 ==> decimal(text) < 100_000_000,
        text.len() <= 7 ==> decimal(text) < 10_000_000,
        text.len() <= 6 ==> decimal(text) < 1_000_000,
        text.len() <= 5 ==> decimal(text) < 100_000,
        text.len() <= 4 ==> decimal(text) < 10_000,
        text.len() <= 3 ==> decimal(text) < 1_000,
        text.len() <= 2 ==> decimal(text) < 100,
        text.len() <= 1 ==> decimal(text) < 10,
        text.len() == 0 ==> decimal(text) == 0,
        text.len() > 0 ==> scan_of(text) == (Scan {
            phase: Phase::Number,
            total: 0,
            number: decimal(text),
            numerator: 0,
            denominator: 0,
            unit: Seq::empty(),
        }),
    decreases text.len(),
{
    if text.len() > 0 {
        let front = text.drop_last();
        assert forall|i: int| 0 <= i < front.len() implies is_digit(#[trigger] front[i]) by {
            assert(is_digit(text[i]));
        }
        lemma_digits(front);
        assert(is_digit(text.last()));
        if front.len() == 0 {
            assert(scan_of(front).phase is Start);
        }
    }
}

/// A letter for a unit stands for as many seconds as it has.
proof fn lemma_letter_units(letter: char)
    requires
        unit_seconds(letter) > 0,
    ensures
        unit_nanos(seq![letter]) == unit_seconds(letter) * 1_000_000_000,
        is_unit_char(letter),
{
    reveal_strlit("nanos");
    reveal_strlit("nsec");
    reveal_strlit("ns");
    reveal_strlit("usec");
    reveal_strlit("us");
    reveal_strlit("\u{b5}s");
    reveal_strlit("millis");
    reveal_strlit("msec");
    reveal_strlit("ms");
    reveal_strlit("seconds");
    reveal_strlit("second");
    reveal_strlit("secs");
    reveal_strlit("sec");
    reveal_strlit("s");
    reveal_strlit("minutes");
    reveal_strlit("minute");
    reveal_strlit("min");
    reveal_strlit("mins");
    reveal_strlit("m");
    reveal_strlit("hours");
    reveal_strlit("hour");
    reveal_strlit("hr");
    reveal_strlit("hrs");
    reveal_strlit("h");
    reveal_strlit("days");
    reveal_strlit("day");
    reveal_strlit("d");
    reveal_strlit("weeks");
    reveal_strlit("week");
    reveal_strlit("wk");
    reveal_strlit("wks");
    reveal_strlit("w");
    let unit = seq![letter];
    assert(unit.len() == 1 && unit[0] == letter);
    if letter == 's' {
        assert(unit =~= "s"@);
    } else if letter == 'm' {
        assert(unit =~= "m"@);
    } else if letter == 'h' {
        assert(unit =~= "h"@);
    } else if letter == 'd' {
        assert(unit =~= "d"@);
    } else {
        assert(unit =~= "w"@);
    }
    assert("s"@[0] == 's' && "m"@[0] == 'm' && "h"@[0] == 'h' && "d"@[0] == 'd' && "w"@[0] == 'w');
}

/// An interval of digits and a letter is not too long to be held.
pub proof fn lemma_plain_seconds(text: Seq<char>)
    requires
        is_plain_interval(text),
    ensures
        0 <= plain_seconds(text) <= 604_800_000_000_000,
{
    let front = text.drop_last();
    assert forall|i: int| 0 <= i < front.len() implies is_digit(#[trigger] front[i]) by {
        assert(is_digit(text[i]));
    }
    lemma_digits(front);
    let n = decimal(front) as int;
    let unit = unit_seconds(text.last());
    assert(n * unit <= 1_000_000_000 * 604_800 && n * unit >= 0) by (nonlinear_arith)
        requires
            0 <= n <= 1_000_000_000,
            0 <= unit <= 604_800,
    ;
}

/// An interval of digits and a letter is always measured.
pub proof fn law_plain_interval_is_measured(text: Seq<char>)
    requires
        is_plain_interval(text),
    ensures
        is_measured(text),
{
    let front = text.drop_last();
    assert forall|i: int| 0 <= i < front.len() implies is_digit(#[trigger] front[i]) by {
        assert(is_digit(text[i]));
    }
    lemma_digits(front);
    lemma_letter_units(text.last());
    lemma_plain_seconds(text);
    let scan = scan_of(text);
    assert(scan.unit == seq![text.last()]);
    assert(unit_nanos(scan.unit) / 1_000_000_000 == unit_seconds(text.last()));
    assert(scan.number * (unit_nanos(scan.unit) / 1_000_000_000) == plain_seconds(text));
}

/// A power of ten.
spec fn ten_to(n: nat) -> nat
    decreases n,
{
    if n == 0 {
        1
    } else {
        10 * ten_to((n - 1) as nat)
    }
}

/// How far the numbers of a text can add up at most: each digit makes ten times as much of a year.
spec fn is_bounded(scan: Scan, n: nat) -> bool {
    let year: nat = 31_557_600_000_000_000;
    &&& scan.phase !is Brimful
    &&& scan.total <= ten_to(n) * year
    &&& scan.phase is Number || scan.phase is Fraction || scan.phase is Unit ==> scan.total + (
    scan.number + 1) * year <= ten_to(n) * year
    &&& scan.phase is Fraction ==> scan.denominator > 0
    &&& scan.denominator > 0 ==> scan.numerator < scan.denominator
}

/// A count of some unit is no more than the same count of years, and decimal places make less than
/// one unit.
proof fn lemma_amounts(number: nat, unit: nat, numerator: nat, denominator: nat)
    requires
        unit <= 31_557_600_000_000_000,
    ensures
        number * unit <= number * 31_557_600_000_000_000,
        (number * (unit / 1_000_000_000)) * 1_000_000_000 <= number * 31_557_600_000_000_000,
        numerator < denominator ==> (numerator * unit) / denominator <= unit,
        numerator < denominator ==> ((numerator * (unit / 1_000_000_000)) / denominator)
            * 1_000_000_000 <= unit,
{
    let seconds = unit / 1_000_000_000;
    assert(number * unit <= number * 31_557_600_000_000_000) by (nonlinear_arith)
        requires
            unit <= 31_557_600_000_000_000,
    ;
    assert((number * seconds) * 1_000_000_000 <= number * 31_557_600_000_000_000)
        by (nonlinear_arith)
        requires
            seconds * 1_000_000_000 <= 31_557_600_000_000_000,
    ;
    if numerator < denominator {
        lemma_part_of(numerator, unit, denominator);
        lemma_part_of(numerator, seconds, denominator);
    }
}

/// A part of something is no more than all of it.
proof fn lemma_part_of(numerator: nat, all: nat, denominator: nat)
    requires
        numerator < denominator,
    ensures
        (numerator * all) / denominator <= all,
{
    assert(numerator * all <= all * denominator) by (nonlinear_arith)
        requires
            numerator < denominator,
    ;
    assert((numerator * all) / denominator <= all) by (nonlinear_arith)
        requires
            numerator * all <= all * denominator,
            denominator > 0,
            numerator * all >= 0,
    ;
}

/// Ending a unit keeps the bound.
proof fn lemma_ended_unit_is_bounded(scan: Scan, n: nat)
    requires
        is_bounded(scan, n),
        scan.phase is Unit,
        ten_to(n) <= 100_000_000_000,
    ensures
        with_unit_ended(scan).phase !is Brimful,
        with_unit_ended(scan).total <= ten_to(n) * 31_557_600_000_000_000,
        with_unit_ended(scan).phase is Unit || with_unit_ended(scan).phase is Refused,
        with_unit_ended(scan).numerator == scan.numerator,
        with_unit_ended(scan).denominator == scan.denominator,
{
    let unit = unit_nanos(scan.unit);
    let year: nat = 31_557_600_000_000_000;
    assert(unit <= year);
    lemma_amounts(scan.number, unit, scan.numerator, scan.denominator);
    assert((scan.number + 1) * year == scan.number * year + year) by (nonlinear_arith);
    assert(ten_to(n) * year <= 100_000_000_000 * year) by (nonlinear_arith)
        requires
            ten_to(n) <= 100_000_000_000,
    ;
}

/// A short text adds up to little.
proof fn lemma_short_texts_are_bounded(text: Seq<char>)
    requires
        text.len() <= 11,
    ensures
        is_bounded(scan_of(text), text.len()),
        1 <= ten_to(text.len()) <= 100_000_000_000,
        text.len() > 0 ==> ten_to(text.len()) >= 10,
    decreases text.len(),
{
    let year: nat = 31_557_600_000_000_000;
    reveal_with_fuel(ten_to, 12);
    if text.len() > 0 {
        let front = text.drop_last();
        lemma_short_texts_are_bounded(front);
        let scan = scan_of(front);
        let c = text.last();
        let n = front.len();
        let p = ten_to(n);
        assert(ten_to(text.len()) == 10 * p);
        assert((10 * p) * year == 10 * (p * year)) by (nonlinear_arith);
        assert(p * year >= year) by (nonlinear_arith)
            requires
                p >= 1,
        ;
        assert((scan.number + 1) * year == scan.number * year + year) by (nonlinear_arith);
        if scan.phase is Unit {
            lemma_ended_unit_is_bounded(scan, n);
        }
        if is_digit(c) {
            let number = scan.number * 10 + digit(c);
            assert(0 <= digit(c) <= 9);
            assert((number + 1) * year <= 10 * ((scan.number + 1) * year)) by (nonlinear_arith)
                requires
                    number + 1 <= 10 * (scan.number + 1),
            ;
            assert((digit(c) + 1) * year <= 10 * year) by (nonlinear_arith)
                requires
                    digit(c) <= 9,
            ;
            if n == 0 {
                assert(scan.total == 0);
            } else {
                assert(p * year >= 10 * year) by (nonlinear_arith)
                    requires
                        p >= 10,
                ;
            }
        }
        assert(is_bounded(with_char(scan, c), text.len()));
    }
}

/// An interval of up to eleven characters is always measured.
pub proof fn law_short_intervals_are_measured(text: &str, r: bool)
    requires
        call_ensures(interval_is_measured, (text,), r),
        text@.len() <= 11,
    ensures
        r,
{
    lemma_short_texts_are_bounded(text@);
    if scan_of(text@).phase is Unit {
        lemma_ended_unit_is_bounded(scan_of(text@), text@.len());
    }
}

} // verus!
