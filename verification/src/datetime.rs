//! Wall-clock times, calendar dates and signed durations.
//!
//! Times are seconds from midnight, durations are whole seconds, dates are
//! plain year / month / day triples. All arithmetic the calculator performs
//! on them is integer arithmetic here; only shifting a date by a number of
//! calendar days is delegated to the calendar library.

use vstd::prelude::*;
use vstd::arithmetic::div_mod::{lemma_mod_multiples_vanish, lemma_fundamental_div_mod};
use chrono::Datelike;

verus! {

pub const MINUTE: i64 = 60;

pub const HOUR: i64 = 3600;

pub const DAY: i64 = 86400;

pub const WEEK: i64 = 604800;

/// Thirty days, the calculator's fixed month length.
pub const MONTH: i64 = 2592000;

/// Three hundred and sixty-five days, the calculator's fixed year length.
pub const YEAR: i64 = 31536000;

/// The unit a duration was written in.
#[derive(Clone, Copy, Debug, PartialEq, Eq, Structural)]
pub enum DurationUnit {
    Second,
    Minute,
    Hour,
    Day,
    Week,
    Month,
    Year,
}

/// Seconds in one unit.
pub open spec fn spec_unit_seconds(u: DurationUnit) -> int {
    match u {
        DurationUnit::Second => 1,
        DurationUnit::Minute => 60,
        DurationUnit::Hour => 3600,
        DurationUnit::Day => 86400,
        DurationUnit::Week => 604800,
        DurationUnit::Month => 2592000,
        DurationUnit::Year => 31536000,
    }
}

/// Seconds in one unit.
pub fn unit_seconds(u: DurationUnit) -> (s: i64)
    ensures
        s as int == spec_unit_seconds(u),
        1 <= s <= 31536000,
{
    match u {
        DurationUnit::Second => 1,
        DurationUnit::Minute => MINUTE,
        DurationUnit::Hour => HOUR,
        DurationUnit::Day => DAY,
        DurationUnit::Week => WEEK,
        DurationUnit::Month => MONTH,
        DurationUnit::Year => YEAR,
    }
}

/// A span of time in whole seconds, possibly negative.
#[derive(Clone, Copy, Debug, PartialEq, Eq, Structural)]
pub struct SignedDuration {
    seconds: i64,
}

impl SignedDuration {
    /// The span in seconds.
    pub closed spec fn secs(self) -> int {
        self.seconds as int
    }

    /// Safe to negate.
    pub open spec fn wf(self) -> bool {
        self.secs() != i64::MIN as int
    }

    /// A span of `seconds` seconds.
    pub fn from_seconds(seconds: i64) -> (r: SignedDuration)
        requires
            seconds != i64::MIN,
        ensures
            r.wf(),
            r.secs() == seconds as int,
    {
        SignedDuration { seconds }
    }

    /// Check at run time what `wf` states.
    pub fn wf_check(&self) -> (b: bool)
        ensures
            b == self.wf(),
    {
        self.seconds != i64::MIN
    }

    /// The span in seconds.
    pub fn num_seconds(&self) -> (s: i64)
        ensures
            s as int == self.secs(),
    {
        self.seconds
    }

    /// The magnitude of the span in seconds.
    pub fn abs_seconds(&self) -> (s: i64)
        requires
            self.wf(),
        ensures
            s as int == crate::rat::iabs(self.secs()),
    {
        if self.seconds < 0 {
            -self.seconds
        } else {
            self.seconds
        }
    }

    /// Whether the span is negative.
    pub fn is_negative(&self) -> (b: bool)
        ensures
            b == (self.secs() < 0),
    {
        self.seconds < 0
    }

    /// The sum of two spans, `None` when it leaves the safe range.
    pub fn checked_add(self, other: SignedDuration) -> (r: Option<SignedDuration>)
        ensures
            r is Some <==> ((i64::MIN as int) < self.secs() + other.secs() && self.secs() + other.secs() <= i64::MAX as int),
            r is Some ==> r->0.wf() && r->0.secs() == self.secs() + other.secs(),
    {
        match self.seconds.checked_add(other.seconds) {
            Some(v) => if v == i64::MIN {
                None
            } else {
                Some(SignedDuration { seconds: v })
            },
            None => None,
        }
    }

    /// The difference of two spans, `None` when it leaves the safe range.
    pub fn checked_sub(self, other: SignedDuration) -> (r: Option<SignedDuration>)
        ensures
            r is Some <==> ((i64::MIN as int) < self.secs() - other.secs() && self.secs() - other.secs() <= i64::MAX as int),
            r is Some ==> r->0.wf() && r->0.secs() == self.secs() - other.secs(),
    {
        match self.seconds.checked_sub(other.seconds) {
            Some(v) => if v == i64::MIN {
                None
            } else {
                Some(SignedDuration { seconds: v })
            },
            None => None,
        }
    }
}

/// A wall-clock time of day: seconds from midnight, always below 86400.
#[derive(Clone, Copy, Debug, PartialEq, Eq, Structural)]
pub struct ClockTime {
    seconds: u32,
}

impl ClockTime {
    /// Seconds from midnight.
    pub closed spec fn secs(self) -> int {
        self.seconds as int
    }

    /// Within one day.
    pub open spec fn wf(self) -> bool {
        0 <= self.secs() < 86400
    }

    /// The time `total` seconds after midnight, wrapped modulo one day.
    pub fn from_seconds(total: u64) -> (t: ClockTime)
        ensures
            t.wf(),
            t.secs() == total as int % 86400,
    {
        ClockTime { seconds: (total % 86400) as u32 }
    }

    /// The time of day `h:m:s`, wrapped modulo one day.
    pub fn from_hms(h: u32, m: u32, s: u32) -> (t: ClockTime)
        ensures
            t.wf(),
            t.secs() == (h as int * 3600 + m as int * 60 + s as int) % 86400,
    {
        let total: u64 = h as u64 * 3600 + m as u64 * 60 + s as u64;
        ClockTime::from_seconds(total)
    }

    /// Check at run time what `wf` states.
    pub fn wf_check(&self) -> (b: bool)
        ensures
            b == self.wf(),
    {
        self.seconds < 86400
    }

    /// Seconds from midnight.
    pub fn num_seconds_from_midnight(&self) -> (s: u32)
        ensures
            s as int == self.secs(),
    {
        self.seconds
    }

    /// The hour, below 24.
    pub fn hour(&self) -> (h: u32)
        requires
            self.wf(),
        ensures
            h as int == self.secs() / 3600,
            h < 24,
    {
        self.seconds / 3600
    }

    /// The minute, below 60.
    pub fn minute(&self) -> (m: u32)
        requires
            self.wf(),
        ensures
            m as int == (self.secs() / 60) % 60,
    {
        (self.seconds / 60) % 60
    }

    /// The second, below 60.
    pub fn second(&self) -> (s: u32)
        requires
            self.wf(),
        ensures
            s as int == self.secs() % 60,
    {
        self.seconds % 60
    }

    /// The time `delta` seconds later (earlier when negative), wrapped
    /// modulo one day.
    pub fn add_seconds(self, delta: i64) -> (t: ClockTime)
        requires
            self.wf(),
        ensures
            t.wf(),
            t.secs() == (self.secs() + delta as int) % 86400,
    {
        if delta >= 0 {
            let total: u64 = self.seconds as u64 + (delta as u64) % 86400;
            proof {
                lemma_mod_multiples_vanish(
                    delta as int / 86400,
                    self.secs() + delta as int % 86400,
                    86400,
                );
                lemma_fundamental_div_mod(delta as int, 86400);
            }
            ClockTime::from_seconds(total)
        } else {
            let mag: u64 = ((-(delta + 1)) as u64) + 1;
            let rm: u64 = mag % 86400;
            let total: u64 = self.seconds as u64 + 86400 - rm;
            proof {
                assert(mag as int == -(delta as int));
                lemma_fundamental_div_mod(mag as int, 86400);
                // self + delta == (self - rm) - (mag/86400)*86400
                lemma_mod_multiples_vanish(
                    -(mag as int / 86400),
                    self.secs() - rm as int,
                    86400,
                );
                // self - rm == (self + 86400 - rm) - 86400
                lemma_mod_multiples_vanish(1, self.secs() - rm as int, 86400);
            }
            ClockTime::from_seconds(total)
        }
    }
}

/// Whether a year is a leap year in the Gregorian calendar.
pub open spec fn spec_is_leap_year(y: int) -> bool {
    y % 4 == 0 && (y % 100 != 0 || y % 400 == 0)
}

/// Days in a month of a given year.
pub open spec fn spec_days_in_month(y: int, m: int) -> int {
    if m == 2 {
        if spec_is_leap_year(y) {
            29
        } else {
            28
        }
    } else if m == 4 || m == 6 || m == 9 || m == 11 {
        30
    } else {
        31
    }
}

/// Whether a year is a leap year in the Gregorian calendar.
pub fn is_leap_year(y: i32) -> (b: bool)
    ensures
        b == spec_is_leap_year(y as int),
{
    let m4: u32 = if y >= 0 {
        (y as u32) % 4
    } else {
        (((-(y + 1)) as u32) + 1) % 4
    };
    let m100: u32 = if y >= 0 {
        (y as u32) % 100
    } else {
        (((-(y + 1)) as u32) + 1) % 100
    };
    let m400: u32 = if y >= 0 {
        (y as u32) % 400
    } else {
        (((-(y + 1)) as u32) + 1) % 400
    };
    proof {
        if y < 0 {
            lemma_neg_mod_zero(y as int, 4);
            lemma_neg_mod_zero(y as int, 100);
            lemma_neg_mod_zero(y as int, 400);
        }
    }
    m4 == 0 && (m100 != 0 || m400 == 0)
}

/// A negative value and its magnitude are divisible by the same moduli.
proof fn lemma_neg_mod_zero(x: int, m: int)
    requires
        m >= 1,
        x < 0,
    ensures
        (x % m == 0) <==> ((-x) % m == 0),
{
    lemma_fundamental_div_mod(x, m);
    lemma_fundamental_div_mod(-x, m);
    if x % m == 0 {
        let q = x / m;
        assert(-x == m * (-q) + 0) by (nonlinear_arith)
            requires
                x == m * q,
        ;
        vstd::arithmetic::div_mod::lemma_fundamental_div_mod_converse_mod(-x, m, -q, 0);
    }
    if (-x) % m == 0 {
        let q = (-x) / m;
        assert(x == m * (-q) + 0) by (nonlinear_arith)
            requires
                -x == m * q,
        ;
        vstd::arithmetic::div_mod::lemma_fundamental_div_mod_converse_mod(x, m, -q, 0);
    }
}

/// Days in a month of a given year.
pub fn days_in_month(y: i32, m: u8) -> (d: u8)
    requires
        1 <= m <= 12,
    ensures
        d as int == spec_days_in_month(y as int, m as int),
{
    if m == 2 {
        if is_leap_year(y) {
            29
        } else {
            28
        }
    } else if m == 4 || m == 6 || m == 9 || m == 11 {
        30
    } else {
        31
    }
}

/// A calendar date.
#[derive(Clone, Copy, Debug, PartialEq, Eq, Structural)]
pub struct SimpleDate {
    pub year: i32,
    pub month: u8,
    pub day: u8,
}

impl SimpleDate {
    /// A real date within the range the calendar library accepts.
    pub open spec fn wf(self) -> bool {
        &&& -200000 <= self.year <= 200000
        &&& 1 <= self.month <= 12
        &&& 1 <= self.day as int <= spec_days_in_month(self.year as int, self.month as int)
    }

    /// Check at run time what `wf` states.
    pub fn wf_check(&self) -> (b: bool)
        ensures
            b == self.wf(),
    {
        -200000 <= self.year && self.year <= 200000 && 1 <= self.month && self.month <= 12
            && 1 <= self.day && self.day <= days_in_month(self.year, self.month)
    }

    /// The date `y-m-d` when it exists and lies in the supported range.
    pub fn new(year: i32, month: u8, day: u8) -> (r: Option<SimpleDate>)
        ensures
            r is Some <==> (-200000 <= year <= 200000 && 1 <= month <= 12 && 1 <= day as int
                <= spec_days_in_month(year as int, month as int)),
            r is Some ==> r->0.wf() && r->0.year == year && r->0.month == month && r->0.day == day,
    {
        if year < -200000 || year > 200000 || month < 1 || month > 12 || day < 1 {
            return None;
        }
        if day > days_in_month(year, month) {
            return None;
        }
        Some(SimpleDate { year, month, day })
    }
}

/// The date `delta` calendar days after `y-m-d`, as the calendar library
/// computes it; a function of its arguments alone.
pub uninterp spec fn date_after_days(y: int, m: int, d: int, delta: int) -> (int, int, int);

/// Relies on chrono's NaiveDate::from_ymd_opt, NaiveDate::checked_add_signed,
/// Duration::try_days and the Datelike accessors year, month and day:
/// calendar day arithmetic. from_ymd_opt accepts exactly the real dates in
/// chrono's supported year range (about plus or minus 262000, beyond the
/// plus or minus 200000 kept by `SimpleDate`); shifting a real date by zero
/// days returns it unchanged; a shift of at most 366 days moves the year by
/// at most one, so from a year within plus or minus 199999 it succeeds and
/// lands within plus or minus 200000; any date handed back has a real month
/// and day for its year. Callers check the year range themselves.
#[verifier::external_body]
fn chrono_shift_days(date: SimpleDate, delta: i64) -> (r: Option<SimpleDate>)
    requires
        date.wf(),
        -100000000 <= delta <= 100000000,
    ensures
        r is Some ==> 1 <= r->0.month <= 12 && 1 <= r->0.day as int <= spec_days_in_month(
            r->0.year as int,
            r->0.month as int,
        ),
        r is Some ==> (r->0.year as int, r->0.month as int, r->0.day as int) == date_after_days(
            date.year as int,
            date.month as int,
            date.day as int,
            delta as int,
        ),
        delta == 0 ==> r == Some(date),
        -199999 <= date.year <= 199999 && -366 <= delta <= 366 ==> r is Some && -200000
            <= r->0.year <= 200000,
{
    let nd = chrono::NaiveDate::from_ymd_opt(date.year, date.month as u32, date.day as u32)?;
    let span = chrono::Duration::try_days(delta)?;
    let shifted = nd.checked_add_signed(span)?;
    Some(SimpleDate { year: shifted.year(), month: shifted.month() as u8, day: shifted.day() as u8 })
}

/// The date `delta` calendar days away; `None` when the shift fails or the
/// landing year leaves the range `SimpleDate` keeps.
pub fn shift_days(date: SimpleDate, delta: i64) -> (r: Option<SimpleDate>)
    requires
        date.wf(),
        -100000000 <= delta <= 100000000,
    ensures
        r is Some ==> r->0.wf(),
        r is Some ==> (r->0.year as int, r->0.month as int, r->0.day as int) == date_after_days(
            date.year as int,
            date.month as int,
            date.day as int,
            delta as int,
        ),
        delta == 0 ==> r == Some(date),
        -199999 <= date.year <= 199999 && -366 <= delta <= 366 ==> r is Some,
{
    match chrono_shift_days(date, delta) {
        Some(d) => {
            if -200000 <= d.year && d.year <= 200000 {
                Some(d)
            } else {
                None
            }
        },
        None => None,
    }
}

} // verus!
