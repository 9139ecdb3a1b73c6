//! Decimal dates, calendar years in seconds, and the date factor of a
//! bracket of epochs.
//!
//! A date between two epochs is placed by the share of true calendar time
//! that has passed, leap days included, not by subtracting decimal years.
//! The share depends on the date's fraction of its own year only through an
//! affine term, so it is handed out as three exact integers.

use vstd::prelude::*;

verus! {

/// Seconds in a year of 365 days.
pub const COMMON_YEAR_SECS: i32 = 31_536_000;

/// Seconds in a year of 366 days.
pub const LEAP_YEAR_SECS: i32 = 31_622_400;

/// Whether `year` is a leap year of the Gregorian calendar.
pub open spec fn is_leap_year(year: int) -> bool {
    year % 400 == 0 || (year % 4 == 0 && year % 100 != 0)
}

/// Length of the calendar year `year` in seconds.
pub open spec fn year_secs(year: int) -> int {
    if is_leap_year(year) {
        31_622_400
    } else {
        31_536_000
    }
}

/// Seconds in the whole calendar years `from`, `from + 1`, ..., `to - 1`;
/// zero when `to <= from`.
pub open spec fn secs_between(from: int, to: int) -> int
    decreases to - from,
{
    if to <= from {
        0
    } else {
        secs_between(from, to - 1) + year_secs(to - 1)
    }
}

/// Number of leap years among `from`, `from + 1`, ..., `to - 1`.
pub open spec fn leap_years_between(from: int, to: int) -> int
    decreases to - from,
{
    if to <= from {
        0
    } else {
        leap_years_between(from, to - 1) + if is_leap_year(to - 1) {
            1int
        } else {
            0int
        }
    }
}

/// Adding 82 times 400 to a year changes none of its remainders by 400, 100
/// and 4.
proof fn lemma_shift_keeps_remainders(year: int)
    ensures
        (year + 32_800) % 400 == year % 400,
        (year + 32_800) % 100 == year % 100,
        (year + 32_800) % 4 == year % 4,
{
    vstd::arithmetic::div_mod::lemma_mod_multiples_vanish(82, year, 400);
    vstd::arithmetic::div_mod::lemma_mod_multiples_vanish(328, year, 100);
    vstd::arithmetic::div_mod::lemma_mod_multiples_vanish(8200, year, 4);
}

/// Length of a calendar year in seconds: 366 days for a Gregorian leap year,
/// 365 days otherwise.
pub fn secs_in_year(year: i16) -> (secs: i32)
    ensures
        secs == year_secs(year as int),
{
    // A shift by a multiple of 400 years leaves the rule unchanged and makes
    // the year non-negative.
    let shifted: u32 = (year as i32 + 32_800) as u32;
    assert(shifted % 400 == year as int % 400 && shifted % 100 == year as int % 100 && shifted % 4
        == year as int % 4) by {
        lemma_shift_keeps_remainders(year as int);
    }
    let is_leap: bool = shifted % 400 == 0 || (shifted % 4 == 0 && shifted % 100 != 0);
    if is_leap {
        LEAP_YEAR_SECS
    } else {
        COMMON_YEAR_SECS
    }
}

/// A span of whole years is as long as that many common years plus one day
/// for each leap year in it.
pub proof fn lemma_secs_between_counts_leap_days(from: int, to: int)
    requires
        from <= to,
    ensures
        secs_between(from, to) == 31_536_000 * (to - from) + 86_400 * leap_years_between(
            from,
            to,
        ),
        0 <= leap_years_between(from, to) <= to - from,
    decreases to - from,
{
    if from < to {
        lemma_secs_between_counts_leap_days(from, to - 1);
    }
}

/// A span of whole years lasts between 365 and 366 days per year.
pub proof fn lemma_secs_between_bounds(from: int, to: int)
    requires
        from <= to,
    ensures
        31_536_000 * (to - from) <= secs_between(from, to) <= 31_622_400 * (to - from),
{
    lemma_secs_between_counts_leap_days(from, to);
}

/// Spans of whole years add up.
pub proof fn lemma_secs_between_split(from: int, mid: int, to: int)
    requires
        from <= mid <= to,
    ensures
        secs_between(from, to) == secs_between(from, mid) + secs_between(mid, to),
    decreases to - mid,
{
    if mid < to {
        lemma_secs_between_split(from, mid, to - 1);
    }
}

/// A bracket of epochs that holds a leap year is at least one day longer
/// than the same number of 365-day years.
pub proof fn lemma_leap_year_lengthens_bracket(start: int, end: int, leap: int)
    requires
        start <= leap < end,
        is_leap_year(leap),
    ensures
        secs_between(start, end) >= 31_536_000 * (end - start) + 86_400,
{
    lemma_secs_between_split(start, leap, end);
    lemma_secs_between_split(leap, leap + 1, end);
    lemma_secs_between_bounds(start, leap);
    lemma_secs_between_bounds(leap + 1, end);
    assert(secs_between(leap, leap + 1) == year_secs(leap)) by {
        assert(secs_between(leap, leap) == 0);
    }
}

/// A decimal date, as far as the selection of epochs reads it: the calendar
/// year it falls in, and whether it lies strictly after that year's start.
///
/// The date `2004.25` is `{ year: 2004, fractional: true }`, the date
/// `2005.0` is `{ year: 2005, fractional: false }`.
#[derive(Clone, Copy, Debug, PartialEq, Eq, Structural)]
pub struct DecimalDate {
    pub year: i16,
    pub fractional: bool,
}

impl DecimalDate {
    /// The date is the start of `year` or later.
    pub open spec fn at_or_after(self, year: int) -> bool {
        self.year >= year
    }

    /// The date is the start of `year` or earlier.
    pub open spec fn at_or_before(self, year: int) -> bool {
        self.year < year || (self.year == year && !self.fractional)
    }

    /// The same point of the year `years` calendar years later.
    pub open spec fn plus_years(self, years: int) -> DecimalDate
        recommends
            i16::MIN <= self.year + years <= i16::MAX,
    {
        DecimalDate { year: (self.year + years) as i16, fractional: self.fractional }
    }

    /// Whether the date is the start of `year` or later.
    pub fn is_at_or_after(&self, year: i16) -> (r: bool)
        ensures
            r == self.at_or_after(year as int),
    {
        self.year >= year
    }

    /// Whether the date is the start of `year` or earlier.
    pub fn is_at_or_before(&self, year: i16) -> (r: bool)
        ensures
            r == self.at_or_before(year as int),
    {
        self.year < year || (self.year == year && !self.fractional)
    }

    /// The same point of the following calendar year.
    pub fn next_year(&self) -> (next: DecimalDate)
        requires
            self.year < i16::MAX,
        ensures
            next == self.plus_years(1),
    {
        DecimalDate { year: self.year + 1, fractional: self.fractional }
    }
}

/// The mathematical value of a [`DateFactor`]: for a date whose fraction of
/// its year is `f`, the factor is `(whole + f * unit) / total`.
pub struct Factor {
    pub whole: int,
    pub unit: int,
    pub total: int,
}

impl Factor {
    /// The factor that is zero for every date.
    pub open spec fn zero() -> Factor {
        Factor { whole: 0, unit: 0, total: 1 }
    }

    /// Numerator of the factor for the fraction `num / den` of the date's
    /// year, over the denominator `total * den`.
    pub open spec fn numerator(self, num: int, den: int) -> int {
        self.whole * den + num * self.unit
    }
}

/// The date factor of a bracket of epochs, exact: for a date whose fraction
/// of its year is `f`, the factor is `(whole + f * unit) / total`.
///
/// Within a bracket the three numbers are seconds; past its end, where the
/// factor extrapolates linearly, they are years.
#[derive(Clone, Copy, Debug, PartialEq, Eq, Structural)]
pub struct DateFactor {
    pub whole: i64,
    pub unit: i64,
    pub total: i64,
}

impl View for DateFactor {
    type V = Factor;

    open spec fn view(&self) -> Factor {
        Factor { whole: self.whole as int, unit: self.unit as int, total: self.total as int }
    }
}

/// How far `date` has advanced from `start` towards `end`.
///
/// - A bracket with `end <= start` is degenerate and has the factor zero.
/// - Past `end` the factor extrapolates linearly in decimal years.
/// - From `start` through `end` it is the share of elapsed seconds, each
///   whole year counted with its true length.
/// - Before `start` it is zero.
pub open spec fn date_factor(start: int, end: int, date: DecimalDate) -> Factor {
    if end <= start {
        Factor::zero()
    } else if !date.at_or_before(end) {
        Factor { whole: date.year - start, unit: 1, total: end - start }
    } else if date.year < start {
        Factor::zero()
    } else {
        Factor {
            whole: secs_between(start, date.year as int),
            unit: year_secs(date.year as int),
            total: secs_between(start, end),
        }
    }
}

/// Computes the date factor of `date` in the bracket from `start_epoch` to
/// `end_epoch`.
pub fn find_date_factor(start_epoch: i16, end_epoch: i16, date: DecimalDate) -> (factor:
    DateFactor)
    ensures
        factor@ == date_factor(start_epoch as int, end_epoch as int, date),
        end_epoch <= start_epoch ==> factor@ == Factor::zero(),
        factor.total > 0,
{
    if end_epoch <= start_epoch {
        return DateFactor { whole: 0, unit: 0, total: 1 };
    }
    if !date.is_at_or_before(end_epoch) {
        return DateFactor {
            whole: date.year as i64 - start_epoch as i64,
            unit: 1,
            total: end_epoch as i64 - start_epoch as i64,
        };
    }
    if date.year < start_epoch {
        return DateFactor { whole: 0, unit: 0, total: 1 };
    }
    let mut total: i64 = 0;
    let mut whole: i64 = 0;
    let mut year: i16 = start_epoch;
    while year < end_epoch
        invariant
            start_epoch <= year <= end_epoch,
            start_epoch <= date.year <= end_epoch,
            total == secs_between(start_epoch as int, year as int),
            date.year < year ==> whole == secs_between(start_epoch as int, date.year as int),
        decreases end_epoch - year,
    {
        proof {
            lemma_secs_between_bounds(start_epoch as int, year as int);
        }
        if year == date.year {
            whole = total;
        }
        total = total + secs_in_year(year) as i64;
        year = year + 1;
    }
    if date.year == end_epoch {
        whole = total;
    }
    proof {
        lemma_secs_between_bounds(start_epoch as int, end_epoch as int);
    }
    DateFactor { whole, unit: secs_in_year(date.year) as i64, total }
}

/// In a degenerate bracket the factor is zero, whatever the date.
pub proof fn lemma_degenerate_bracket_has_zero_factor(year: int, date: DecimalDate)
    ensures
        date_factor(year, year, date) == Factor::zero(),
        forall|num: int, den: int| #[trigger]
            date_factor(year, year, date).numerator(num, den) == 0,
{
}

/// At the start of a bracket the factor is zero, and at its end it is one.
pub proof fn lemma_factor_at_bracket_ends(start: int, end: int, den: int)
    requires
        i16::MIN <= start < end <= i16::MAX,
    ensures
        date_factor(start, end, DecimalDate { year: start as i16, fractional: false }).numerator(
            0,
            den,
        ) == 0,
        date_factor(start, end, DecimalDate { year: end as i16, fractional: false }).numerator(
            0,
            den,
        ) == date_factor(start, end, DecimalDate { year: end as i16, fractional: false }).total
            * den,
{
    assert(secs_between(start, start) == 0);
}

/// Within a bracket the factor has no jump where one calendar year ends and
/// the next begins: the limit at the end of `year` is the value at the start
/// of `year + 1`. With `year + 1 == end` this is the limit one at the end of
/// the bracket.
pub proof fn lemma_factor_continuous_across_years(start: int, end: int, year: int, den: int)
    requires
        i16::MIN <= start <= year < end <= i16::MAX,
    ensures
        date_factor(start, end, DecimalDate { year: year as i16, fractional: true }).numerator(
            den,
            den,
        ) == date_factor(
            start,
            end,
            DecimalDate { year: (year + 1) as i16, fractional: false },
        ).numerator(0, den),
        date_factor(start, end, DecimalDate { year: year as i16, fractional: true }).total
            == date_factor(
            start,
            end,
            DecimalDate { year: (year + 1) as i16, fractional: false },
        ).total,
{
    let before = date_factor(start, end, DecimalDate { year: year as i16, fractional: true });
    assert(secs_between(start, year + 1) == secs_between(start, year) + year_secs(year));
    assert(before.whole * den + den * before.unit == (before.whole + before.unit) * den)
        by (nonlinear_arith);
}

/// Just past the end of a bracket the linear continuation starts at one,
/// the value that the factor has at the end.
pub proof fn lemma_factor_continuous_at_bracket_end(start: int, end: int, den: int)
    requires
        i16::MIN <= start < end <= i16::MAX,
    ensures
        date_factor(start, end, DecimalDate { year: end as i16, fractional: true }).numerator(
            0,
            den,
        ) == date_factor(start, end, DecimalDate { year: end as i16, fractional: true }).total
            * den,
{
}

/// For a date from the start through the end of a bracket the factor lies
/// between zero and one.
pub proof fn lemma_factor_within_bracket(
    start: int,
    end: int,
    date: DecimalDate,
    num: int,
    den: int,
)
    requires
        start < end,
        date.at_or_after(start),
        date.at_or_before(end),
        0 <= num < den,
        !date.fractional ==> num == 0,
    ensures
        date_factor(start, end, date).total > 0,
        0 <= date_factor(start, end, date).numerator(num, den) <= date_factor(
            start,
            end,
            date,
        ).total * den,
{
    let f = date_factor(start, end, date);
    let year = date.year as int;
    lemma_secs_between_bounds(start, year);
    lemma_secs_between_bounds(start, end);
    lemma_secs_between_split(start, year, end);
    if year < end {
        lemma_secs_between_split(year, year + 1, end);
        lemma_secs_between_bounds(year + 1, end);
        assert(secs_between(year, year + 1) == year_secs(year)) by {
            assert(secs_between(year, year) == 0);
        }
        assert(0 <= f.whole * den + num * f.unit <= f.total * den) by (nonlinear_arith)
            requires
                0 <= f.whole,
                0 <= f.unit,
                f.whole + f.unit <= f.total,
                0 <= num < den,
        ;
    } else {
        assert(secs_between(end, end) == 0);
        assert(0 <= f.whole * den + 0 * f.unit <= f.total * den) by (nonlinear_arith)
            requires
                0 <= f.whole == f.total,
                0 < den,
        ;
    }
}

} // verus!
