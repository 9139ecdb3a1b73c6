//! The table of coefficient epochs, the bracketing of a date by two of them,
//! and the selection of the two coefficient vectors of a query.
//!
//! The table records, for each epoch, its year and the degree at which its
//! coefficients are truncated; the coefficient values themselves are kept by
//! the caller, one vector of `rows` numbers per epoch. What this module
//! decides is which two epochs serve a date, with which date factor, and by
//! which rule each term of the two vectors enters the result.

use vstd::prelude::*;
use crate::igrf::date::{date_factor, find_date_factor, DateFactor, DecimalDate, Factor};
use crate::igrf::harmonics::coeff_count;
use crate::igrf::rules::{
    coeffs_of_degree,
    extrapolation_rule,
    extrapolation_rules,
    interpolation_rule,
    interpolation_rules,
    lemma_rules_meet_the_epochs,
    output_degree,
    TermRule,
};

verus! {

/// Years between two consecutive epochs.
pub const INTERVAL: i16 = 5;

/// First year of the dates that the model supports.
pub const FIRST_YEAR: i16 = 1900;

/// Last year of the dates that the model supports.
pub const LAST_YEAR: i16 = 2030;

/// Truncation degree of the tabulated epochs before the year 2000.
pub const EARLY_DEGREE: i16 = 10;

/// Truncation degree of the tabulated epochs from the year 2000 on.
pub const FULL_DEGREE: i16 = 13;

/// Truncation degree of the epoch that is advanced at the predicted rates
/// of change: the last epoch of a table.
pub const RATES_DEGREE: i16 = 8;

/// The truncation degree that the model assigns to the epoch of `year`,
/// which is either tabulated or, as the last epoch of a table, advanced
/// from its predecessor at the predicted rates of change (`from_rates`).
pub open spec fn epoch_degree(year: int, from_rates: bool) -> int {
    if from_rates {
        8
    } else if year < 2000 {
        10
    } else {
        13
    }
}

/// The truncation degree of the epoch of `year`: 8 for the epoch that is
/// advanced at the predicted rates; for a tabulated epoch 10 before 2000
/// and 13 from 2000 on.
pub fn degree_of_epoch(year: i16, from_rates: bool) -> (nmax: i16)
    ensures
        nmax == epoch_degree(year as int, from_rates),
        RATES_DEGREE <= nmax <= FULL_DEGREE,
{
    if from_rates {
        RATES_DEGREE
    } else if year < 2000 {
        EARLY_DEGREE
    } else {
        FULL_DEGREE
    }
}

/// One epoch of the table: its year and the degree at which its
/// coefficients are truncated.
#[derive(Clone, Copy, Debug, PartialEq, Eq, Structural)]
pub struct Epoch {
    pub year: i16,
    pub nmax: i16,
}

/// Why a table cannot be built.
#[derive(Clone, Copy, Debug, PartialEq, Eq, Structural)]
pub enum TableError {
    /// Fewer than two epochs: nothing to interpolate between.
    TooFewEpochs,
    /// Two consecutive epochs are not [`INTERVAL`] years apart.
    UnevenSpacing,
    /// An epoch has fewer coefficient rows than its degree needs.
    TooFewRows,
}

/// Whether the years are at least two and [`INTERVAL`] years apart each.
pub open spec fn evenly_spaced(years: Seq<i16>) -> bool {
    &&& years.len() >= 2
    &&& forall|i: int| 0 <= i < years.len() ==> #[trigger] years[i] == years[0] + INTERVAL * i
}

/// The epoch at `index` of a table with the given years: the last one is
/// advanced at the predicted rates, all others are tabulated.
pub open spec fn epoch_at(years: Seq<i16>, index: int) -> Epoch {
    Epoch {
        year: years[index],
        nmax: epoch_degree(years[index] as int, index == years.len() - 1) as i16,
    }
}

/// Whether `rows` coefficients per epoch are enough for every epoch's
/// degree.
pub open spec fn rows_suffice(years: Seq<i16>, rows: int) -> bool {
    forall|i: int| 0 <= i < years.len() ==> coeff_count(#[trigger] epoch_at(years, i).nmax as int)
        <= rows
}

/// The epochs of a table with the given years.
pub open spec fn epochs_of(years: Seq<i16>) -> Seq<Epoch> {
    Seq::new(years.len(), |i: int| epoch_at(years, i))
}

/// Whether a table of the given years and rows cannot be built, for the
/// reason `error`. The first reason that applies is the one reported.
pub open spec fn table_fails(years: Seq<i16>, rows: int, error: TableError) -> bool {
    match error {
        TableError::TooFewEpochs => years.len() < 2,
        TableError::UnevenSpacing => years.len() >= 2 && !evenly_spaced(years),
        TableError::TooFewRows => evenly_spaced(years) && !rows_suffice(years, rows),
    }
}

/// The factor of an extrapolation: the decimal years from `start` to
/// `date`.
pub open spec fn years_since(start: int, date: DecimalDate) -> Factor {
    Factor { whole: date.year - start, unit: 1, total: 1 }
}

/// How to form one coefficient vector from those of two epochs: the two
/// epochs, the factor, and the rule of each term.
#[derive(Clone, Debug, PartialEq, Eq)]
pub struct CoeffPlan {
    /// Year of the epoch whose vector is the start.
    pub start_epoch: i16,
    /// Year of the epoch whose vector is the end.
    pub end_epoch: i16,
    pub factor: DateFactor,
    pub rules: Vec<TermRule>,
}

/// The two coefficient vectors of a query and where they come from.
#[derive(Clone, Debug, PartialEq, Eq)]
pub struct Selection {
    /// Year of the epoch at the start of the bracket of the date.
    pub start_epoch: i16,
    /// Year of the epoch at the end of the bracket of the date.
    pub end_epoch: i16,
    /// Truncation degree at which both vectors are read.
    pub nmax: i16,
    /// The vector for the date itself.
    pub now: CoeffPlan,
    /// The vector for one year after the date.
    pub next: CoeffPlan,
}

/// Why a date has no selection.
#[derive(Clone, Copy, Debug, PartialEq, Eq, Structural)]
pub enum SelectError {
    /// The date is before [`FIRST_YEAR`] or outside the span of the table.
    DateOutOfRange,
    /// The date is after [`LAST_YEAR`], past which the model is not
    /// supported.
    DateBeyondSupport,
}

/// The table of epochs.
pub struct IGRFCoeffs {
    epochs: Vec<Epoch>,
    rows: usize,
}

/// The mathematical value of a table: its epochs by rising year, and the
/// number of coefficients that each epoch's vector holds.
pub struct Table {
    pub epochs: Seq<Epoch>,
    pub rows: nat,
}

impl View for IGRFCoeffs {
    type V = Table;

    closed spec fn view(&self) -> Table {
        Table { epochs: self.epochs@, rows: self.rows as nat }
    }
}

impl IGRFCoeffs {
    /// Number of coefficients that each epoch's vector holds.
    pub open spec fn row_count(&self) -> int {
        self@.rows as int
    }

    /// The years of the epochs, by rising year.
    pub open spec fn years(&self) -> Seq<i16> {
        Seq::new(self@.epochs.len(), |i: int| self@.epochs[i].year)
    }

    /// The invariant of a table: at least two epochs, [`INTERVAL`] years
    /// apart, each with the degree that the model assigns to it and with
    /// enough coefficient rows for that degree.
    pub open spec fn wf(&self) -> bool {
        &&& evenly_spaced(self.years())
        &&& rows_suffice(self.years(), self.row_count())
        &&& self@.epochs == epochs_of(self.years())
    }

    /// Number of epochs.
    pub fn len(&self) -> (n: usize)
        ensures
            n == self@.epochs.len(),
    {
        self.epochs.len()
    }

    /// Number of coefficients that each epoch's vector holds.
    pub fn rows(&self) -> (rows: usize)
        ensures
            rows == self.row_count(),
    {
        self.rows
    }

    /// The epoch at `index`, counted from the earliest.
    pub fn epoch(&self, index: usize) -> (epoch: Epoch)
        requires
            index < self@.epochs.len(),
        ensures
            epoch == self@.epochs[index as int],
    {
        self.epochs[index]
    }

    /// Whether the table holds an epoch of `year`.
    pub open spec fn has_epoch(&self, year: int) -> bool {
        exists|i: int| 0 <= i < self@.epochs.len() && #[trigger] self@.epochs[i].year == year
    }

    /// Year of the earliest epoch.
    pub open spec fn first_year(&self) -> int {
        self@.epochs[0].year as int
    }

    /// Year of the latest epoch.
    pub open spec fn last_year(&self) -> int {
        self@.epochs[self@.epochs.len() - 1].year as int
    }

    /// The degree of the epoch of `year` in this table.
    pub open spec fn degree(&self, year: int) -> int {
        epoch_degree(year, year == self.last_year())
    }

    /// Whether `date` lies within the span of the table, ends included.
    pub open spec fn covers(&self, date: DecimalDate) -> bool {
        date.at_or_after(self.first_year()) && date.at_or_before(self.last_year())
    }

    /// Whether `year` is the largest tabulated year that is not after
    /// `date`.
    pub open spec fn is_start_epoch(&self, date: DecimalDate, year: int) -> bool {
        &&& self.has_epoch(year)
        &&& date.at_or_after(year)
        &&& forall|i: int|
            0 <= i < self@.epochs.len() && date.at_or_after(#[trigger] self@.epochs[i].year as int)
                ==> self@.epochs[i].year <= year
    }

    /// Whether `year` is the smallest tabulated year that is not before
    /// `date`.
    pub open spec fn is_end_epoch(&self, date: DecimalDate, year: int) -> bool {
        &&& self.has_epoch(year)
        &&& date.at_or_before(year)
        &&& forall|i: int|
            0 <= i < self@.epochs.len() && date.at_or_before(#[trigger] self@.epochs[i].year as int)
                ==> year <= self@.epochs[i].year
    }

    /// In a well-formed table the years rise with the index.
    pub proof fn lemma_years_rise(&self, i: int, j: int)
        requires
            self.wf(),
            0 <= i <= j < self@.epochs.len(),
        ensures
            self@.epochs[j].year == self@.epochs[i].year + INTERVAL * (j - i),
            self@.epochs[i].year <= self@.epochs[j].year,
            self.first_year() <= self@.epochs[i].year <= self.last_year(),
            self@.epochs[i].year == self.last_year() <==> i == self@.epochs.len() - 1,
            self@.epochs[i].nmax == self.degree(self@.epochs[i].year as int),
            RATES_DEGREE <= self@.epochs[i].nmax <= FULL_DEGREE,
            coeff_count(self@.epochs[i].nmax as int) <= self.row_count(),
    {
        let years = self.years();
        let n = self@.epochs.len() as int;
        assert(years[i] == years[0] + INTERVAL * i);
        assert(years[j] == years[0] + INTERVAL * j);
        assert(years[n - 1] == years[0] + INTERVAL * (n - 1));
        assert(self@.epochs[i] == epochs_of(years)[i]);
        assert(coeff_count(epoch_at(years, i).nmax as int) <= self.row_count());
    }

    /// Year of the latest epoch.
    pub fn max_epoch(&self) -> (year: i16)
        requires
            self.wf(),
        ensures
            year == self.last_year(),
            self.has_epoch(year as int),
    {
        proof {
            assert(self.years()[0] == self.years()[0] + INTERVAL * 0);
        }
        self.epochs[self.epochs.len() - 1].year
    }

    /// Looks up the epoch of `year`.
    pub fn find(&self, year: i16) -> (epoch: Option<Epoch>)
        requires
            self.wf(),
        ensures
            match epoch {
                Some(e) => {
                    &&& self.has_epoch(year as int)
                    &&& e.year == year
                    &&& e.nmax == self.degree(year as int)
                },
                None => !self.has_epoch(year as int),
            },
    {
        let mut i: usize = 0;
        while i < self.epochs.len()
            invariant
                0 <= i <= self@.epochs.len(),
                self.wf(),
                forall|j: int| 0 <= j < i ==> #[trigger] self@.epochs[j].year != year,
            decreases self@.epochs.len() - i,
        {
            if self.epochs[i].year == year {
                proof {
                    self.lemma_years_rise(i as int, i as int);
                }
                return Some(self.epochs[i]);
            }
            i = i + 1;
        }
        None
    }

    /// Brackets `date` by two epochs of the table: the latest that is not
    /// after it and the earliest that is not before it. A date that falls on
    /// an epoch is bracketed by that epoch twice. A date outside the span of
    /// the table has no bracket.
    pub fn bracket(&self, date: DecimalDate) -> (r: Option<(i16, i16)>)
        requires
            self.wf(),
        ensures
            match r {
                Some((start, end)) => {
                    &&& self.covers(date)
                    &&& self.is_start_epoch(date, start as int)
                    &&& self.is_end_epoch(date, end as int)
                    &&& start <= end
                },
                None => !self.covers(date),
            },
    {
        let n: usize = self.epochs.len();
        let mut start: Option<i16> = None;
        let mut end: Option<i16> = None;
        let mut i: usize = 0;
        while i < n
            invariant
                0 <= i <= n == self@.epochs.len(),
                self.wf(),
                match start {
                    Some(year) => {
                        &&& date.at_or_after(year as int)
                        &&& exists|j: int| 0 <= j < i && #[trigger] self@.epochs[j].year == year
                        &&& forall|j: int|
                            0 <= j < i && date.at_or_after(#[trigger] self@.epochs[j].year as int)
                                ==> self@.epochs[j].year <= year
                    },
                    None => forall|j: int|
                        0 <= j < i ==> !date.at_or_after(#[trigger] self@.epochs[j].year as int),
                },
                match end {
                    Some(year) => {
                        &&& date.at_or_before(year as int)
                        &&& exists|j: int| 0 <= j < i && #[trigger] self@.epochs[j].year == year
                        &&& forall|j: int|
                            0 <= j < i && date.at_or_before(#[trigger] self@.epochs[j].year as int)
                                ==> year <= self@.epochs[j].year
                    },
                    None => forall|j: int|
                        0 <= j < i ==> !date.at_or_before(#[trigger] self@.epochs[j].year as int),
                },
            decreases n - i,
        {
            let year: i16 = self.epochs[i].year;
            proof {
                assert forall|j: int| 0 <= j < i implies #[trigger] self@.epochs[j].year <= year by {
                    self.lemma_years_rise(j, i as int);
                }
            }
            if date.is_at_or_after(year) {
                start = Some(year);
            }
            if end.is_none() && date.is_at_or_before(year) {
                end = Some(year);
            }
            i = i + 1;
        }
        proof {
            self.lemma_years_rise(0, n - 1);
            assert forall|j: int| 0 <= j < n implies self.first_year() <= #[trigger] self@.epochs[j].year
                <= self.last_year() by {
                self.lemma_years_rise(j, j);
            }
        }
        match (start, end) {
            (Some(s), Some(e)) => Some((s, e)),
            _ => None,
        }
    }

    /// A date has at most one start epoch and at most one end epoch.
    pub proof fn lemma_bracket_is_unique(&self, date: DecimalDate, a: int, b: int)
        ensures
            self.is_start_epoch(date, a) && self.is_start_epoch(date, b) ==> a == b,
            self.is_end_epoch(date, a) && self.is_end_epoch(date, b) ==> a == b,
    {
    }

    /// Whether `plan` interpolates between the epochs of `start` and `end`
    /// for `date`: its factor is the date factor, and each of its rules is
    /// the interpolation rule of its index.
    pub open spec fn interpolates(
        &self,
        start: int,
        end: int,
        date: DecimalDate,
        plan: CoeffPlan,
    ) -> bool {
        &&& plan.start_epoch == start
        &&& plan.end_epoch == end
        &&& plan.factor@ == date_factor(start, end, date)
        &&& plan.rules@.len() == self.row_count()
        &&& forall|i: int|
            0 <= i < plan.rules@.len() ==> #[trigger] plan.rules@[i] == interpolation_rule(
                self.degree(start),
                self.degree(end),
                i,
            )
    }

    /// Whether `plan` extrapolates from the epoch of `start` along the change
    /// towards the epoch of `end` to `date`: its factor is the years since
    /// `start`, and each of its rules is the extrapolation rule of its
    /// index.
    pub open spec fn extrapolates(
        &self,
        start: int,
        end: int,
        date: DecimalDate,
        plan: CoeffPlan,
    ) -> bool {
        &&& plan.start_epoch == start
        &&& plan.end_epoch == end
        &&& plan.factor@ == years_since(start, date)
        &&& plan.rules@.len() == self.row_count()
        &&& forall|i: int|
            0 <= i < plan.rules@.len() ==> #[trigger] plan.rules@[i] == extrapolation_rule(
                self.degree(start),
                self.degree(end),
                i,
            )
    }

    /// Whether the vector for one year after `date` is interpolated: that
    /// later date is still at least one year before the latest epoch.
    pub open spec fn next_is_interpolated(&self, date: DecimalDate) -> bool {
        date.plus_years(1).at_or_before(self.last_year() - 1)
    }

    /// Whether `date` is one that the model supports and the table spans.
    pub open spec fn in_range(&self, date: DecimalDate) -> bool {
        &&& date.at_or_after(FIRST_YEAR as int)
        &&& date.at_or_before(LAST_YEAR as int)
        &&& self.covers(date)
    }

    /// Whether `date` has no selection, for the reason `error`.
    pub open spec fn rejects(&self, date: DecimalDate, error: SelectError) -> bool {
        match error {
            SelectError::DateBeyondSupport => !date.at_or_before(LAST_YEAR as int),
            SelectError::DateOutOfRange => date.at_or_before(LAST_YEAR as int) && !self.in_range(
                date,
            ),
        }
    }

    /// Whether `sel` is the selection for `date`.
    ///
    /// The date is bracketed by the latest epoch not after it and the
    /// earliest epoch not before it. The vector for the date is
    /// interpolated between the two. The vector for a year later is
    /// interpolated between the same two while that later date is still at
    /// least one year before the last epoch; from then on it is
    /// extrapolated over the last step of the table, from the epoch before
    /// the last along the change towards the last. Both vectors are read at
    /// the higher degree of the bracket, which their length suffices for.
    pub open spec fn selects(&self, date: DecimalDate, sel: Selection) -> bool {
        let start = sel.start_epoch as int;
        let end = sel.end_epoch as int;
        &&& self.is_start_epoch(date, start)
        &&& self.is_end_epoch(date, end)
        &&& sel.nmax == output_degree(self.degree(start), self.degree(end))
        &&& RATES_DEGREE <= sel.nmax <= FULL_DEGREE
        &&& coeff_count(sel.nmax as int) <= self.row_count()
        &&& self.interpolates(start, end, date, sel.now)
        &&& if self.next_is_interpolated(date) {
            self.interpolates(start, end, date.plus_years(1), sel.next)
        } else {
            self.extrapolates(
                self.last_year() - INTERVAL,
                self.last_year(),
                date.plus_years(1),
                sel.next,
            )
        }
    }

    /// Plans the coefficient vector that advances the epoch of `start_epoch`
    /// to `date` at the rate of change towards the epoch of `end_epoch`.
    /// The start epoch must have the higher degree.
    pub fn extrapolate_coeffs(&self, start_epoch: i16, end_epoch: i16, date: DecimalDate) -> (plan:
        CoeffPlan)
        requires
            self.wf(),
            self.has_epoch(start_epoch as int),
            self.has_epoch(end_epoch as int),
            self.degree(start_epoch as int) > self.degree(end_epoch as int),
        ensures
            self.extrapolates(start_epoch as int, end_epoch as int, date, plan),
    {
        let start: Epoch = self.find(start_epoch).unwrap();
        let end: Epoch = self.find(end_epoch).unwrap();
        let rules: Vec<TermRule> = extrapolation_rules(start.nmax, end.nmax, self.rows);
        let factor = DateFactor {
            whole: date.year as i64 - start_epoch as i64,
            unit: 1,
            total: 1,
        };
        CoeffPlan { start_epoch, end_epoch, factor, rules }
    }

    /// Plans the coefficient vector that lies between the epochs of
    /// `start_epoch` and `end_epoch` at `date`, and gives its degree.
    pub fn interpolate_coeffs(&self, start_epoch: i16, end_epoch: i16, date: DecimalDate) -> (r: (
        CoeffPlan,
        i16,
    ))
        requires
            self.wf(),
            self.has_epoch(start_epoch as int),
            self.has_epoch(end_epoch as int),
        ensures
            self.interpolates(start_epoch as int, end_epoch as int, date, r.0),
            r.1 == output_degree(self.degree(start_epoch as int), self.degree(end_epoch as int)),
    {
        let factor: DateFactor = find_date_factor(start_epoch, end_epoch, date);
        let start: Epoch = self.find(start_epoch).unwrap();
        let end: Epoch = self.find(end_epoch).unwrap();
        let rules: Vec<TermRule> = interpolation_rules(start.nmax, end.nmax, self.rows);
        let nmax: i16 = if start.nmax < end.nmax {
            end.nmax
        } else {
            start.nmax
        };
        (CoeffPlan { start_epoch, end_epoch, factor, rules }, nmax)
    }

    /// Selects the epochs for `date` and plans the two coefficient vectors
    /// of a query: the one for `date` and the one for a year later.
    ///
    /// Every date from [`FIRST_YEAR`] through [`LAST_YEAR`] that the table
    /// spans has a selection; what it is, [`Self::selects`] says.
    pub fn coeffs(&self, date: DecimalDate) -> (r: Result<Selection, SelectError>)
        requires
            self.wf(),
        ensures
            r is Ok <==> self.in_range(date),
            match r {
                Ok(sel) => self.selects(date, sel),
                Err(error) => self.rejects(date, error),
            },
    {
        if !date.is_at_or_before(LAST_YEAR) {
            return Err(SelectError::DateBeyondSupport);
        }
        if !date.is_at_or_after(FIRST_YEAR) {
            return Err(SelectError::DateOutOfRange);
        }
        let (start, end): (i16, i16) = match self.bracket(date) {
            Some(pair) => pair,
            None => {
                return Err(SelectError::DateOutOfRange);
            },
        };
        let max_epoch: i16 = self.max_epoch();
        let (now, nmax): (CoeffPlan, i16) = self.interpolate_coeffs(start, end, date);
        let later: DecimalDate = date.next_year();
        proof {
            let i = choose|i: int|
                0 <= i < self@.epochs.len() && #[trigger] self@.epochs[i].year == start;
            let j = choose|j: int|
                0 <= j < self@.epochs.len() && #[trigger] self@.epochs[j].year == end;
            self.lemma_years_rise(i, i);
            self.lemma_years_rise(j, j);
        }
        let next: CoeffPlan = if later.is_at_or_before(max_epoch - 1) {
            self.interpolate_coeffs(start, end, later).0
        } else {
            let (before_last, last): (i16, i16) = self.synthesized_epoch();
            self.extrapolate_coeffs(before_last, last, later)
        };
        Ok(Selection { start_epoch: start, end_epoch: end, nmax, now, next })
    }

    /// The two epochs of the table's last step: the latest epoch, whose
    /// coefficients are not tabulated but advanced over one [`INTERVAL`] at
    /// the predicted rates, and the epoch before it, from which they are
    /// advanced.
    pub fn synthesized_epoch(&self) -> (r: (i16, i16))
        requires
            self.wf(),
        ensures
            r.1 == self.last_year(),
            r.0 == self.last_year() - INTERVAL,
            self.has_epoch(r.0 as int),
            self.has_epoch(r.1 as int),
            self.degree(r.0 as int) > self.degree(r.1 as int),
    {
        let n: usize = self.epochs.len();
        proof {
            self.lemma_years_rise(n - 2, n - 1);
        }
        (self.epochs[n - 2].year, self.epochs[n - 1].year)
    }

    /// The selection for a date is determined by the table and the date:
    /// two selections for the same date agree in every part.
    pub proof fn lemma_selection_is_determined(&self, date: DecimalDate, a: Selection, b: Selection)
        requires
            self.selects(date, a),
            self.selects(date, b),
        ensures
            a.start_epoch == b.start_epoch,
            a.end_epoch == b.end_epoch,
            a.nmax == b.nmax,
            a.now.start_epoch == b.now.start_epoch,
            a.now.end_epoch == b.now.end_epoch,
            a.now.factor == b.now.factor,
            a.now.rules@ == b.now.rules@,
            a.next.start_epoch == b.next.start_epoch,
            a.next.end_epoch == b.next.end_epoch,
            a.next.factor == b.next.factor,
            a.next.rules@ == b.next.rules@,
    {
        self.lemma_bracket_is_unique(date, a.start_epoch as int, b.start_epoch as int);
        self.lemma_bracket_is_unique(date, a.end_epoch as int, b.end_epoch as int);
        assert(a.now.rules@ =~= b.now.rules@);
        assert(a.next.rules@ =~= b.next.rules@);
    }
}

/// Interpolation is continuous at the epochs of its bracket. At the start
/// epoch a term that is blended or carried has the start epoch's value.
/// Towards the end epoch, as the last year of the bracket runs out, a term
/// that is blended or scaled in tends to the end epoch's value, which is
/// also what it has at the end epoch itself.
pub proof fn lemma_interpolation_meets_the_epochs(
    start: int,
    end: int,
    rule: TermRule,
    s: int,
    e: int,
    den: int,
)
    requires
        i16::MIN <= start < end <= i16::MAX,
    ensures
        rule == TermRule::Blend || rule == TermRule::CarryStart ==> ({
            let at_start = date_factor(
                start,
                end,
                DecimalDate { year: start as i16, fractional: false },
            );
            rule.scaled_value(s, e, at_start.numerator(0, den), at_start.total * den) == INTERVAL
                * (s * (at_start.total * den))
        }),
        rule == TermRule::Blend || rule == TermRule::ScaleEnd ==> ({
            let near_end = date_factor(
                start,
                end,
                DecimalDate { year: (end - 1) as i16, fractional: true },
            );
            rule.scaled_value(s, e, near_end.numerator(den, den), near_end.total * den)
                == INTERVAL * (e * (near_end.total * den))
        }),
        rule == TermRule::Blend || rule == TermRule::ScaleEnd ==> ({
            let at_end = date_factor(
                start,
                end,
                DecimalDate { year: end as i16, fractional: false },
            );
            rule.scaled_value(s, e, at_end.numerator(0, den), at_end.total * den) == INTERVAL
                * (e * (at_end.total * den))
        }),
{
    crate::igrf::date::lemma_factor_at_bracket_ends(start, end, den);
    crate::igrf::date::lemma_factor_continuous_across_years(start, end, end - 1, den);
    let at_start = date_factor(start, end, DecimalDate { year: start as i16, fractional: false });
    let at_end = date_factor(start, end, DecimalDate { year: end as i16, fractional: false });
    lemma_rules_meet_the_epochs(s, e, 0, at_start.total * den);
    lemma_rules_meet_the_epochs(s, e, 0, at_end.total * den);
}

/// Builds the table for the epochs of the given years, each with `rows`
/// coefficients.
///
/// The years are those of the epochs by rising year, the last one being the
/// epoch that is advanced from its predecessor at the predicted rates. Each
/// epoch gets the degree that the model assigns to it.
pub fn igrf_data(years: &Vec<i16>, rows: usize) -> (table: Result<IGRFCoeffs, TableError>)
    ensures
        match table {
            Ok(t) => {
                &&& evenly_spaced(years@)
                &&& rows_suffice(years@, rows as int)
                &&& t.wf()
                &&& t.years() == years@
                &&& t.row_count() == rows
            },
            Err(error) => table_fails(years@, rows as int, error),
        },
{
    let n: usize = years.len();
    if n < 2 {
        return Err(TableError::TooFewEpochs);
    }
    let first: i16 = years[0];
    let mut i: usize = 1;
    while i < n
        invariant
            1 <= i <= n == years@.len(),
            first == years@[0],
            forall|j: int| 0 <= j < i ==> #[trigger] years@[j] == first + INTERVAL * j,
        decreases n - i,
    {
        if years[i] as i32 != years[i - 1] as i32 + INTERVAL as i32 {
            assert(years@[i as int] != first + INTERVAL * i);
            return Err(TableError::UnevenSpacing);
        }
        i = i + 1;
    }
    let mut epochs: Vec<Epoch> = Vec::new();
    let mut i: usize = 0;
    while i < n
        invariant
            0 <= i <= n == years@.len(),
            evenly_spaced(years@),
            epochs@.len() == i,
            forall|j: int| 0 <= j < i ==> #[trigger] epochs@[j] == epoch_at(years@, j),
            forall|j: int|
                0 <= j < i ==> coeff_count(#[trigger] epoch_at(years@, j).nmax as int) <= rows,
        decreases n - i,
    {
        let year: i16 = years[i];
        let nmax: i16 = degree_of_epoch(year, i == n - 1);
        assert(nmax == epoch_at(years@, i as int).nmax);
        if coeffs_of_degree(nmax) > rows {
            return Err(TableError::TooFewRows);
        }
        epochs.push(Epoch { year, nmax });
        i = i + 1;
    }
    let table = IGRFCoeffs { epochs, rows };
    proof {
        assert(table.years() =~= years@);
        assert(table@.epochs =~= epochs_of(table.years()));
    }
    Ok(table)
}

} // verus!
