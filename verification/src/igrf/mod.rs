//! The IGRF model: its epoch table and the plan of a field evaluation.

pub mod coeffs;
pub mod date;
pub mod direction;
pub mod harmonics;
pub mod header;
pub mod reader;
pub mod rules;
pub mod text;

use vstd::prelude::*;
use crate::igrf::coeffs::{igrf_data, IGRFCoeffs, SelectError, Selection, TableError, INTERVAL};
use crate::igrf::date::DecimalDate;
use crate::igrf::harmonics::{
    coeff_count,
    fits_tables,
    harmonic_schedule,
    harmonic_terms,
    reads_earlier_terms,
    HarmonicTerm,
};

verus! {

/// Number of epochs of the standard table: 1900 through 2030.
pub const STANDARD_EPOCHS: usize = 27;

/// Number of coefficients per epoch of the standard table: those of
/// degree 13.
pub const STANDARD_ROWS: usize = 195;

/// The years of the standard table: every fifth year from 1900 through
/// 2030.
pub open spec fn standard_years() -> Seq<i16> {
    Seq::new(27, |i: int| (1900 + INTERVAL * i) as i16)
}

/// Everything that an evaluation of the field at one date follows: which
/// epochs enter, how their coefficients combine into the vector for the
/// date and the vector for a year later, and the schedule of the synthesis.
#[derive(Clone, Debug, PartialEq, Eq)]
pub struct FieldPlan {
    pub selection: Selection,
    pub terms: Vec<HarmonicTerm>,
}

/// The model: the table of epochs that it was built from.
pub struct IGRF {
    coeffs: IGRFCoeffs,
}

impl IGRF {
    /// The table of epochs.
    pub closed spec fn table(&self) -> IGRFCoeffs {
        self.coeffs
    }

    /// The invariant of a model: its table is well formed.
    pub open spec fn wf(&self) -> bool {
        self.table().wf()
    }

    /// Builds the model for the epochs of the given years, each with `rows`
    /// coefficients.
    pub fn new(years: &Vec<i16>, rows: usize) -> (model: Result<IGRF, TableError>)
        ensures
            match model {
                Ok(m) => {
                    &&& m.wf()
                    &&& m.table().years() == years@
                    &&& m.table().row_count() == rows
                    &&& coeffs::evenly_spaced(years@)
                    &&& coeffs::rows_suffice(years@, rows as int)
                },
                Err(error) => coeffs::table_fails(years@, rows as int, error),
            },
    {
        match igrf_data(years, rows) {
            Ok(coeffs) => Ok(IGRF { coeffs }),
            Err(e) => Err(e),
        }
    }

    /// The table of epochs.
    pub fn coeffs(&self) -> (table: &IGRFCoeffs)
        ensures
            *table == self.table(),
    {
        &self.coeffs
    }

    /// Plans the evaluation of the field at `date`: selects the epochs and
    /// lays out the synthesis at the degree of the selection.
    ///
    /// The plan is owed for every date from 1900 through 2030 that the table
    /// spans. The coefficient vectors that the plan describes are long
    /// enough for every term of the synthesis.
    pub fn plan(&self, date: DecimalDate) -> (r: Result<FieldPlan, SelectError>)
        requires
            self.wf(),
        ensures
            r is Ok <==> self.table().in_range(date),
            match r {
                Ok(plan) => {
                    &&& self.table().selects(date, plan.selection)
                    &&& plan.terms@ == harmonic_schedule(plan.selection.nmax as int)
                    &&& reads_earlier_terms(plan.terms@)
                    &&& fits_tables(plan.terms@, plan.selection.now.rules@.len() as int)
                    &&& fits_tables(plan.terms@, plan.selection.next.rules@.len() as int)
                },
                Err(error) => self.table().rejects(date, error),
            },
    {
        let selection: Selection = match self.coeffs.coeffs(date) {
            Ok(selection) => selection,
            Err(e) => {
                return Err(e);
            },
        };
        let terms: Vec<HarmonicTerm> = harmonic_terms(selection.nmax as usize);
        Ok(FieldPlan { selection, terms })
    }

    /// A model of the standard years has a plan for every date from 1900
    /// through 2030, both ends included, and for no other.
    pub proof fn lemma_standard_years_span_the_supported_dates(&self, date: DecimalDate)
        requires
            self.wf(),
            self.table().years() == standard_years(),
        ensures
            self.table().in_range(date) <==> date.at_or_after(coeffs::FIRST_YEAR as int)
                && date.at_or_before(coeffs::LAST_YEAR as int),
    {
        let table = self.table();
        assert(table.years()[0] == 1900);
        assert(table.years()[26] == 2030);
        assert(table@.epochs[0].year == table.years()[0]);
        assert(table@.epochs[26].year == table.years()[26]);
    }
}

impl Default for IGRF {
    /// The model of the standard table: an epoch every fifth year from 1900
    /// through 2030, with the 195 coefficients of degree 13 each.
    fn default() -> (model: IGRF)
        ensures
            model.wf(),
            model.table().years() == standard_years(),
            model.table().row_count() == STANDARD_ROWS,
    {
        let mut years: Vec<i16> = Vec::new();
        let mut year: i16 = coeffs::FIRST_YEAR;
        while years.len() < STANDARD_EPOCHS
            invariant
                years@.len() <= STANDARD_EPOCHS,
                year == 1900 + INTERVAL * years@.len(),
                forall|j: int| 0 <= j < years@.len() ==> #[trigger] years@[j] == 1900 + INTERVAL * j,
            decreases STANDARD_EPOCHS - years@.len(),
        {
            years.push(year);
            year = year + INTERVAL;
        }
        proof {
            assert(years@ =~= standard_years());
            assert(coeffs::evenly_spaced(years@));
            assert(coeff_count(10) == 120 && coeff_count(13) == 195 && coeff_count(8) == 80) by {
                assert(10int * 12 == 120 && 13int * 15 == 195 && 8int * 10 == 80)
                    by (nonlinear_arith);
            }
            assert(coeffs::rows_suffice(years@, STANDARD_ROWS as int));
        }
        IGRF::new(&years, STANDARD_ROWS).unwrap()
    }
}

} // verus!
