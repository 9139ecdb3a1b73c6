//! The index schedule of the spherical-harmonic synthesis.
//!
//! The synthesis walks the terms of degree `n = 1..=nmax` and order
//! `m = 0..=n` in rows. Each term has a position in the linear tables of
//! Legendre values, reads one or two Gauss coefficients, and is computed from
//! earlier terms by one of three recurrences. All of that is fixed by the
//! truncation degree alone and is laid out here, so that the numerical loop
//! only follows the schedule.

use vstd::prelude::*;

verus! {

/// Highest truncation degree that the synthesis supports.
pub const MAX_DEGREE: usize = 13;

/// Length that the linear tables of Legendre values need for
/// [`MAX_DEGREE`]: positions start at one.
pub const LEGENDRE_TABLE_LEN: usize = 105;

/// Number of Gauss coefficients of a model truncated at degree `nmax`.
pub open spec fn coeff_count(nmax: int) -> int {
    nmax * (nmax + 2)
}

/// Number of terms of degree 1 through `nmax`.
pub open spec fn term_count(nmax: int) -> int {
    nmax * (nmax + 3) / 2
}

/// Position of the term of degree `n` and order `m` in the linear tables.
/// Positions start at one and run through the rows of equal degree.
pub open spec fn term_position(n: int, m: int) -> int {
    n * (n + 1) / 2 + m
}

/// Index of the first Gauss coefficient of the term of degree `n` and order
/// `m`: its `g`. A term of order zero has no other; a term of higher order
/// has its `h` at the next index.
pub open spec fn coeff_position(n: int, m: int) -> int {
    n * n - 1 + if m == 0 {
        0
    } else {
        2 * m - 1
    }
}

/// Number of Gauss coefficients that a term of order `m` reads.
pub open spec fn coeff_width(m: int) -> int {
    if m == 0 {
        1
    } else {
        2
    }
}

/// How the Legendre value of a term and its derivative are obtained.
#[derive(Clone, Copy, Debug, PartialEq, Eq, Structural)]
pub enum Recurrence {
    /// One of the four terms of lowest position, given in closed form.
    Seed,
    /// A term with `m == n`, computed from the sectoral term of the degree
    /// below, at position `diagonal`.
    Sectoral { diagonal: usize },
    /// Any other term, computed from the terms of the same order one and two
    /// degrees below, at positions `above` and `above2`.
    General { above: usize, above2: usize },
}

/// One term of the synthesis.
#[derive(Clone, Copy, Debug, PartialEq, Eq, Structural)]
pub struct HarmonicTerm {
    /// Position in the linear tables of Legendre values.
    pub position: usize,
    /// Degree `n`.
    pub degree: usize,
    /// Order `m`.
    pub order: usize,
    /// Index of the term's first Gauss coefficient.
    pub coeff: usize,
    /// How the term's Legendre value is computed.
    pub recurrence: Recurrence,
}

/// The recurrence of the term of degree `n` and order `m`.
pub open spec fn recurrence_of(n: int, m: int) -> Recurrence {
    let k = term_position(n, m);
    if k < 5 {
        Recurrence::Seed
    } else if m == n {
        Recurrence::Sectoral { diagonal: (k - n - 1) as usize }
    } else {
        Recurrence::General { above: (k - n) as usize, above2: (k - 2 * n + 1) as usize }
    }
}

/// The term of degree `n` and order `m`.
pub open spec fn harmonic_term(n: int, m: int) -> HarmonicTerm {
    HarmonicTerm {
        position: term_position(n, m) as usize,
        degree: n as usize,
        order: m as usize,
        coeff: coeff_position(n, m) as usize,
        recurrence: recurrence_of(n, m),
    }
}

/// The terms of degree `n`, by rising order.
pub open spec fn degree_row(n: int) -> Seq<HarmonicTerm> {
    Seq::new((n + 1) as nat, |m: int| harmonic_term(n, m))
}

/// The terms of degree 1 through `nmax`, by rising degree and within a
/// degree by rising order.
pub open spec fn harmonic_schedule(nmax: int) -> Seq<HarmonicTerm>
    decreases nmax,
{
    if nmax <= 0 {
        Seq::empty()
    } else {
        harmonic_schedule(nmax - 1) + degree_row(nmax)
    }
}

/// Whether a synthesis can follow `terms` in their order: each term stands
/// at the position that follows its predecessor's, starting at one, and the
/// terms that its recurrence reads stand at earlier positions. A sectoral
/// recurrence has an order of two or more, so that the order below it is
/// one or more.
pub open spec fn reads_earlier_terms(terms: Seq<HarmonicTerm>) -> bool {
    forall|i: int|
        0 <= i < terms.len() ==> {
            let term = #[trigger] terms[i];
            &&& term.position == i + 1
            &&& match term.recurrence {
                Recurrence::Seed => term.position < 5,
                Recurrence::Sectoral { diagonal } => {
                    &&& 2 <= term.order == term.degree
                    &&& 1 <= diagonal < term.position
                },
                Recurrence::General { above, above2 } => {
                    &&& term.order < term.degree
                    &&& 1 <= above2 < above < term.position
                },
            }
        }
}

/// Whether every term of `terms` has its place in tables of
/// [`LEGENDRE_TABLE_LEN`] Legendre values, has an order and a degree of at
/// most [`MAX_DEGREE`], and reads its Gauss coefficients within the first
/// `len` entries of a coefficient vector.
pub open spec fn fits_tables(terms: Seq<HarmonicTerm>, len: int) -> bool {
    forall|i: int|
        0 <= i < terms.len() ==> {
            let term = #[trigger] terms[i];
            &&& 1 <= term.position < LEGENDRE_TABLE_LEN
            &&& term.order <= term.degree <= MAX_DEGREE
            &&& term.coeff + coeff_width(term.order as int) <= len
        }
}

/// The row of degree `n + 1` starts right where the row of degree `n` ends,
/// in the tables and among the coefficients.
pub proof fn lemma_next_row(n: int)
    requires
        0 <= n,
    ensures
        term_position(n + 1, 0) == term_position(n, n) + 1,
        coeff_position(n + 1, 0) == coeff_position(n, n) + coeff_width(n),
        term_count(n) == term_position(n, n),
        coeff_count(n) == coeff_position(n, n) + coeff_width(n),
        term_position(n, 0) >= n,
{
    assert((n + 1) * (n + 2) == n * (n + 1) + 2 * (n + 1)) by (nonlinear_arith);
    assert((n + 1) * (n + 1) == n * n + 2 * n + 1) by (nonlinear_arith);
    assert(n * (n + 3) == n * (n + 1) + 2 * n) by (nonlinear_arith);
    assert(n * (n + 2) == n * n + 2 * n) by (nonlinear_arith);
    assert(n * (n + 1) >= 2 * n || n == 0) by (nonlinear_arith)
        requires
            0 <= n,
    ;
}

/// Lays out the terms of a synthesis truncated at degree `nmax`.
pub fn harmonic_terms(nmax: usize) -> (terms: Vec<HarmonicTerm>)
    requires
        nmax <= MAX_DEGREE,
    ensures
        terms@ == harmonic_schedule(nmax as int),
        reads_earlier_terms(terms@),
        fits_tables(terms@, coeff_count(nmax as int)),
{
    let mut terms: Vec<HarmonicTerm> = Vec::new();
    let mut k: usize = 1;
    let mut l: usize = 0;
    let mut n: usize = 1;
    while n <= nmax
        invariant
            1 <= n <= nmax + 1,
            nmax <= MAX_DEGREE,
            terms@ == harmonic_schedule(n - 1),
            k == term_position(n as int, 0),
            l == coeff_position(n as int, 0),
        decreases nmax + 1 - n,
    {
        let mut m: usize = 0;
        while m <= n
            invariant
                0 <= m <= n + 1,
                1 <= n <= nmax <= MAX_DEGREE,
                terms@ == harmonic_schedule(n - 1) + degree_row(n as int).take(m as int),
                k == term_position(n as int, m as int),
                m <= n ==> l == coeff_position(n as int, m as int),
                m == n + 1 ==> l == coeff_position(n + 1, 0),
            decreases n + 1 - m,
        {
            proof {
                lemma_next_row(n as int);
                lemma_next_row(n - 1);
                assert(n * (n + 1) <= 13 * 14 && n * n <= 13 * 13) by (nonlinear_arith)
                    requires
                        1 <= n <= 13,
                ;
                assert(n >= 3 ==> n * (n + 1) >= 4 * n) by (nonlinear_arith)
                    requires
                        1 <= n,
                ;
            }
            let recurrence: Recurrence = if k < 5 {
                Recurrence::Seed
            } else if m == n {
                Recurrence::Sectoral { diagonal: k - n - 1 }
            } else {
                Recurrence::General { above: k - n, above2: k + 1 - 2 * n }
            };
            let term = HarmonicTerm { position: k, degree: n, order: m, coeff: l, recurrence };
            terms.push(term);
            assert(degree_row(n as int).take(m + 1) == degree_row(n as int).take(m as int).push(
                term,
            ));
            l = l + if m == 0 {
                1
            } else {
                2
            };
            k = k + 1;
            m = m + 1;
        }
        proof {
            lemma_next_row(n as int);
            assert(degree_row(n as int).take(n + 1) == degree_row(n as int));
        }
        n = n + 1;
    }
    proof {
        lemma_schedule_is_sound(nmax as int);
    }
    terms
}

/// The schedule lists every term of degree 1 through `nmax` once, the term
/// of degree `n` and order `m` at index `term_position(n, m) - 1`.
pub proof fn lemma_schedule_lists_each_term(nmax: int, n: int, m: int)
    requires
        1 <= n <= nmax,
        0 <= m <= n,
    ensures
        harmonic_schedule(nmax).len() == term_count(nmax),
        1 <= term_position(n, m) <= term_count(nmax),
        harmonic_schedule(nmax)[term_position(n, m) - 1] == harmonic_term(n, m),
    decreases nmax,
{
    lemma_schedule_len(nmax);
    lemma_schedule_len(nmax - 1);
    lemma_next_row(nmax);
    if n < nmax {
        lemma_schedule_lists_each_term(nmax - 1, n, m);
    } else {
        assert(degree_row(nmax)[m] == harmonic_term(n, m));
    }
}

/// The schedule of a synthesis truncated at degree `nmax` has
/// `term_count(nmax)` terms.
pub proof fn lemma_schedule_len(nmax: int)
    requires
        0 <= nmax,
    ensures
        harmonic_schedule(nmax).len() == term_count(nmax),
    decreases nmax,
{
    if nmax > 0 {
        lemma_schedule_len(nmax - 1);
        lemma_next_row(nmax);
        lemma_next_row(nmax - 1);
    } else {
        assert(0int * (0int + 3) / 2 == 0) by (nonlinear_arith);
    }
}

/// Every term of a supported synthesis has its place in the linear tables
/// of length [`LEGENDRE_TABLE_LEN`], and reads its Gauss coefficients from
/// the first `coeff_count(nmax)` of a coefficient vector.
pub proof fn lemma_term_within_tables(nmax: int, n: int, m: int)
    requires
        1 <= n <= nmax <= MAX_DEGREE,
        0 <= m <= n,
    ensures
        1 <= term_position(n, m) < LEGENDRE_TABLE_LEN,
        0 <= coeff_position(n, m),
        coeff_position(n, m) + coeff_width(m) <= coeff_count(nmax) <= 195,
{
    lemma_next_row(n);
    lemma_next_row(n - 1);
    assert(n * (n + 1) <= 13 * 14) by (nonlinear_arith)
        requires
            1 <= n <= 13,
    ;
    assert(1 <= n * n && n * n + 2 * n <= nmax * (nmax + 2) <= 195) by (nonlinear_arith)
        requires
            1 <= n <= nmax <= 13,
    ;
}

/// The Gauss coefficients of successive terms follow one another without a
/// gap: the first term reads from index zero, and each term's coefficients
/// end where those of the next term begin.
pub proof fn lemma_coefficients_are_consecutive(n: int, m: int)
    requires
        1 <= n,
        0 <= m <= n,
    ensures
        coeff_position(1, 0) == 0,
        m < n ==> coeff_position(n, m + 1) == coeff_position(n, m) + coeff_width(m),
        m == n ==> coeff_position(n + 1, 0) == coeff_position(n, m) + coeff_width(m),
{
    lemma_next_row(n);
    assert(1int * 1int == 1) by (nonlinear_arith);
}

/// A recurrence reads only terms that come earlier in the schedule: the
/// sectoral term of the degree below, or the terms of the same order in the
/// row above and, where the order exists there, two rows above.
pub proof fn lemma_recurrence_reads_earlier_terms(n: int, m: int)
    requires
        1 <= n <= MAX_DEGREE,
        0 <= m <= n,
    ensures
        match recurrence_of(n, m) {
            Recurrence::Seed => term_position(n, m) < 5,
            Recurrence::Sectoral { diagonal } => {
                &&& m == n && n >= 2
                &&& diagonal == term_position(n - 1, n - 1)
                &&& 1 <= diagonal < term_position(n, m)
            },
            Recurrence::General { above, above2 } => {
                &&& m < n && n >= 3
                &&& above == term_position(n - 1, m)
                &&& m <= n - 2 ==> above2 == term_position(n - 2, m)
                &&& m == n - 1 ==> above2 == term_position(n - 1, 0)
                &&& 1 <= above2 < above < term_position(n, m)
            },
        },
{
    lemma_next_row(n);
    lemma_next_row(n - 1);
    if n >= 2 {
        lemma_next_row(n - 2);
    }
    assert(n * (n + 1) <= 13 * 14) by (nonlinear_arith)
        requires
            1 <= n <= 13,
    ;
    assert(n * (n + 1) == (n - 1) * n + 2 * n) by (nonlinear_arith);
    assert((n - 1) * n == (n - 2) * (n - 1) + 2 * (n - 1)) by (nonlinear_arith);
    assert(n >= 3 ==> (n - 2) * (n - 1) >= 2) by (nonlinear_arith);
    assert(n <= 2 ==> n * (n + 1) <= 6) by (nonlinear_arith)
        requires
            1 <= n,
    ;
}

/// The schedule of a supported degree can be followed in its order, and
/// fits the tables of Legendre values and a coefficient vector of that
/// degree.
pub proof fn lemma_schedule_is_sound(nmax: int)
    requires
        0 <= nmax <= MAX_DEGREE,
    ensures
        reads_earlier_terms(harmonic_schedule(nmax)),
        fits_tables(harmonic_schedule(nmax), coeff_count(nmax)),
    decreases nmax,
{
    if nmax > 0 {
        assert((nmax - 1) * ((nmax - 1) + 2) <= nmax * (nmax + 2)) by (nonlinear_arith)
            requires
                1 <= nmax,
        ;
        lemma_schedule_is_sound(nmax - 1);
        lemma_schedule_len(nmax - 1);
        lemma_next_row(nmax - 1);
        let terms = harmonic_schedule(nmax);
        let before = harmonic_schedule(nmax - 1);
        assert forall|i: int| 0 <= i < terms.len() implies {
            let term = #[trigger] terms[i];
            &&& term.position == i + 1
            &&& match term.recurrence {
                Recurrence::Seed => term.position < 5,
                Recurrence::Sectoral { diagonal } => {
                    &&& 2 <= term.order == term.degree
                    &&& 1 <= diagonal < term.position
                },
                Recurrence::General { above, above2 } => {
                    &&& term.order < term.degree
                    &&& 1 <= above2 < above < term.position
                },
            }
            &&& 1 <= term.position < LEGENDRE_TABLE_LEN
            &&& term.order <= term.degree <= MAX_DEGREE
            &&& term.coeff + coeff_width(term.order as int) <= coeff_count(nmax)
        } by {
            if i < before.len() {
                assert(terms[i] == before[i]);
            } else {
                let m = i - before.len();
                assert(terms[i] == degree_row(nmax)[m]);
                lemma_term_within_tables(nmax, nmax, m);
                lemma_recurrence_reads_earlier_terms(nmax, m);
            }
        }
    }
}

} // verus!
