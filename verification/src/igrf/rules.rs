//! The rules by which the terms of two epochs' coefficient vectors are
//! combined.
//!
//! Epochs are truncated at different degrees, so a term may exist in one
//! epoch of a bracket and not in the other. How a term is treated depends on
//! how the two degrees compare and on where its index lies between the
//! numbers of coefficients of the two degrees.

use vstd::prelude::*;
use crate::igrf::coeffs::INTERVAL;
use crate::igrf::harmonics::coeff_count;

verus! {

/// How the truncation degrees of the two epochs of a bracket compare.
#[derive(Clone, Copy, Debug, PartialEq, Eq, Structural)]
pub enum DegreeCase {
    /// Both epochs have the same degree.
    Equal,
    /// The end epoch has the higher degree.
    Rising,
    /// The start epoch has the higher degree.
    Falling,
}

/// How one term of the result is formed from the term `s` of the start
/// epoch, the term `e` of the end epoch and the factor `f` of the plan.
#[derive(Clone, Copy, Debug, PartialEq, Eq, Structural)]
pub enum TermRule {
    /// `s + f * (e - s)`.
    Blend,
    /// `s`.
    CarryStart,
    /// `f * e`.
    ScaleEnd,
    /// `s + f * ((e - s) / INTERVAL)`, with `f` in years.
    Advance,
}

impl TermRule {
    /// The exact value of the term, times `INTERVAL * den`, for the factor
    /// `num / den`.
    pub open spec fn scaled_value(self, s: int, e: int, num: int, den: int) -> int {
        match self {
            TermRule::Blend => INTERVAL * (s * den + num * (e - s)),
            TermRule::CarryStart => INTERVAL * (s * den),
            TermRule::ScaleEnd => INTERVAL * (num * e),
            TermRule::Advance => INTERVAL * (s * den) + num * (e - s),
        }
    }
}

/// The case that a bracket with these two degrees falls under.
pub open spec fn degree_case(start_nmax: int, end_nmax: int) -> DegreeCase {
    if start_nmax == end_nmax {
        DegreeCase::Equal
    } else if start_nmax < end_nmax {
        DegreeCase::Rising
    } else {
        DegreeCase::Falling
    }
}

/// The degree of a vector interpolated between two epochs: the higher of
/// theirs.
pub open spec fn output_degree(start_nmax: int, end_nmax: int) -> int {
    if start_nmax < end_nmax {
        end_nmax
    } else {
        start_nmax
    }
}

/// The rule of the term at `index` when interpolating between an epoch
/// truncated at `start_nmax` and one truncated at `end_nmax`.
///
/// - Equal degrees: the terms of that degree are blended, and what lies
///   past them is carried from the start epoch.
/// - Rising degree: the terms that only the end epoch has are scaled in
///   from zero; all others are blended.
/// - Falling degree: the terms that only the start epoch has are carried;
///   all others are blended.
pub open spec fn interpolation_rule(start_nmax: int, end_nmax: int, index: int) -> TermRule {
    let start_count = coeff_count(start_nmax);
    let end_count = coeff_count(end_nmax);
    match degree_case(start_nmax, end_nmax) {
        DegreeCase::Equal => if index < start_count {
            TermRule::Blend
        } else {
            TermRule::CarryStart
        },
        DegreeCase::Rising => if start_count <= index < end_count {
            TermRule::ScaleEnd
        } else {
            TermRule::Blend
        },
        DegreeCase::Falling => if end_count <= index < start_count {
            TermRule::CarryStart
        } else {
            TermRule::Blend
        },
    }
}

/// The rule of the term at `index` when extrapolating from an epoch
/// truncated at `start_nmax` along the change towards one truncated at
/// `end_nmax`: the terms that only the start epoch has are carried, all
/// others advance at the rate of that change.
pub open spec fn extrapolation_rule(start_nmax: int, end_nmax: int, index: int) -> TermRule {
    if coeff_count(end_nmax) <= index < coeff_count(start_nmax) {
        TermRule::CarryStart
    } else {
        TermRule::Advance
    }
}

/// Number of Gauss coefficients of a model truncated at degree `nmax`.
pub fn coeffs_of_degree(nmax: i16) -> (count: usize)
    requires
        0 <= nmax,
    ensures
        count == coeff_count(nmax as int),
{
    let n: u32 = nmax as u32;
    assert(n * (n + 2) <= 32767 * 32769) by (nonlinear_arith)
        requires
            0 <= n <= 32767,
    ;
    (n * (n + 2)) as usize
}

/// Classifies a bracket by the degrees of its two epochs.
pub fn compare_degrees(start_nmax: i16, end_nmax: i16) -> (case: DegreeCase)
    ensures
        case == degree_case(start_nmax as int, end_nmax as int),
{
    if start_nmax == end_nmax {
        DegreeCase::Equal
    } else if start_nmax < end_nmax {
        DegreeCase::Rising
    } else {
        DegreeCase::Falling
    }
}

/// The rule of each of the first `len` terms when interpolating between an
/// epoch truncated at `start_nmax` and one truncated at `end_nmax`.
pub fn interpolation_rules(start_nmax: i16, end_nmax: i16, len: usize) -> (rules: Vec<TermRule>)
    requires
        0 <= start_nmax,
        0 <= end_nmax,
    ensures
        rules@.len() == len,
        forall|i: int|
            0 <= i < len ==> #[trigger] rules@[i] == interpolation_rule(
                start_nmax as int,
                end_nmax as int,
                i,
            ),
{
    let start_count: usize = coeffs_of_degree(start_nmax);
    let end_count: usize = coeffs_of_degree(end_nmax);
    let case: DegreeCase = compare_degrees(start_nmax, end_nmax);
    let mut rules: Vec<TermRule> = Vec::new();
    let mut i: usize = 0;
    while i < len
        invariant
            0 <= i <= len,
            rules@.len() == i,
            start_count == coeff_count(start_nmax as int),
            end_count == coeff_count(end_nmax as int),
            case == degree_case(start_nmax as int, end_nmax as int),
            forall|j: int|
                0 <= j < i ==> #[trigger] rules@[j] == interpolation_rule(
                    start_nmax as int,
                    end_nmax as int,
                    j,
                ),
        decreases len - i,
    {
        let rule: TermRule = match case {
            DegreeCase::Equal => if i < start_count {
                TermRule::Blend
            } else {
                TermRule::CarryStart
            },
            DegreeCase::Rising => if start_count <= i && i < end_count {
                TermRule::ScaleEnd
            } else {
                TermRule::Blend
            },
            DegreeCase::Falling => if end_count <= i && i < start_count {
                TermRule::CarryStart
            } else {
                TermRule::Blend
            },
        };
        rules.push(rule);
        i = i + 1;
    }
    rules
}

/// The rule of each of the first `len` terms when extrapolating from an
/// epoch truncated at `start_nmax` along the change towards one truncated
/// at `end_nmax`.
pub fn extrapolation_rules(start_nmax: i16, end_nmax: i16, len: usize) -> (rules: Vec<TermRule>)
    requires
        0 <= end_nmax < start_nmax,
    ensures
        rules@.len() == len,
        forall|i: int|
            0 <= i < len ==> #[trigger] rules@[i] == extrapolation_rule(
                start_nmax as int,
                end_nmax as int,
                i,
            ),
{
    let k: usize = coeffs_of_degree(end_nmax);
    let l: usize = coeffs_of_degree(start_nmax);
    let mut rules: Vec<TermRule> = Vec::new();
    let mut i: usize = 0;
    while i < len
        invariant
            0 <= i <= len,
            rules@.len() == i,
            k == coeff_count(end_nmax as int),
            l == coeff_count(start_nmax as int),
            forall|j: int|
                0 <= j < i ==> #[trigger] rules@[j] == extrapolation_rule(
                    start_nmax as int,
                    end_nmax as int,
                    j,
                ),
        decreases len - i,
    {
        let rule: TermRule = if k <= i && i < l {
            TermRule::CarryStart
        } else {
            TermRule::Advance
        };
        rules.push(rule);
        i = i + 1;
    }
    rules
}

/// What each rule yields at the ends of its range. A blended term is the
/// start epoch's at factor zero and the end epoch's at factor one. A carried
/// term is the start epoch's throughout. A term scaled in is zero at factor
/// zero and the end epoch's at factor one. An advancing term is the start
/// epoch's after no time and the end epoch's after one [`INTERVAL`].
pub proof fn lemma_rules_meet_the_epochs(s: int, e: int, num: int, den: int)
    ensures
        TermRule::Blend.scaled_value(s, e, 0, den) == INTERVAL * (s * den),
        TermRule::Blend.scaled_value(s, e, den, den) == INTERVAL * (e * den),
        TermRule::CarryStart.scaled_value(s, e, num, den) == INTERVAL * (s * den),
        TermRule::ScaleEnd.scaled_value(s, e, 0, den) == 0,
        TermRule::ScaleEnd.scaled_value(s, e, den, den) == INTERVAL * (e * den),
        TermRule::Advance.scaled_value(s, e, 0, den) == INTERVAL * (s * den),
        TermRule::Advance.scaled_value(s, e, INTERVAL * den, den) == INTERVAL * (e * den),
{
    assert(s * den + den * (e - s) == e * den) by (nonlinear_arith);
    assert(5 * (s * den) + (5 * den) * (e - s) == 5 * (e * den)) by (nonlinear_arith);
    assert(den * e == e * den) by (nonlinear_arith);
}

} // verus!
