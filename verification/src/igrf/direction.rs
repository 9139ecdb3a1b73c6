//! Which formulas give the direction of a field vector.
//!
//! Declination and inclination are angles of the field vector. Where the
//! vector is too weak to have a direction they are undefined, and where it
//! points due south the general formula of the declination does not apply.
//! The caller measures the vector against its threshold; which formula
//! follows from the outcome is decided here.

use vstd::prelude::*;

verus! {

/// How the declination of a field vector is obtained.
#[derive(Clone, Copy, Debug, PartialEq, Eq, Structural)]
pub enum Declination {
    /// The vector has no horizontal direction: not a number.
    Undefined,
    /// The vector points due south: half a turn.
    DueSouth,
    /// Twice the angle of `east` against `horizontal + north`.
    HalfAngle,
}

/// How the two angles of a field vector are obtained.
#[derive(Clone, Copy, Debug, PartialEq, Eq, Structural)]
pub struct Direction {
    pub declination: Declination,
    /// Whether the inclination is the angle of `down` against `horizontal`;
    /// otherwise it is not a number.
    pub inclination_defined: bool,
}

/// The formulas for a vector of which it is known whether its total
/// intensity is below the threshold (`weak_total`), whether its horizontal
/// intensity is (`weak_horizontal`), and whether the sum of its horizontal
/// intensity and its north component is (`southward`).
pub open spec fn direction_of(weak_total: bool, weak_horizontal: bool, southward: bool)
    -> Direction {
    Direction {
        declination: if weak_total || weak_horizontal {
            Declination::Undefined
        } else if southward {
            Declination::DueSouth
        } else {
            Declination::HalfAngle
        },
        inclination_defined: !weak_total,
    }
}

/// Decides the formulas for the direction of a field vector from the three
/// tests of the vector against the threshold.
pub fn direction_case(weak_total: bool, weak_horizontal: bool, southward: bool) -> (direction:
    Direction)
    ensures
        direction == direction_of(weak_total, weak_horizontal, southward),
{
    let declination: Declination = if weak_total || weak_horizontal {
        Declination::Undefined
    } else if southward {
        Declination::DueSouth
    } else {
        Declination::HalfAngle
    };
    Direction { declination, inclination_defined: !weak_total }
}

/// A vector whose total intensity is below the threshold has neither a
/// declination nor an inclination, whatever its components.
pub proof fn lemma_weak_field_has_no_direction(weak_horizontal: bool, southward: bool)
    ensures
        direction_of(true, weak_horizontal, southward).declination == Declination::Undefined,
        !direction_of(true, weak_horizontal, southward).inclination_defined,
{
}

} // verus!
