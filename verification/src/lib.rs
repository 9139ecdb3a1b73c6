//! The discrete core of the IGRF geomagnetic field model.
//!
//! The model evaluates a truncated spherical-harmonic expansion whose Gauss
//! coefficients are tabulated per five-year epoch. Everything in that
//! evaluation that is decided over integers lives here and is verified:
//! the reading of a coefficient table into its lines, cells and column
//! labels, the table of epochs and its bracketing of a date, calendar
//! arithmetic for the date factor, the per-term rules that reconcile epochs
//! of different truncation degree, the index schedule of the Legendre
//! recurrence, and the choice of formula for the direction of a field
//! vector. The numerical evaluation itself works on top of these results.

pub mod igrf;
