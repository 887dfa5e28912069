//! Exact decimal/rational arithmetic and aggregation engine for
//! user-entered physiological measurements.
//!
//! Human-entered decimal strings are parsed losslessly into exact
//! fractions with 32-bit numerator and denominator, derived quantities
//! (BMI, unit conversions, HbA1c transforms) are computed with exact
//! rational arithmetic, and summary statistics (minimum, maximum, mean
//! and quasi-quantiles) are computed field by field over windows of
//! measurements.  Arithmetic that would leave the 32-bit range fails
//! explicitly instead of wrapping or losing precision.

pub mod aggregate;
pub mod arith;
pub mod codec;
pub mod datetime;
pub mod derived;
pub mod forms;
pub mod fraction;
pub mod laws;
pub mod model;
pub mod numerism;
pub mod stats;

