//! Binary numbers with verified arithmetic.

pub mod binary;
pub mod bounds;
pub mod constants;
pub mod convert;
pub mod integer_laws;
pub mod nearness_laws;
pub mod root;
pub mod laws;
pub mod rounding;
pub mod scalar;
pub mod wide;
pub mod wide_bounds;
pub mod wide_constants;
