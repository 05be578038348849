//! The project document: what an edit consists of, and how it changes.

pub mod crop_laws;
pub mod cubic_arithmetic;
pub mod curve;
pub mod curve_laws;
pub mod history;
pub mod inside_laws;
pub mod laws;
pub mod list;
pub mod migrate;
pub mod migrate_laws;
pub mod operation;
pub mod parameter_laws;
pub mod project;
pub mod range_laws;
pub mod tangent_arithmetic;
pub mod turn_laws;
pub mod values;
