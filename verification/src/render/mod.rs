//! What is rendered: requests, the order of the stages, geometry, and what of
//! earlier work can be used again.

pub mod adaptation_laws;
pub mod axis_laws;
pub mod bands;
pub mod cache;
pub mod contracts;
pub mod crop_laws;
pub mod export;
pub mod extent_laws;
pub mod form_arithmetic;
pub mod geometry;
pub mod interval_arithmetic;
pub mod locus_laws;
pub mod neutral_laws;
pub mod plan;
pub mod rectangle_arithmetic;
pub mod rectangle_laws;
pub mod slope_arithmetic;
pub mod stage_laws;
pub mod straighten_laws;
pub mod table_laws;
pub mod tone_laws;
pub mod tones;
pub mod view;
pub mod view_laws;
pub mod white_balance;
