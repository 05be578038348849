//! Project files: where they lie, what is written and what is read.

pub mod fingerprint;
pub mod laws;
pub mod paths;

pub mod project_file;
pub mod sample_laws;
