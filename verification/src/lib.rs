//! Document model, editing rules and render planning of the Focusless photo
//! editor.

pub mod document;
pub mod number;
pub mod render;
pub mod session;
pub mod storage;
pub mod text;
