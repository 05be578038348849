//! An editing session: what the user's actions do to the document, and what
//! is asked of the image engine and of the storage.

pub mod aspect_laws;
pub mod choice_laws;
pub mod crop;
pub mod curve_laws;
pub mod curve_mode;
pub mod drag_laws;
pub mod edit;
pub mod gesture;
pub mod gesture_laws;
pub mod input;
pub mod input_laws;
pub mod laws;
pub mod lock_laws;
pub mod motion_laws;
pub mod navigation;
pub mod open;
pub mod output;
pub mod preview;
pub mod show_laws;
pub mod slider_laws;
pub mod state;
