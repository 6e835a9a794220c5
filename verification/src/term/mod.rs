//! The character grid that views are drawn on.

pub mod attrs;
pub mod frame;
pub mod grid;
pub mod key;
pub mod mouse;
pub mod rect;
pub mod screen;
pub mod text_laws;
pub mod width;
