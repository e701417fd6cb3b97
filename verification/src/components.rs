//! The interactive parts of the canvas.

pub mod laws;
pub mod resizable_canvas;
