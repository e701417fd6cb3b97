//! Geometry engine of a resizable, flippable group of polygons on a canvas.
//!
//! A selection rectangle with eight handles surrounds the shapes. Dragging a
//! handle moves the edges that the handle touches and keeps the others where
//! they are; dragging an edge across the opposite one mirrors the group. The
//! scale that the rectangle has gathered can be written into the corners of
//! the shapes, and taken out of them again.
//!
//! Every length and coordinate is a fixed-point number: an `i64` that counts
//! hundredths of a canvas unit. Coordinates of points lie in the coordinate
//! space from `-COORD_MAX` to `COORD_MAX`; an operation whose result would
//! leave it gives nothing and changes nothing. Scale factors are exact
//! fractions, and a scaled coordinate is rounded to the nearest hundredth.
//!
//! - [`types`]: the plain data.
//! - [`decimal`]: numerals of fixed-point numbers.
//! - [`points_text`]: what the text of a corner list denotes.
//! - [`utils`]: reading and writing corner lists, transforms, bounding boxes.
//! - [`config`]: the resize rule of the handles.
//! - [`constants`]: default geometry and handle presentation.
//! - [`components`]: the interaction state machine and what it preserves.

pub mod components;
pub mod config;
pub mod constants;
pub mod decimal;
pub mod points_text;
pub mod types;
pub mod utils;
