//! Pixel sorting: reorder the pixels of an image along scan lines, by a key
//! computed from each pixel, inside runs of pixels that a selection admits.

pub mod buffer;
pub mod engine;
pub mod heuristic;
pub mod pass;
pub mod path;
pub mod pixel;
pub mod shape;

pub use buffer::{PixelBuffer, Raster};
pub use engine::SortOptions;
pub use heuristic::Heuristic;
pub use pass::Pass;
pub use pixel::Pixel;
pub use shape::{parse_shape, ParsedShape, ShapeError, ShapeText};
