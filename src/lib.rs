//! Escape-time rendering of the Mandelbrot set: argument pairs, the split of
//! the pixel buffer into row bands, the escape-time loop, and the per-pixel
//! shading rule.

pub mod pair;
pub mod bands;
pub mod render;
pub mod escape;

pub use bands::{plan_bands, Band};
pub use escape::first_escape;
pub use pair::{find_char, join_halves, parse_pair, split_pair};
pub use render::{render, shade, ITERATION_LIMIT};
