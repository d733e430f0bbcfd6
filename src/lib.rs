// Extracts perceptually significant colours ("swatches") from raster images:
// the image is reduced to a small palette weighted by pixel counts, and six
// swatches (vibrant and muted, each normal, light and dark) are chosen from it
// by an exact scoring of saturation, lightness and population.

pub mod color;
pub mod hsl;
pub mod palette;
pub mod quantize;
pub mod settings;
pub mod swatch;
pub mod vibrant;

pub use color::{Image, Rgb, Rgba};
pub use hsl::{Fraction, HSL};
pub use palette::{is_interesting, training_stream, Palette};
pub use settings::{Settings, TargetRange, Weights};
pub use swatch::select;
pub use vibrant::{generate_variation_colors, Vibrancy};
