//! Turns a raster of RGBA pixels into a grid of characters, one character per
//! pixel, and streams that grid to an output sink row by row.
pub mod convert;
pub mod terminal;
pub mod stream;
pub mod pipeline;
pub mod picture;
pub mod palette;

pub use convert::{AsciiPixelConverter, PaletteError, PixelConverter, intensity, safe_extract};
pub use palette::{default_palette, palette_from_tokens};
pub use picture::{load_raster, target_size};
pub use pipeline::{ImageProcessor, RasterImage, process_image};
pub use stream::{ConsoleStream, ImageFileStream, OutputImageStream, Phase};
