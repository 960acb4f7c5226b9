//! PNG container handling: parsing a byte stream into a signature and an
//! ordered list of chunks, field access on chunks, assembly of a minimal
//! file from compressed pixel data, and removal of scanline filter bytes.
pub mod assemble;
pub mod buffer;
pub mod bytes;
pub mod chunk;
pub mod codec;
pub mod constants;
pub mod container;
pub mod error;
pub mod images;
pub mod laws;
pub mod pixels;

pub use assemble::{create_png_from_boxed_defalted_data, create_png_from_deflated_data};
pub use buffer::{DeflatedData, InflatedData};
pub use chunk::Chunk;
pub use container::Png;
pub use error::PngError;
pub use images::ImageDataTensorShapeFormat;
