//! Sixel encoding of raster images.
//!
//! An image is read pixel by pixel, every pixel is quantized to a colour of a
//! small palette, and the palette together with the per-pixel palette indices
//! is serialised as a sixel stream that a terminal renders in bands of six
//! rows.
//!
//! * [`color`] holds the colour model and the quantizer's arithmetic.
//! * [`palette`] states what the palette and the colour-index map of a
//!   sequence of colours are.
//! * [`protocol`] states the byte grammar of the stream and holds the writers
//!   of its parts.
//! * [`raster`] reads the pixels out of a decoded bitmap.
//! * [`encoders::sixel`] holds the encoder itself.

pub mod color;
pub mod encoders;
pub mod palette;
pub mod protocol;
pub mod raster;
