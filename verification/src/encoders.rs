//! The encoders, one module for each output protocol.

pub mod sixel;
