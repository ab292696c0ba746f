//! A fractal codec for square grayscale images whose side is a power of two.
//!
//! The encoder approximates an image by a set of affine maps between larger
//! "domain" blocks and smaller "range" blocks of the same image; the decoder
//! reconstructs the image by iterating those maps from a random seed raster.
//! The crate also holds the compact little-endian wire format for the model
//! and the exact part of the quality metrics.

pub mod compress;
pub mod decompress;
pub mod image;
pub mod metrics;
pub mod model;
pub mod persistence;
