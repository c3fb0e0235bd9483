//! Fractal (collage-coding) compression of grayscale rasters.
//!
//! An image is encoded as one affine block mapping per range block: the index
//! of a domain block, one of the eight symmetries of the square, and a
//! contrast/brightness pair. Decoding iterates the mapping set, a contractive
//! map, towards its fixed point.
//!
//! Intensity samples pass through this crate as opaque 32-bit words (the bit
//! patterns of the caller's single-precision intensities). Everything that
//! moves, selects or serializes samples is verified here; the arithmetic that
//! produces new sample values (the least-squares fit and the affine map
//! itself) is floating point and lives with the caller.

pub mod block_extractor;
pub mod codec;
pub mod encode;
pub mod raster;
pub mod reconstruct;
pub mod transform;
