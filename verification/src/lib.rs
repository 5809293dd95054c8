//! The discrete core of a particle-trail renderer: streams age as they cross
//! pixels, leave fading colour in a square grid, and the finished grid is
//! tone-mapped into an 8-bit RGB image.
//!
//! All real-valued arithmetic (sampling, forces, colour conversion) is the
//! caller's business and comes in as plain values or closures. This crate
//! owns the bookkeeping around it:
//!
//! * [`lifecycle`]: when a stream lives and how it ages;
//! * [`grid`]: the accumulation grid and who may touch which cell;
//! * [`raster`]: walking the sub-steps of one integration step;
//! * [`compose`]: laying the tone-mapped cells out as an image;
//! * [`faucets`]: choosing the faucet a stream starts from.

pub mod compose;
pub mod faucets;
pub mod grid;
pub mod lifecycle;
pub mod raster;
