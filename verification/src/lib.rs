//! Verified core of an image transform engine: dense buffers, the index
//! arithmetic of the spatial and frequency-domain kernels, and the dispatch
//! protocol between processors and their host.
//!
//! Sample arithmetic is supplied by the caller as closures; every traversal,
//! index computation, validation and state transition is proved here.

pub mod affine_transform;
pub mod array;
pub mod bitrev;
pub mod cl;
pub mod dft;
pub mod error;
pub mod fft;
pub mod filter;
pub mod frame;
pub mod image;
pub mod noise;
pub mod pixels;
pub mod processor;
pub mod session;
pub mod video;
