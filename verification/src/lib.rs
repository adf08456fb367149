//! Verified 2D spatial convolution over interleaved RGB rasters.
//!
//! A [`kernel::ConvKernel`] holds a validated square weight matrix with an
//! optional averaging normalizer; a [`conv::ConvProcessor`] applies it to an
//! image through five interchangeable strategies (two scalar references and
//! three lane-parallel execution plans rendered portably), all proved to
//! produce byte-identical output.

pub mod model;

pub mod image;

pub mod kernel;

pub mod conv;

pub mod laws;

pub use conv::ConvProcessor;

pub use image::RgbImage;

pub use kernel::ConvKernel;

pub use kernel::KernelError;
