//! A radio-interferometer simulator in exact fixed-point arithmetic.
//!
//! An array of antennas observes a patch of sky over a number of time
//! steps.  Each step rotates the antenna positions (earth rotation),
//! samples the sky through the Fourier phase kernel, cross-correlates
//! the per-antenna signals into visibilities, and records the baseline
//! geometry.  A dirty image is then synthesised directly from the
//! accumulated visibilities.
//!
//! All quantities are scaled integers (see [`fixed::FX`]) so that every
//! arithmetic step has an exact, machine-checked contract.  Evaluating
//! sines and cosines, drawing random numbers and encoding raster files
//! are left to callers and to a single trusted random-number wrapper.

pub mod antennaarray;
pub mod arrayimage;
pub mod beam;
pub mod complex;
pub mod fixed;
pub mod meshgrid;
pub mod pipeline;
pub mod point;
mod rng;
pub mod signals;
