//! A verified driver for the fixed-point iteration of Shin's method.
//!
//! Shin's method removes the bookmaker margin from betting odds by solving
//! a fixed-point equation for the insider-trading fraction `z`.  The
//! numeric update works on IEEE 754 doubles, which cannot stand in
//! verified code, so the library drives the refinement loop on the bit
//! patterns of those doubles and takes the numeric work from its caller as
//! closures.  The loop itself is verified: where the estimate and the
//! delta start, how one step hands the previous estimate to the update,
//! how steps are counted and reported, when the loop stops, and that it
//! always stops within the iteration cap.

pub mod solver;
