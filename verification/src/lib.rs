//! Verified extraction of marker prevalence time series from simulation
//! output grids.
//!
//! A simulation run writes one tab-delimited file of daily records; each
//! record carries a date, a population size, a prevalence value, cumulative
//! treatment-failure counts and a 128-wide genotype frequency vector (seven
//! independent binary resistance loci, one genotype index per combination).
//! The library decodes that vector into per-marker prevalence at every
//! annual snapshot boundary, checks that the run reached the configured
//! terminal date, and aggregates the results of a parameter x replicate
//! grid while isolating per-job failures.
//!
//! All fractional quantities are held exactly: decimal text is parsed into
//! integers scaled by 10^9, and every normalised frequency or rate is a
//! ratio of integers.  Conversion to floating point, and all file and
//! console I/O, live outside the library.

#![verifier::loop_isolation(false)]

use vstd::prelude::*;

pub mod batch;
pub mod extract;
pub mod markers;
pub mod numeric;
pub mod rows;
pub mod split;

verus! {

/// Number of genotype indices: seven binary loci give 2^7 combinations.
pub const GENOTYPE_COUNT: usize = 128;

/// Number of binary resistance loci packed into a genotype index.
pub const LOCUS_COUNT: u32 = 7;

} // verus!
