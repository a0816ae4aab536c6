//! Approximate symmetric repeats in an IUPAC nucleotide sequence: inverted
//! (hairpin) repeats and direct repeats, each in a plain and a complementary
//! variant, with a bounded number of mismatches and an optional gap between the
//! two arms.
//!
//! `params` validates a search's parameters, `symbols` holds the complement table
//! and the ambiguity-aware match relation, `buffer` builds the sentinel-padded
//! working buffer, `engine` runs the search and `laws` states what holds of every
//! result.
use vstd::prelude::*;

pub mod symbols;
pub mod params;
pub mod buffer;
pub mod engine;
pub mod laws;
pub mod config;
pub mod input;

verus! {

} // verus!
