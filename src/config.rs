//! A run's configuration: where the sequence comes from, which sequence, the
//! search parameters and where the results go.
use vstd::prelude::*;
use crate::params::{SearchParams, SymmetryMode};

verus! {

pub const DEFAULT_MIN_LEN: usize = 10;

pub const DEFAULT_MAX_LEN: usize = 100;

pub const DEFAULT_MAX_GAP: usize = 100;

pub const DEFAULT_MISMATCHES: usize = 0;

impl Default for SearchParams {
    /// The default parameters, in the default mode.
    fn default() -> (r: Self)
        ensures
            r.wf(),
            r == (SearchParams {
                min_len: DEFAULT_MIN_LEN,
                max_len: DEFAULT_MAX_LEN,
                max_gap: DEFAULT_MAX_GAP,
                mismatches: DEFAULT_MISMATCHES,
                symmetry_mode: SymmetryMode::Inverted,
            }),
    {
        SearchParams {
            min_len: DEFAULT_MIN_LEN,
            max_len: DEFAULT_MAX_LEN,
            max_gap: DEFAULT_MAX_GAP,
            mismatches: DEFAULT_MISMATCHES,
            symmetry_mode: SymmetryMode::default(),
        }
    }
}

/// A run's configuration.
#[derive(Debug, Clone)]
pub struct Config {
    pub input_file: String,
    pub seq_name: String,
    pub params: SearchParams,
    pub output_file: String,
}

impl Default for Config {
    fn default() -> (r: Self)
        ensures
            r.input_file@ == "input.fasta"@,
            r.seq_name@ == "seq0"@,
            r.output_file@ == "iupacpal.out"@,
            r.params == (SearchParams {
                min_len: DEFAULT_MIN_LEN,
                max_len: DEFAULT_MAX_LEN,
                max_gap: DEFAULT_MAX_GAP,
                mismatches: DEFAULT_MISMATCHES,
                symmetry_mode: SymmetryMode::Inverted,
            }),
    {
        Config {
            input_file: "input.fasta".to_owned(),
            seq_name: "seq0".to_owned(),
            params: SearchParams::default(),
            output_file: "iupacpal.out".to_owned(),
        }
    }
}

} // verus!
