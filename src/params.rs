//! Search parameters: arm-length bounds, gap, mismatch budget and symmetry mode,
//! validated on construction and against a sequence length before a search.
use vstd::prelude::*;
use vstd::string::StringSliceAdditionalSpecFns;

verus! {

/// The relation the second arm of a repeat bears to the first.
///
/// `Inverted` and `InvertedComplementary` read the second arm backwards from the
/// gap, `Direct` and `DirectComplementary` read it forwards. `Inverted` (the
/// default) compares each symbol of the first arm with the complement of its
/// partner, so the second arm is the reverse complement of the first;
/// `InvertedComplementary` compares the symbols as they stand, so the second arm
/// is the first one reversed. `Direct` asks for the same arm twice,
/// `DirectComplementary` for the complement of the first arm, read forwards.
#[derive(Debug, Clone, Copy, PartialEq, Eq, Structural)]
pub enum SymmetryMode {
    Inverted,
    InvertedComplementary,
    Direct,
    DirectComplementary,
}

/// Whether the second arm is read backwards from the gap.
pub open spec fn reads_backwards(m: SymmetryMode) -> bool {
    m is Inverted || m is InvertedComplementary
}

/// Whether a symbol of the second arm is complemented before it is compared.
pub open spec fn complements(m: SymmetryMode) -> bool {
    m is Inverted || m is DirectComplementary
}

impl Default for SymmetryMode {
    fn default() -> (r: Self)
        ensures
            r == SymmetryMode::Inverted,
    {
        SymmetryMode::Inverted
    }
}

/// ASCII lower case of a byte.
pub open spec fn lower(b: u8) -> u8 {
    if 65 <= b <= 90 { (b + 32) as u8 } else { b }
}

/// Two byte strings that are equal up to ASCII case.
pub open spec fn same_folded(a: Seq<u8>, b: Seq<u8>) -> bool {
    a.len() == b.len() && forall|i: int| 0 <= i < a.len() ==> lower(#[trigger] a[i]) == lower(b[i])
}

/// The mode a name stands for, ignoring ASCII case: each mode has a long name and
/// a short one.
pub open spec fn mode_named(s: Seq<u8>) -> Option<SymmetryMode> {
    if same_folded(s, "inverted".spec_bytes()) || same_folded(s, "i".spec_bytes()) {
        Some(SymmetryMode::Inverted)
    } else if same_folded(s, "inverted_complementary".spec_bytes()) || same_folded(s, "ic".spec_bytes()) {
        Some(SymmetryMode::InvertedComplementary)
    } else if same_folded(s, "direct".spec_bytes()) || same_folded(s, "d".spec_bytes()) {
        Some(SymmetryMode::Direct)
    } else if same_folded(s, "direct_complementary".spec_bytes()) || same_folded(s, "dc".spec_bytes()) {
        Some(SymmetryMode::DirectComplementary)
    } else {
        None
    }
}

fn lower_byte(b: u8) -> (r: u8)
    ensures
        r == lower(b),
{
    if 65 <= b && b <= 90 { b + 32 } else { b }
}

fn eq_folded(a: &[u8], b: &[u8]) -> (r: bool)
    ensures
        r == same_folded(a@, b@),
{
    if a.len() != b.len() {
        return false;
    }
    let mut i: usize = 0;
    while i < a.len()
        invariant
            a@.len() == b@.len(),
            i <= a@.len(),
            forall|j: int| 0 <= j < i ==> lower(#[trigger] a@[j]) == lower(b@[j]),
        decreases a@.len() - i,
    {
        if lower_byte(a[i]) != lower_byte(b[i]) {
            return false;
        }
        i += 1;
    }
    true
}

/// The error for a name that is no symmetry mode.
#[derive(Debug, Clone, Copy, PartialEq, Eq, Structural)]
pub struct UnknownMode;

impl SymmetryMode {
    /// Reads a mode from its long or short name, in any case.
    pub fn parse(s: &str) -> (r: Option<SymmetryMode>)
        ensures
            r == mode_named(s.spec_bytes()),
    {
        let b = s.as_bytes();
        if eq_folded(b, "inverted".as_bytes()) || eq_folded(b, "i".as_bytes()) {
            Some(SymmetryMode::Inverted)
        } else if eq_folded(b, "inverted_complementary".as_bytes()) || eq_folded(b, "ic".as_bytes()) {
            Some(SymmetryMode::InvertedComplementary)
        } else if eq_folded(b, "direct".as_bytes()) || eq_folded(b, "d".as_bytes()) {
            Some(SymmetryMode::Direct)
        } else if eq_folded(b, "direct_complementary".as_bytes()) || eq_folded(b, "dc".as_bytes()) {
            Some(SymmetryMode::DirectComplementary)
        } else {
            None
        }
    }
}

impl std::str::FromStr for SymmetryMode {
    type Err = UnknownMode;

    fn from_str(s: &str) -> (r: Result<Self, Self::Err>)
        ensures
            r == (match mode_named(s.spec_bytes()) {
                Some(m) => Ok::<SymmetryMode, UnknownMode>(m),
                None => Err::<SymmetryMode, UnknownMode>(UnknownMode),
            }),
    {
        match SymmetryMode::parse(s) {
            Some(m) => Ok(m),
            None => Err(UnknownMode),
        }
    }
}

/// Why a set of search parameters was refused.
#[derive(Debug, Clone, Copy, PartialEq, Eq, Structural)]
pub enum ParamError {
    /// `min_len` is below 2.
    MinLenTooSmall,
    /// `min_len` is above `max_len`.
    MinLenAboveMaxLen,
    /// `mismatches` is not below `min_len`.
    TooManyMismatches,
    /// `min_len` is not below the sequence length.
    MinLenNotBelowLength,
    /// `max_gap` is not below the sequence length.
    MaxGapNotBelowLength,
    /// `mismatches` is not below the sequence length.
    MismatchesNotBelowLength,
    /// The sequence is too long for its working buffer (`2n + 2` symbols) to be
    /// addressed.
    SequenceTooLong,
}

/// The first constraint on its own that a set of parameters breaks, if any.
pub open spec fn construction_error(min_len: usize, max_len: usize, mismatches: usize) -> Option<ParamError> {
    if min_len < 2 {
        Some(ParamError::MinLenTooSmall)
    } else if min_len > max_len {
        Some(ParamError::MinLenAboveMaxLen)
    } else if mismatches >= min_len {
        Some(ParamError::TooManyMismatches)
    } else {
        None
    }
}

/// The parameters of a search.
#[derive(Debug, Clone, Copy, PartialEq, Eq, Structural)]
pub struct SearchParams {
    pub min_len: usize,
    pub max_len: usize,
    pub max_gap: usize,
    pub mismatches: usize,
    pub symmetry_mode: SymmetryMode,
}

/// The first constraint against a sequence of length `n` that the parameters
/// break, if any.
pub open spec fn length_error(p: SearchParams, n: usize) -> Option<ParamError> {
    if p.min_len >= n {
        Some(ParamError::MinLenNotBelowLength)
    } else if p.max_gap >= n {
        Some(ParamError::MaxGapNotBelowLength)
    } else if p.mismatches >= n {
        Some(ParamError::MismatchesNotBelowLength)
    } else {
        None
    }
}

pub(crate) fn check_construction(min_len: usize, max_len: usize, mismatches: usize) -> (r: Result<(), ParamError>)
    ensures
        r matches Ok(_) <==> construction_error(min_len, max_len, mismatches) is None,
        r matches Err(e) ==> construction_error(min_len, max_len, mismatches) == Some(e),
{
    if min_len < 2 {
        Err(ParamError::MinLenTooSmall)
    } else if min_len > max_len {
        Err(ParamError::MinLenAboveMaxLen)
    } else if mismatches >= min_len {
        Err(ParamError::TooManyMismatches)
    } else {
        Ok(())
    }
}

impl SearchParams {
    /// The constraints that hold of parameters that construction accepted.
    pub open spec fn wf(self) -> bool {
        construction_error(self.min_len, self.max_len, self.mismatches) is None
    }

    /// Parameters with the given symmetry mode. For the default mode use `new`.
    pub fn with_mode(
        min_len: usize,
        max_len: usize,
        max_gap: usize,
        mismatches: usize,
        symmetry_mode: SymmetryMode,
    ) -> (r: Result<SearchParams, ParamError>)
        ensures
            r matches Ok(_) <==> construction_error(min_len, max_len, mismatches) is None,
            r matches Err(e) ==> construction_error(min_len, max_len, mismatches) == Some(e),
            r matches Ok(p) ==> p.wf() && p == (SearchParams {
                min_len,
                max_len,
                max_gap,
                mismatches,
                symmetry_mode,
            }),
    {
        match check_construction(min_len, max_len, mismatches) {
            Err(e) => Err(e),
            Ok(()) => Ok(SearchParams { min_len, max_len, max_gap, mismatches, symmetry_mode }),
        }
    }

    /// Parameters in the default mode, `Inverted`.
    pub fn new(min_len: usize, max_len: usize, max_gap: usize, mismatches: usize) -> (r: Result<
        SearchParams,
        ParamError,
    >)
        ensures
            r matches Ok(_) <==> construction_error(min_len, max_len, mismatches) is None,
            r matches Err(e) ==> construction_error(min_len, max_len, mismatches) == Some(e),
            r matches Ok(p) ==> p.wf() && p == (SearchParams {
                min_len,
                max_len,
                max_gap,
                mismatches,
                symmetry_mode: SymmetryMode::Inverted,
            }),
    {
        SearchParams::with_mode(min_len, max_len, max_gap, mismatches, SymmetryMode::default())
    }

    /// Checks the parameters against a sequence of length `n`: `min_len`,
    /// `max_gap` and `mismatches` must each be below `n`.
    pub fn check_bounds(&self, n: usize) -> (r: Result<(), ParamError>)
        ensures
            r matches Ok(_) <==> length_error(*self, n) is None,
            r matches Err(e) ==> length_error(*self, n) == Some(e),
    {
        if self.min_len >= n {
            Err(ParamError::MinLenNotBelowLength)
        } else if self.max_gap >= n {
            Err(ParamError::MaxGapNotBelowLength)
        } else if self.mismatches >= n {
            Err(ParamError::MismatchesNotBelowLength)
        } else {
            Ok(())
        }
    }
}

} // verus!
