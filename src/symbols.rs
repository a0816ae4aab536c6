//! IUPAC nucleotide symbols: the set of bases each code denotes, the complement
//! table and the ambiguity-aware match relation.
use vstd::prelude::*;

verus! {

/// The bases a symbol stands for, as a four-bit set (A = 1, C = 2, G = 4, T/U = 8).
/// Symbols outside the IUPAC alphabet, sentinels included, denote no base at all.
pub open spec fn base_set(c: u8) -> u8 {
    if c == 97 || c == 65 { 1u8 }  // a
    else if c == 99 || c == 67 { 2u8 }  // c
    else if c == 103 || c == 71 { 4u8 }  // g
    else if c == 116 || c == 84 || c == 117 || c == 85 { 8u8 }  // t, u
    else if c == 114 || c == 82 { 5u8 }  // r = a|g
    else if c == 121 || c == 89 { 10u8 }  // y = c|t
    else if c == 115 || c == 83 { 6u8 }  // s = c|g
    else if c == 119 || c == 87 { 9u8 }  // w = a|t
    else if c == 107 || c == 75 { 12u8 }  // k = g|t
    else if c == 109 || c == 77 { 3u8 }  // m = a|c
    else if c == 98 || c == 66 { 14u8 }  // b = c|g|t
    else if c == 100 || c == 68 { 13u8 }  // d = a|g|t
    else if c == 104 || c == 72 { 11u8 }  // h = a|c|t
    else if c == 118 || c == 86 { 7u8 }  // v = a|c|g
    else if c == 110 || c == 78 { 15u8 }  // n
    else { 0u8 }
}

/// Whether the base set `m` holds the base whose bit is `w` (1, 2, 4 or 8).
pub open spec fn holds_base(m: u8, w: u8) -> bool {
    (m / w) % 2 == 1
}

/// Two symbols are compatible when the base sets they denote intersect: some base
/// lies in both.
pub open spec fn compatible(a: u8, b: u8) -> bool {
    let x = base_set(a);
    let y = base_set(b);
    ||| holds_base(x, 1) && holds_base(y, 1)
    ||| holds_base(x, 2) && holds_base(y, 2)
    ||| holds_base(x, 4) && holds_base(y, 4)
    ||| holds_base(x, 8) && holds_base(y, 8)
}

/// The complement of a symbol: A<->T, C<->G, R<->Y, K<->M, B<->V, D<->H, with S, W
/// and N their own complement and U paired with A. Case is kept. Any other byte,
/// the sentinels included, is its own complement.
pub open spec fn complement_of(c: u8) -> u8 {
    if c == 97 { 116u8 } else if c == 116 { 97u8 } else if c == 117 { 97u8 }
    else if c == 99 { 103u8 } else if c == 103 { 99u8 }
    else if c == 114 { 121u8 } else if c == 121 { 114u8 }
    else if c == 107 { 109u8 } else if c == 109 { 107u8 }
    else if c == 98 { 118u8 } else if c == 118 { 98u8 }
    else if c == 100 { 104u8 } else if c == 104 { 100u8 }
    else if c == 65 { 84u8 } else if c == 84 { 65u8 } else if c == 85 { 65u8 }
    else if c == 67 { 71u8 } else if c == 71 { 67u8 }
    else if c == 82 { 89u8 } else if c == 89 { 82u8 }
    else if c == 75 { 77u8 } else if c == 77 { 75u8 }
    else if c == 66 { 86u8 } else if c == 86 { 66u8 }
    else if c == 68 { 72u8 } else if c == 72 { 68u8 }
    else { c }
}

/// The symbol pairing with `c` (see `complement_of`).
pub fn complement(c: u8) -> (r: u8)
    ensures
        r == complement_of(c),
{
    match c {
        97 => 116,
        116 => 97,
        117 => 97,
        99 => 103,
        103 => 99,
        114 => 121,
        121 => 114,
        107 => 109,
        109 => 107,
        98 => 118,
        118 => 98,
        100 => 104,
        104 => 100,
        65 => 84,
        84 => 65,
        85 => 65,
        67 => 71,
        71 => 67,
        82 => 89,
        89 => 82,
        75 => 77,
        77 => 75,
        66 => 86,
        86 => 66,
        68 => 72,
        72 => 68,
        _ => c,
    }
}

/// The base set of a symbol (see `base_set`).
pub fn bases(c: u8) -> (r: u8)
    ensures
        r == base_set(c),
        r < 16,
{
    match c {
        97 | 65 => 1,
        99 | 67 => 2,
        103 | 71 => 4,
        116 | 84 | 117 | 85 => 8,
        114 | 82 => 5,
        121 | 89 => 10,
        115 | 83 => 6,
        119 | 87 => 9,
        107 | 75 => 12,
        109 | 77 => 3,
        98 | 66 => 14,
        100 | 68 => 13,
        104 | 72 => 11,
        118 | 86 => 7,
        110 | 78 => 15,
        _ => 0,
    }
}

/// The match matrix: whether `a` and `b` may denote the same base.
pub fn symbols_match(a: u8, b: u8) -> (r: bool)
    ensures
        r == compatible(a, b),
{
    let x = bases(a);
    let y = bases(b);
    (x % 2 == 1 && y % 2 == 1) || ((x / 2) % 2 == 1 && (y / 2) % 2 == 1) || ((x / 4) % 2 == 1 && (y / 4)
        % 2 == 1) || ((x / 8) % 2 == 1 && (y / 8) % 2 == 1)
}

/// The match relation is symmetric.
pub proof fn lemma_compatible_symmetric(a: u8, b: u8)
    ensures
        compatible(a, b) == compatible(b, a),
{
}

/// Every symbol that denotes at least one base matches itself; in particular every
/// unambiguous base does.
pub proof fn lemma_compatible_reflexive(a: u8)
    requires
        base_set(a) != 0,
    ensures
        compatible(a, a),
{
}

/// The complement is an involution on the unambiguous bases.
pub proof fn lemma_complement_involution(c: u8)
    requires
        c == 97 || c == 99 || c == 103 || c == 116 || c == 65 || c == 67 || c == 71 || c == 84,
    ensures
        complement_of(complement_of(c)) == c,
{
}

/// A byte outside the IUPAC alphabet matches nothing.
pub proof fn lemma_outside_alphabet_matches_nothing(c: u8, d: u8)
    requires
        base_set(c) == 0,
    ensures
        !compatible(c, d),
        !compatible(d, c),
{
}

} // verus!
