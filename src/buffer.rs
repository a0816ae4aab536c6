//! The sentinel-padded working buffer: the sequence, a left sentinel, the
//! reverse complement of the sequence, and a right sentinel.
use vstd::prelude::*;
use crate::symbols::{complement, complement_of, base_set};

verus! {

/// The sentinel after the sequence (`$`).
pub const LEFT_SENTINEL: u8 = 36;

/// The sentinel after the reverse complement (`#`).
pub const RIGHT_SENTINEL: u8 = 35;

/// The reverse complement of a sequence.
pub open spec fn reverse_complement(s: Seq<u8>) -> Seq<u8> {
    Seq::new(s.len(), |j: int| complement_of(s[s.len() - 1 - j]))
}

/// The buffer of a sequence `s` of length `n`: `s` at `[0, n)`, the left sentinel
/// at `n`, the reverse complement of `s` at `[n + 1, 2n + 1)`, and the right
/// sentinel at `2n + 1`.
pub open spec fn buffer_of(s: Seq<u8>) -> Seq<u8> {
    s + seq![LEFT_SENTINEL] + reverse_complement(s) + seq![RIGHT_SENTINEL]
}

/// Builds the working buffer of a sequence.
pub fn build_buffer(seq: &Vec<u8>) -> (r: Vec<u8>)
    requires
        seq@.len() <= (usize::MAX - 2) / 2,
    ensures
        r@ == buffer_of(seq@),
        r@.len() == 2 * seq@.len() + 2,
{
    let n = seq.len();
    let mut r: Vec<u8> = Vec::with_capacity(2 * n + 2);
    let mut i: usize = 0;
    while i < n
        invariant
            n == seq@.len(),
            i <= n,
            r@ == seq@.subrange(0, i as int),
        decreases n - i,
    {
        r.push(seq[i]);
        i += 1;
    }
    r.push(LEFT_SENTINEL);
    let mut j: usize = 0;
    while j < n
        invariant
            n == seq@.len(),
            j <= n,
            r@ == seq@ + seq![LEFT_SENTINEL] + reverse_complement(seq@).subrange(0, j as int),
        decreases n - j,
    {
        r.push(complement(seq[n - 1 - j]));
        j += 1;
        assert(r@ =~= seq@ + seq![LEFT_SENTINEL] + reverse_complement(seq@).subrange(0, j as int));
    }
    assert(reverse_complement(seq@).subrange(0, n as int) =~= reverse_complement(seq@));
    r.push(RIGHT_SENTINEL);
    r
}

/// The sentinels stand for no base, so they match no symbol; and every position of
/// the buffer that holds neither sentinel holds a symbol of the sequence or its
/// complement, at mirrored positions.
pub proof fn lemma_buffer_layout(s: Seq<u8>, i: int)
    requires
        0 <= i < s.len(),
    ensures
        base_set(LEFT_SENTINEL) == 0,
        base_set(RIGHT_SENTINEL) == 0,
        buffer_of(s).len() == 2 * s.len() + 2,
        buffer_of(s)[s.len() as int] == LEFT_SENTINEL,
        buffer_of(s)[2 * s.len() as int + 1] == RIGHT_SENTINEL,
        buffer_of(s)[i] == s[i],
        buffer_of(s)[2 * s.len() as int - i] == complement_of(s[i]),
        base_set(s[i]) != 0 ==> buffer_of(s)[i] != LEFT_SENTINEL && buffer_of(s)[i] != RIGHT_SENTINEL,
{
    let n = s.len() as int;
    let a = s + seq![LEFT_SENTINEL];
    let b = a + reverse_complement(s);
    assert(buffer_of(s) == b + seq![RIGHT_SENTINEL]);
    assert(b[i] == s[i]);
    assert(b[2 * n - i] == reverse_complement(s)[n - 1 - i]);
    assert(b[n] == LEFT_SENTINEL);
}

} // verus!
