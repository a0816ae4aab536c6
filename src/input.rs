//! Turning the raw text of a sequence into the form the search reads: lower case,
//! without line breaks.
use vstd::prelude::*;
use crate::params::lower;

verus! {

/// The raw text with line breaks (`\n`, `\r`) dropped and ASCII letters lowered.
pub open spec fn normalized(raw: Seq<u8>) -> Seq<u8>
    decreases raw.len(),
{
    if raw.len() == 0 {
        seq![]
    } else {
        let last = raw.last();
        let rest = normalized(raw.drop_last());
        if last == 10 || last == 13 { rest } else { rest.push(lower(last)) }
    }
}

/// Normalises the raw text of a sequence.
pub fn normalize_sequence(raw: &[u8]) -> (r: Vec<u8>)
    ensures
        r@ == normalized(raw@),
{
    let mut r: Vec<u8> = Vec::new();
    let mut i: usize = 0;
    while i < raw.len()
        invariant
            i <= raw@.len(),
            r@ == normalized(raw@.subrange(0, i as int)),
        decreases raw@.len() - i,
    {
        let b = raw[i];
        proof {
            assert(raw@.subrange(0, i + 1).drop_last() =~= raw@.subrange(0, i as int));
        }
        if b != 10 && b != 13 {
            r.push(if 65 <= b && b <= 90 { b + 32 } else { b });
        }
        i += 1;
    }
    assert(raw@.subrange(0, raw@.len() as int) =~= raw@);
    r
}

} // verus!
