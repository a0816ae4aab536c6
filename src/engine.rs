//! The repeat search: for every placement of the two arms (where the first arm
//! ends and how wide the gap after it is), the longest arm length that the
//! parameters admit.
use vstd::prelude::*;
use crate::symbols::{compatible, complement_of, symbols_match};
use crate::params::{
    SearchParams, SymmetryMode, ParamError, reads_backwards, complements, construction_error,
    length_error, check_construction,
};
use crate::buffer::{buffer_of, build_buffer, lemma_buffer_layout};

verus! {

/// A repeat: the first arm is `[left, left + len)`, the second `[right, right + len)`,
/// and `mismatches` of their `len` symbol pairs do not match.
#[derive(Debug, Clone, Copy, PartialEq, Eq, Structural)]
pub struct RepeatRecord {
    pub left: usize,
    pub right: usize,
    pub len: usize,
    pub mismatches: usize,
}

/// Position in the sequence of the `k`-th symbol of the first arm that is compared,
/// for a first arm of length `l` ending at `p`. Backwards modes walk away from the
/// gap; forward modes start at the arm's beginning.
pub open spec fn left_index(m: SymmetryMode, p: int, l: int, k: int) -> int {
    if reads_backwards(m) { p - 1 - k } else { p - l + k }
}

/// Whether the `k`-th symbol pair of a repeat with arms of length `l` around the
/// gap `[p, p + g)` matches.
pub open spec fn pair_matches(s: Seq<u8>, m: SymmetryMode, p: int, g: int, l: int, k: int) -> bool {
    let a = s[left_index(m, p, l, k)];
    let b = s[p + g + k];
    compatible(a, if complements(m) { complement_of(b) } else { b })
}

/// The number of the first `k` symbol pairs that do not match.
pub open spec fn mismatch_count(s: Seq<u8>, m: SymmetryMode, p: int, g: int, l: int, k: nat) -> nat
    decreases k,
{
    if k == 0 {
        0
    } else {
        mismatch_count(s, m, p, g, l, (k - 1) as nat) + if pair_matches(s, m, p, g, l, k - 1) {
            0nat
        } else {
            1nat
        }
    }
}

/// Which of the `l` symbol pairs holds the first arm's first symbol, `p - l`: the
/// last one walked in backwards modes, the first in forward modes.
pub open spec fn outer_pair(m: SymmetryMode, l: int) -> int {
    if reads_backwards(m) { l - 1 } else { 0 }
}

/// Arms of length `l` fit around the gap `[p, p + g)`, the length lies within the
/// bounds, the mismatches stay within the budget, and the pair holding the first
/// arm's first symbol matches, so that a repeat never ends on a mismatch.
pub open spec fn admissible(s: Seq<u8>, prm: SearchParams, p: int, g: int, l: int) -> bool {
    &&& 0 <= g
    &&& l <= p
    &&& p + g + l <= s.len()
    &&& prm.min_len <= l <= prm.max_len
    &&& mismatch_count(s, prm.symmetry_mode, p, g, l, l as nat) <= prm.mismatches
    &&& pair_matches(s, prm.symmetry_mode, p, g, l, outer_pair(prm.symmetry_mode, l))
}

/// `l` is the longest admissible arm length at the placement.
pub open spec fn is_best(s: Seq<u8>, prm: SearchParams, p: int, g: int, l: int) -> bool {
    admissible(s, prm, p, g, l) && forall|l2: int| l < l2 ==> !#[trigger] admissible(s, prm, p, g, l2)
}

/// The record of arms of length `l` around the gap `[p, p + g)`.
pub open spec fn record_at(s: Seq<u8>, prm: SearchParams, p: int, g: int, l: int) -> RepeatRecord {
    RepeatRecord {
        left: (p - l) as usize,
        right: (p + g) as usize,
        len: l as usize,
        mismatches: mismatch_count(s, prm.symmetry_mode, p, g, l, l as nat) as usize,
    }
}

/// In backwards modes the gap is the loop of a hairpin, so its two edge symbols
/// must not pair: where they do, the placement with the arms one step further in
/// and a gap two shorter holds the same hairpin. A gap below 2 is always a loop.
pub open spec fn open_loop(s: Seq<u8>, m: SymmetryMode, p: int, g: int) -> bool {
    !(reads_backwards(m) && g >= 2 && pair_matches(s, m, p + 1, g - 2, 1, 0))
}

/// What one placement contributes: the record of its longest admissible length,
/// if it has any and its gap is an open loop.
pub open spec fn placement_records(s: Seq<u8>, prm: SearchParams, p: int, g: int) -> Seq<RepeatRecord> {
    if open_loop(s, prm.symmetry_mode, p, g) && exists|l: int| is_best(s, prm, p, g, l) {
        seq![record_at(s, prm, p, g, choose|l: int| is_best(s, prm, p, g, l))]
    } else {
        seq![]
    }
}

/// The records of the gaps `0 .. g` after position `p`, by increasing gap.
pub open spec fn row_records(s: Seq<u8>, prm: SearchParams, p: int, g: nat) -> Seq<RepeatRecord>
    decreases g,
{
    if g == 0 {
        seq![]
    } else {
        row_records(s, prm, p, (g - 1) as nat) + placement_records(s, prm, p, g - 1)
    }
}

/// The records of all placements whose first arm ends before `p`, by increasing
/// end, then increasing gap.
pub open spec fn records_before(s: Seq<u8>, prm: SearchParams, p: nat) -> Seq<RepeatRecord>
    decreases p,
{
    if p == 0 {
        seq![]
    } else {
        records_before(s, prm, (p - 1) as nat) + row_records(s, prm, p - 1, (prm.max_gap + 1) as nat)
    }
}

/// All the repeats of a sequence: for each placement in order, its maximal record.
pub open spec fn repeats(s: Seq<u8>, prm: SearchParams) -> Seq<RepeatRecord> {
    records_before(s, prm, s.len() + 1)
}

/// The longest sequence whose working buffer can be addressed.
pub const MAX_SEQUENCE_LEN: usize = (usize::MAX - 2) / 2;

/// The error a search reports, if any.
pub open spec fn search_error(prm: SearchParams, n: usize) -> Option<ParamError> {
    match construction_error(prm.min_len, prm.max_len, prm.mismatches) {
        Some(e) => Some(e),
        None => match length_error(prm, n) {
            Some(e) => Some(e),
            None => if n > MAX_SEQUENCE_LEN { Some(ParamError::SequenceTooLong) } else { None },
        },
    }
}

/// In backwards modes the arm length does not change which pairs are compared.
proof fn lemma_count_backwards(s: Seq<u8>, m: SymmetryMode, p: int, g: int, l1: int, l2: int, k: nat)
    requires
        reads_backwards(m),
    ensures
        mismatch_count(s, m, p, g, l1, k) == mismatch_count(s, m, p, g, l2, k),
    decreases k,
{
    if k > 0 {
        lemma_count_backwards(s, m, p, g, l1, l2, (k - 1) as nat);
    }
}

/// Counting more pairs never counts fewer mismatches.
proof fn lemma_count_monotone(s: Seq<u8>, m: SymmetryMode, p: int, g: int, l: int, k1: nat, k2: nat)
    requires
        k1 <= k2,
    ensures
        mismatch_count(s, m, p, g, l, k1) <= mismatch_count(s, m, p, g, l, k2),
    decreases k2,
{
    if k1 < k2 {
        lemma_count_monotone(s, m, p, g, l, k1, (k2 - 1) as nat);
    }
}

/// Counting one more pair adds one exactly when that pair does not match.
proof fn lemma_count_step(s: Seq<u8>, m: SymmetryMode, p: int, g: int, l: int, k: nat)
    ensures
        mismatch_count(s, m, p, g, l, k + 1) == mismatch_count(s, m, p, g, l, k)
            + if pair_matches(s, m, p, g, l, k as int) { 0nat } else { 1nat },
{
    assert(((k + 1) as nat - 1) as nat == k);
}

/// Whether the `k`-th pair matches, read from the buffer.
fn pair_ok(
    buf: &Vec<u8>,
    n: usize,
    m: SymmetryMode,
    p: usize,
    g: usize,
    l: usize,
    k: usize,
    Ghost(s): Ghost<Seq<u8>>,
) -> (r: bool)
    requires
        buf@ == buffer_of(s),
        n == s.len(),
        n <= (usize::MAX - 2) / 2,
        k < l,
        l <= p,
        p + g + l <= n,
    ensures
        r == pair_matches(s, m, p as int, g as int, l as int, k as int),
{
    let i: usize = if reads_backwards_exec(m) { p - 1 - k } else { p - l + k };
    let j: usize = p + g + k;
    proof {
        lemma_buffer_layout(s, i as int);
        lemma_buffer_layout(s, j as int);
    }
    let a = buf[i];
    let b = if complements_exec(m) { buf[2 * n - j] } else { buf[j] };
    symbols_match(a, b)
}

fn reads_backwards_exec(m: SymmetryMode) -> (r: bool)
    ensures
        r == reads_backwards(m),
{
    match m {
        SymmetryMode::Inverted | SymmetryMode::InvertedComplementary => true,
        _ => false,
    }
}

fn complements_exec(m: SymmetryMode) -> (r: bool)
    ensures
        r == complements(m),
{
    match m {
        SymmetryMode::Inverted | SymmetryMode::DirectComplementary => true,
        _ => false,
    }
}


/// The longest admissible length at a placement, with its mismatch count, walking
/// outwards from the gap one pair at a time until the budget is spent. Backwards
/// modes only.
fn best_backwards(
    buf: &Vec<u8>,
    n: usize,
    prm: &SearchParams,
    p: usize,
    g: usize,
    Ghost(s): Ghost<Seq<u8>>,
) -> (r: Option<(usize, usize)>)
    requires
        buf@ == buffer_of(s),
        n == s.len(),
        n <= (usize::MAX - 2) / 2,
        p + g <= n,
        reads_backwards(prm.symmetry_mode),
        prm.wf(),
    ensures
        r matches Some((l, c)) ==> is_best(s, *prm, p as int, g as int, l as int)
            && c == mismatch_count(s, prm.symmetry_mode, p as int, g as int, l as int, l as nat),
        r is None ==> forall|l: int| !#[trigger] admissible(s, *prm, p as int, g as int, l),
{
    let m = prm.symmetry_mode;
    let room: usize = if p < n - p - g { p } else { n - p - g };
    let hi: usize = if prm.max_len < room { prm.max_len } else { room };
    let mut k: usize = 0;
    let mut c: usize = 0;
    let mut best: Option<(usize, usize)> = None;
    let ghost pi = p as int;
    let ghost gi = g as int;
    while k < hi
        invariant
            buf@ == buffer_of(s),
            n == s.len(),
            n <= (usize::MAX - 2) / 2,
            p + g <= n,
            reads_backwards(m),
            prm.wf(),
            m == prm.symmetry_mode,
            pi == p as int,
            gi == g as int,
            hi <= prm.max_len,
            hi <= p,
            p + g + hi <= n,
            k <= hi,
            c == mismatch_count(s, m, pi, gi, 0, k as nat),
            c <= prm.mismatches,
            best matches Some((b, bc)) ==> b <= k && admissible(s, *prm, pi, gi, b as int)
                && bc == mismatch_count(s, m, pi, gi, b as int, b as nat),
            forall|l: int| #![trigger admissible(s, *prm, pi, gi, l)]
                (best matches Some((b, bc)) ==> b < l) && l <= k ==> !admissible(s, *prm, pi, gi, l),
        decreases hi - k,
    {
        let ok = pair_ok(buf, n, m, p, g, k + 1, k, Ghost(s));
        proof {
            lemma_count_backwards(s, m, pi, gi, (k + 1) as int, 0, k as nat);
            lemma_count_backwards(s, m, pi, gi, (k + 1) as int, 0, (k + 1) as nat);
            assert(pair_matches(s, m, pi, gi, (k + 1) as int, k as int) == pair_matches(s, m, pi, gi, 0, k as int));
            lemma_count_step(s, m, pi, gi, 0, k as nat);
        }
        if !ok {
            if c == prm.mismatches {
                proof {
                    assert forall|l: int| k < l implies !#[trigger] admissible(s, *prm, pi, gi, l) by {
                        if l <= p && p + g + l <= n {
                            lemma_count_monotone(s, m, pi, gi, 0, (k + 1) as nat, l as nat);
                            lemma_count_backwards(s, m, pi, gi, l, 0, l as nat);
                        }
                    }
                }
                return best;
            }
            c = c + 1;
        }
        k = k + 1;
        if ok && k >= prm.min_len {
            best = Some((k, c));
            proof {
                lemma_count_backwards(s, m, pi, gi, k as int, 0, k as nat);
            }
        }
    }
    best
}


/// The mismatch count of arms of length `l` around the gap, if it stays within the
/// budget; `None` as soon as it exceeds it.
fn count_within(
    buf: &Vec<u8>,
    n: usize,
    prm: &SearchParams,
    p: usize,
    g: usize,
    l: usize,
    Ghost(s): Ghost<Seq<u8>>,
) -> (r: Option<usize>)
    requires
        buf@ == buffer_of(s),
        n == s.len(),
        n <= (usize::MAX - 2) / 2,
        l <= p,
        p + g + l <= n,
    ensures
        r matches Some(c) ==> c == mismatch_count(s, prm.symmetry_mode, p as int, g as int, l as int, l as nat)
            && c <= prm.mismatches,
        r is None ==> mismatch_count(s, prm.symmetry_mode, p as int, g as int, l as int, l as nat) > prm.mismatches,
{
    let m = prm.symmetry_mode;
    let mut k: usize = 0;
    let mut c: usize = 0;
    while k < l
        invariant
            buf@ == buffer_of(s),
            n == s.len(),
            n <= (usize::MAX - 2) / 2,
            l <= p,
            p + g + l <= n,
            m == prm.symmetry_mode,
            k <= l,
            c == mismatch_count(s, m, p as int, g as int, l as int, k as nat),
            c <= prm.mismatches,
        decreases l - k,
    {
        let ok = pair_ok(buf, n, m, p, g, l, k, Ghost(s));
        proof {
            lemma_count_step(s, m, p as int, g as int, l as int, k as nat);
        }
        if !ok {
            if c == prm.mismatches {
                proof {
                    lemma_count_monotone(s, m, p as int, g as int, l as int, (k + 1) as nat, l as nat);
                }
                return None;
            }
            c = c + 1;
        }
        k = k + 1;
    }
    Some(c)
}

/// The longest admissible length at a placement, with its mismatch count, trying
/// lengths from the longest that fits down to `min_len`.
fn best_by_length(
    buf: &Vec<u8>,
    n: usize,
    prm: &SearchParams,
    p: usize,
    g: usize,
    Ghost(s): Ghost<Seq<u8>>,
) -> (r: Option<(usize, usize)>)
    requires
        buf@ == buffer_of(s),
        n == s.len(),
        n <= (usize::MAX - 2) / 2,
        p + g <= n,
        prm.wf(),
    ensures
        r matches Some((l, c)) ==> is_best(s, *prm, p as int, g as int, l as int)
            && c == mismatch_count(s, prm.symmetry_mode, p as int, g as int, l as int, l as nat),
        r is None ==> forall|l: int| !#[trigger] admissible(s, *prm, p as int, g as int, l),
{
    let room: usize = if p < n - p - g { p } else { n - p - g };
    let mut l: usize = if prm.max_len < room { prm.max_len } else { room };
    while l >= prm.min_len
        invariant
            buf@ == buffer_of(s),
            n == s.len(),
            n <= (usize::MAX - 2) / 2,
            p + g <= n,
            prm.wf(),
            l <= p,
            l <= prm.max_len,
            p + g + l <= n,
            forall|l2: int| l < l2 ==> !#[trigger] admissible(s, *prm, p as int, g as int, l2),
        decreases l,
    {
        let outer: usize = if reads_backwards_exec(prm.symmetry_mode) { l - 1 } else { 0 };
        if pair_ok(buf, n, prm.symmetry_mode, p, g, l, outer, Ghost(s)) {
            match count_within(buf, n, prm, p, g, l, Ghost(s)) {
                Some(c) => {
                    return Some((l, c));
                },
                None => {},
            }
        }
        l = l - 1;
    }
    None
}

/// The longest admissible length at a placement, if any, with its mismatch count.
fn best_at(
    buf: &Vec<u8>,
    n: usize,
    prm: &SearchParams,
    p: usize,
    g: usize,
    Ghost(s): Ghost<Seq<u8>>,
) -> (r: Option<(usize, usize)>)
    requires
        buf@ == buffer_of(s),
        n == s.len(),
        n <= (usize::MAX - 2) / 2,
        p + g <= n,
        prm.wf(),
    ensures
        r matches Some((l, c)) ==> is_best(s, *prm, p as int, g as int, l as int)
            && c == mismatch_count(s, prm.symmetry_mode, p as int, g as int, l as int, l as nat),
        r is None ==> forall|l: int| !#[trigger] admissible(s, *prm, p as int, g as int, l),
{
    if reads_backwards_exec(prm.symmetry_mode) {
        best_backwards(buf, n, prm, p, g, Ghost(s))
    } else {
        best_by_length(buf, n, prm, p, g, Ghost(s))
    }
}

/// Whether the gap after `p` is an open loop (see `open_loop`).
fn loop_is_open(buf: &Vec<u8>, n: usize, m: SymmetryMode, p: usize, g: usize, Ghost(s): Ghost<Seq<u8>>) -> (r: bool)
    requires
        buf@ == buffer_of(s),
        n == s.len(),
        n <= (usize::MAX - 2) / 2,
        p + g <= n,
    ensures
        r == open_loop(s, m, p as int, g as int),
{
    if reads_backwards_exec(m) && g >= 2 {
        !pair_ok(buf, n, m, p + 1, g - 2, 1, 0, Ghost(s))
    } else {
        true
    }
}

/// Searches `seq` for repeats. The parameters are first checked, on their own and
/// against the length of `seq`; a search with parameters that pass reports, for
/// each placement of the arms in turn (by the end of the first arm, then by gap)
/// whose gap is an open loop, the longest admissible repeat there.
pub fn find_irs(prm: &SearchParams, seq: &Vec<u8>) -> (r: Result<Vec<RepeatRecord>, ParamError>)
    ensures
        r matches Err(e) ==> search_error(*prm, seq@.len() as usize) == Some(e),
        r matches Ok(v) ==> search_error(*prm, seq@.len() as usize) is None && v@ == repeats(seq@, *prm),
        r is Ok <==> search_error(*prm, seq@.len() as usize) is None,
{
    match check_construction(prm.min_len, prm.max_len, prm.mismatches) {
        Err(e) => {
            return Err(e);
        },
        Ok(()) => {},
    }
    let n = seq.len();
    match prm.check_bounds(n) {
        Err(e) => {
            return Err(e);
        },
        Ok(()) => {},
    }
    if n > MAX_SEQUENCE_LEN {
        return Err(ParamError::SequenceTooLong);
    }
    let ghost s = seq@;
    let buf = build_buffer(seq);
    let mut out: Vec<RepeatRecord> = Vec::new();
    let mut p: usize = 0;
    while p <= n
        invariant
            buf@ == buffer_of(s),
            s == seq@,
            n == s.len(),
            n <= (usize::MAX - 2) / 2,
            prm.wf(),
            prm.max_gap < n,
            p <= n + 1,
            out@ == records_before(s, *prm, p as nat),
        decreases n + 1 - p,
    {
        let mut g: usize = 0;
        while g <= prm.max_gap
            invariant
                buf@ == buffer_of(s),
                s == seq@,
                n == s.len(),
                n <= (usize::MAX - 2) / 2,
                prm.wf(),
                prm.max_gap < n,
                p <= n,
                g <= prm.max_gap + 1,
                out@ == records_before(s, *prm, p as nat) + row_records(s, *prm, p as int, g as nat),
            decreases prm.max_gap + 1 - g,
        {
            let ghost before = out@;
            if p + g <= n && loop_is_open(&buf, n, prm.symmetry_mode, p, g, Ghost(s)) {
                match best_at(&buf, n, prm, p, g, Ghost(s)) {
                    Some((l, c)) => {
                        proof {
                            let w = choose|l2: int| is_best(s, *prm, p as int, g as int, l2);
                            assert(is_best(s, *prm, p as int, g as int, w));
                            assert(w == l as int);
                        }
                        out.push(RepeatRecord { left: p - l, right: p + g, len: l, mismatches: c });
                    },
                    None => {},
                }
            }
            proof {
                assert(row_records(s, *prm, p as int, (g + 1) as nat) == row_records(s, *prm, p as int, g as nat)
                    + placement_records(s, *prm, p as int, g as int));
                assert(out@ =~= records_before(s, *prm, p as nat) + row_records(s, *prm, p as int, (g + 1) as nat));
            }
            g = g + 1;
        }
        proof {
            assert(records_before(s, *prm, (p + 1) as nat) == records_before(s, *prm, p as nat)
                + row_records(s, *prm, p as int, (prm.max_gap + 1) as nat));
        }
        p = p + 1;
    }
    Ok(out)
}

} // verus!
