//! What holds of every search result: each record lies inside the sequence and
//! keeps within the parameters, each placement reports at most once and only its
//! longest repeat, and a larger mismatch budget never reports fewer repeats.
use vstd::prelude::*;
use crate::params::SearchParams;
use crate::buffer::{buffer_of, lemma_buffer_layout};
use crate::symbols::{compatible, complement_of};
use crate::params::complements;
use crate::engine::{
    RepeatRecord, admissible, is_best, open_loop, record_at, placement_records, row_records,
    records_before, repeats, mismatch_count, left_index, outer_pair,
};

verus! {

/// Where the first arm of a record ends.
pub open spec fn arm_end(r: RepeatRecord) -> int {
    r.left + r.len
}

/// The width of a record's gap.
pub open spec fn gap_of(r: RepeatRecord) -> int {
    r.right - r.left - r.len
}

/// `r` is the longest admissible repeat of an open-loop placement of gap at most
/// `max_gap`.
pub open spec fn reported(s: Seq<u8>, prm: SearchParams, r: RepeatRecord) -> bool {
    &&& 0 <= gap_of(r) <= prm.max_gap
    &&& open_loop(s, prm.symmetry_mode, arm_end(r), gap_of(r))
    &&& is_best(s, prm, arm_end(r), gap_of(r), r.len as int)
    &&& r == record_at(s, prm, arm_end(r), gap_of(r), r.len as int)
}

/// Record `a` comes before record `b`: by the end of the first arm, then by gap.
pub open spec fn placed_before(a: RepeatRecord, b: RepeatRecord) -> bool {
    arm_end(a) < arm_end(b) || (arm_end(a) == arm_end(b) && gap_of(a) < gap_of(b))
}

proof fn lemma_placement(s: Seq<u8>, prm: SearchParams, p: int, g: int)
    requires
        s.len() <= usize::MAX,
        0 <= p,
        0 <= g <= prm.max_gap,
    ensures
        forall|i: int| 0 <= i < placement_records(s, prm, p, g).len() ==> {
            let r = #[trigger] placement_records(s, prm, p, g)[i];
            reported(s, prm, r) && arm_end(r) == p && gap_of(r) == g
        },
        placement_records(s, prm, p, g).len() <= 1,
{
    if open_loop(s, prm.symmetry_mode, p, g) && exists|l: int| is_best(s, prm, p, g, l) {
        let l = choose|l: int| is_best(s, prm, p, g, l);
        let r = record_at(s, prm, p, g, l);
        assert(placement_records(s, prm, p, g) == seq![r]);
        assert(arm_end(r) == p);
        assert(gap_of(r) == g);
    }
}

proof fn lemma_row(s: Seq<u8>, prm: SearchParams, p: int, g: nat)
    requires
        s.len() <= usize::MAX,
        0 <= p,
        g <= prm.max_gap + 1,
    ensures
        forall|i: int| 0 <= i < row_records(s, prm, p, g).len() ==> {
            let r = #[trigger] row_records(s, prm, p, g)[i];
            reported(s, prm, r) && arm_end(r) == p && gap_of(r) < g
        },
        forall|i: int, j: int| 0 <= i < j < row_records(s, prm, p, g).len() ==> placed_before(
            #[trigger] row_records(s, prm, p, g)[i],
            #[trigger] row_records(s, prm, p, g)[j],
        ),
    decreases g,
{
    if g > 0 {
        let g1 = (g - 1) as nat;
        lemma_row(s, prm, p, g1);
        lemma_placement(s, prm, p, g1 as int);
        let a = row_records(s, prm, p, g1);
        let b = placement_records(s, prm, p, g1 as int);
        assert(row_records(s, prm, p, g) == a + b);
        assert forall|i: int| 0 <= i < (a + b).len() implies {
            let r = #[trigger] (a + b)[i];
            reported(s, prm, r) && arm_end(r) == p && gap_of(r) < g
        } by {
            if i >= a.len() {
                assert((a + b)[i] == b[i - a.len()]);
            }
        }
        assert forall|i: int, j: int| 0 <= i < j < (a + b).len() implies placed_before(
            #[trigger] (a + b)[i],
            #[trigger] (a + b)[j],
        ) by {
            if j >= a.len() {
                assert((a + b)[j] == b[j - a.len()]);
                assert(i < a.len());
                assert((a + b)[i] == a[i]);
            } else {
                assert((a + b)[i] == a[i]);
                assert((a + b)[j] == a[j]);
            }
        }
    }
}

proof fn lemma_before(s: Seq<u8>, prm: SearchParams, p: nat)
    requires
        s.len() <= usize::MAX,
    ensures
        forall|i: int| 0 <= i < records_before(s, prm, p).len() ==> {
            let r = #[trigger] records_before(s, prm, p)[i];
            reported(s, prm, r) && arm_end(r) < p
        },
        forall|i: int, j: int| 0 <= i < j < records_before(s, prm, p).len() ==> placed_before(
            #[trigger] records_before(s, prm, p)[i],
            #[trigger] records_before(s, prm, p)[j],
        ),
    decreases p,
{
    if p > 0 {
        let p1 = (p - 1) as nat;
        lemma_before(s, prm, p1);
        lemma_row(s, prm, p1 as int, (prm.max_gap + 1) as nat);
        let a = records_before(s, prm, p1);
        let b = row_records(s, prm, p1 as int, (prm.max_gap + 1) as nat);
        assert(records_before(s, prm, p) == a + b);
        assert forall|i: int| 0 <= i < (a + b).len() implies {
            let r = #[trigger] (a + b)[i];
            reported(s, prm, r) && arm_end(r) < p
        } by {
            if i >= a.len() {
                assert((a + b)[i] == b[i - a.len()]);
            } else {
                assert((a + b)[i] == a[i]);
            }
        }
        assert forall|i: int, j: int| 0 <= i < j < (a + b).len() implies placed_before(
            #[trigger] (a + b)[i],
            #[trigger] (a + b)[j],
        ) by {
            if j >= a.len() {
                assert((a + b)[j] == b[j - a.len()]);
                if i >= a.len() {
                    assert((a + b)[i] == b[i - a.len()]);
                } else {
                    assert((a + b)[i] == a[i]);
                }
            } else {
                assert((a + b)[i] == a[i]);
                assert((a + b)[j] == a[j]);
            }
        }
    }
}

/// Every reported repeat is the longest admissible one of its placement, and its
/// first arm's first symbol matches its partner (after complementing where the
/// mode asks for it), so no repeat ends on a mismatch. It lies inside the sequence: both arms, and so every symbol
/// pair compared for it, stand in `[0, n)`, clear of the buffer's sentinels at `n`
/// and `2n + 1`; read from the buffer, each pair is the sequence's symbol and the
/// complement kept at the mirrored position. Its arms are disjoint with a gap of at most `max_gap` between
/// them, its length is within `[min_len, max_len]`, and its mismatch count is the
/// number of its pairs that do not match, within the budget.
pub proof fn lemma_records_inside_sequence(s: Seq<u8>, prm: SearchParams, i: int)
    requires
        s.len() <= usize::MAX,
        0 <= i < repeats(s, prm).len(),
    ensures
        ({
            let r = repeats(s, prm)[i];
            &&& prm.min_len <= r.len <= prm.max_len
            &&& r.left + r.len <= r.right <= r.left + r.len + prm.max_gap
            &&& r.right + r.len <= s.len()
            &&& r.mismatches == mismatch_count(s, prm.symmetry_mode, arm_end(r), gap_of(r), r.len as int, r.len as nat)
            &&& r.mismatches <= prm.mismatches
            &&& is_best(s, prm, arm_end(r), gap_of(r), r.len as int)
            &&& left_index(prm.symmetry_mode, arm_end(r), r.len as int, outer_pair(prm.symmetry_mode, r.len as int))
                == r.left
            &&& compatible(
                s[r.left as int],
                if complements(prm.symmetry_mode) {
                    complement_of(s[r.right + outer_pair(prm.symmetry_mode, r.len as int)])
                } else {
                    s[r.right + outer_pair(prm.symmetry_mode, r.len as int)]
                },
            )
            &&& forall|k: int| 0 <= k < r.len ==> r.left <= #[trigger] left_index(prm.symmetry_mode, arm_end(r), r.len as int, k) < r.left + r.len
            &&& forall|k: int| #![trigger left_index(prm.symmetry_mode, arm_end(r), r.len as int, k)]
                0 <= k < r.len ==> {
                &&& buffer_of(s)[left_index(prm.symmetry_mode, arm_end(r), r.len as int, k)]
                    == s[left_index(prm.symmetry_mode, arm_end(r), r.len as int, k)]
                &&& buffer_of(s)[r.right + k] == s[r.right + k]
                &&& buffer_of(s)[2 * s.len() as int - (r.right + k)] == complement_of(s[r.right + k])
            }
        }),
{
    lemma_before(s, prm, s.len() + 1);
    let r = repeats(s, prm)[i];
    assert forall|k: int| #![trigger left_index(prm.symmetry_mode, arm_end(r), r.len as int, k)]
        0 <= k < r.len implies {
        &&& buffer_of(s)[left_index(prm.symmetry_mode, arm_end(r), r.len as int, k)]
            == s[left_index(prm.symmetry_mode, arm_end(r), r.len as int, k)]
        &&& buffer_of(s)[r.right + k] == s[r.right + k]
        &&& buffer_of(s)[2 * s.len() as int - (r.right + k)] == complement_of(s[r.right + k])
    } by {
        let i = left_index(prm.symmetry_mode, arm_end(r), r.len as int, k);
        lemma_buffer_layout(s, i);
        lemma_buffer_layout(s, r.right + k);
    }
}

/// Each placement (end of the first arm and gap) is reported at most once, records
/// come in order of placement, and each record is the longest admissible repeat of
/// its placement: no longer arm length fits the parameters there.
pub proof fn lemma_records_maximal(s: Seq<u8>, prm: SearchParams, i: int, j: int)
    requires
        s.len() <= usize::MAX,
        0 <= i < j < repeats(s, prm).len(),
    ensures
        placed_before(repeats(s, prm)[i], repeats(s, prm)[j]),
        arm_end(repeats(s, prm)[i]) != arm_end(repeats(s, prm)[j]) || gap_of(repeats(s, prm)[i]) != gap_of(
            repeats(s, prm)[j],
        ),
        forall|l: int| repeats(s, prm)[i].len < l ==> !#[trigger] admissible(
            s,
            prm,
            arm_end(repeats(s, prm)[i]),
            gap_of(repeats(s, prm)[i]),
            l,
        ),
{
    lemma_before(s, prm, s.len() + 1);
}


/// A placement with an admissible length has a longest one.
proof fn lemma_best_exists(s: Seq<u8>, prm: SearchParams, p: int, g: int, l0: int)
    requires
        admissible(s, prm, p, g, l0),
    ensures
        exists|l: int| is_best(s, prm, p, g, l),
    decreases prm.max_len - l0,
{
    if !is_best(s, prm, p, g, l0) {
        let l1 = choose|l1: int| l0 < l1 && #[trigger] admissible(s, prm, p, g, l1);
        lemma_best_exists(s, prm, p, g, l1);
    }
}

proof fn lemma_placement_budget(s: Seq<u8>, lo: SearchParams, hi: SearchParams, p: int, g: int)
    requires
        lo.min_len == hi.min_len,
        lo.max_len == hi.max_len,
        lo.max_gap == hi.max_gap,
        lo.symmetry_mode == hi.symmetry_mode,
        lo.mismatches <= hi.mismatches,
    ensures
        placement_records(s, lo, p, g).len() <= placement_records(s, hi, p, g).len(),
{
    if open_loop(s, lo.symmetry_mode, p, g) && exists|l: int| is_best(s, lo, p, g, l) {
        let l = choose|l: int| is_best(s, lo, p, g, l);
        assert(admissible(s, hi, p, g, l));
        lemma_best_exists(s, hi, p, g, l);
    }
}

proof fn lemma_row_budget(s: Seq<u8>, lo: SearchParams, hi: SearchParams, p: int, g: nat)
    requires
        lo.min_len == hi.min_len,
        lo.max_len == hi.max_len,
        lo.max_gap == hi.max_gap,
        lo.symmetry_mode == hi.symmetry_mode,
        lo.mismatches <= hi.mismatches,
    ensures
        row_records(s, lo, p, g).len() <= row_records(s, hi, p, g).len(),
    decreases g,
{
    if g > 0 {
        lemma_row_budget(s, lo, hi, p, (g - 1) as nat);
        lemma_placement_budget(s, lo, hi, p, g - 1);
    }
}

proof fn lemma_before_budget(s: Seq<u8>, lo: SearchParams, hi: SearchParams, p: nat)
    requires
        lo.min_len == hi.min_len,
        lo.max_len == hi.max_len,
        lo.max_gap == hi.max_gap,
        lo.symmetry_mode == hi.symmetry_mode,
        lo.mismatches <= hi.mismatches,
    ensures
        records_before(s, lo, p).len() <= records_before(s, hi, p).len(),
    decreases p,
{
    if p > 0 {
        lemma_before_budget(s, lo, hi, (p - 1) as nat);
        lemma_row_budget(s, lo, hi, p - 1, (lo.max_gap + 1) as nat);
    }
}

/// Raising the mismatch budget, all else unchanged, never reports fewer repeats.
pub proof fn lemma_budget_monotone(s: Seq<u8>, lo: SearchParams, hi: SearchParams)
    requires
        lo.min_len == hi.min_len,
        lo.max_len == hi.max_len,
        lo.max_gap == hi.max_gap,
        lo.symmetry_mode == hi.symmetry_mode,
        lo.mismatches <= hi.mismatches,
    ensures
        repeats(s, lo).len() <= repeats(s, hi).len(),
{
    lemma_before_budget(s, lo, hi, s.len() + 1);
}


/// A search depends on the sequence and the parameters alone: the records of two
/// searches of the same sequence with the same parameters are equal, in the same
/// order.
pub proof fn lemma_search_deterministic(
    s: Seq<u8>,
    prm: SearchParams,
    first: Seq<RepeatRecord>,
    second: Seq<RepeatRecord>,
)
    requires
        first == repeats(s, prm),
        second == repeats(s, prm),
    ensures
        first == second,
        forall|i: int| 0 <= i < first.len() ==> #[trigger] first[i] == second[i],
{
}

} // verus!
