use iupacpal::engine::{find_irs, RepeatRecord};
use iupacpal::params::{ParamError, SearchParams, SymmetryMode};

fn complement_base(c: u8) -> u8 {
    match c {
        b'a' => b't',
        b't' | b'u' => b'a',
        b'c' => b'g',
        b'g' => b'c',
        b'r' => b'y',
        b'y' => b'r',
        b'k' => b'm',
        b'm' => b'k',
        b'b' => b'v',
        b'v' => b'b',
        b'd' => b'h',
        b'h' => b'd',
        _ => c,
    }
}

fn base_bits(c: u8) -> u8 {
    match c {
        b'a' => 1,
        b'c' => 2,
        b'g' => 4,
        b't' | b'u' => 8,
        b'r' => 5,
        b'y' => 10,
        b's' => 6,
        b'w' => 9,
        b'k' => 12,
        b'm' => 3,
        b'b' => 14,
        b'd' => 13,
        b'h' => 11,
        b'v' => 7,
        b'n' => 15,
        _ => 0,
    }
}

fn match_u8(a: u8, b: u8) -> bool {
    base_bits(a) & base_bits(b) != 0
}

// Rebuilds the sentinel-padded buffer and checks every reported repeat against it:
// both arms inside the sequence, the first arm's first symbol matching the
// complement of its partner, the recorded mismatches equal to the pairs that do not
// match, and within the budget.
fn correct_truncation_helper(params: &SearchParams, seq: &[u8]) {
    let n = seq.len();
    params.check_bounds(n).unwrap();
    let irs = find_irs(params, &seq.to_vec()).unwrap();
    let mut s = vec![0u8; 2 * n + 2];
    for i in 0..n {
        s[i] = seq[i];
        s[n + 1 + i] = complement_base(seq[n - 1 - i]);
    }
    s[n] = b'$';
    s[2 * n + 1] = b'#';
    for r in irs {
        assert!(r.len >= params.min_len && r.len <= params.max_len);
        assert!(r.left + r.len <= r.right && r.right + r.len <= n);
        let (left, right) = (r.left, r.right + r.len - 1);
        assert!(match_u8(s[left], complement_base(s[right])));
        let mut bad = 0;
        for k in 0..r.len {
            let left = r.left + r.len - 1 - k;
            let right = r.right + k;
            assert!(left < n && right < n);
            let b = s[2 * n - right];
            if !match_u8(s[left], b) {
                bad += 1;
            }
        }
        assert_eq!(bad, r.mismatches);
        assert!(r.mismatches <= params.mismatches);
    }
}

const TRUNCATION_SEQ: &[u8] = b"aattgcgcaatntttacgcgtaaaaattttcgnatcgatrygcatgcaatt";

#[test]
fn test_invalid_min_len_less_than_two() {
    assert!(SearchParams::new(0, 100, 0, 0).is_err());
}

#[test]
fn test_correct_truncation_one() {
    let params = SearchParams::new(8, 100, 10, 6).unwrap();
    correct_truncation_helper(&params, b"acgtnnacgtacgtaaccggttacgtnnacgt");
}

#[test]
fn test_correct_truncation_two() {
    let params = SearchParams::new(8, 100, 10, 6).unwrap();
    correct_truncation_helper(&params, TRUNCATION_SEQ);
}

#[test]
fn test_correct_truncation_three() {
    let params = SearchParams::new(6, 100, 0, 5).unwrap();
    correct_truncation_helper(&params, TRUNCATION_SEQ);
}

#[test]
fn test_irs_edge_gap() {
    // one hairpin whose arms touch both ends of the sequence, around a gap of 3
    let arm = b"gattacagcctagc";
    let mut seq = arm.to_vec();
    seq.extend_from_slice(b"aca");
    for &c in arm.iter().rev() {
        seq.push(complement_base(c));
    }
    let params = SearchParams::new(14, 100, 3, 0).unwrap();
    params.check_bounds(seq.len()).unwrap();
    let irs = find_irs(&params, &seq).unwrap();
    assert_eq!(irs.len(), 1);
    assert_eq!(irs[0], RepeatRecord { left: 0, right: 17, len: 14, mismatches: 0 });
}

#[test]
fn test_irs_8100_n() {
    let seq = vec![b'n'; 8100];
    let params = SearchParams::new(3, 100, 20, 0).unwrap();
    params.check_bounds(seq.len()).unwrap();
    assert_eq!(find_irs(&params, &seq).unwrap().len(), 16_189);
}

#[test]
fn test_irs_8100_n_with_mismatches() {
    let seq = vec![b'n'; 8100];
    let params = SearchParams::new(3, 100, 20, 2).unwrap();
    params.check_bounds(seq.len()).unwrap();
    assert_eq!(find_irs(&params, &seq).unwrap().len(), 16_189);
}

fn mk_test_symmetry(seq_str: &str, symmetry_mode: SymmetryMode, expected: usize) {
    let seq = seq_str.as_bytes().to_vec();
    let params1 = SearchParams::with_mode(3, 7, 2, 0, symmetry_mode).unwrap();
    let irs = find_irs(&params1, &seq).unwrap();
    assert_eq!(irs.len(), expected);
}

#[test]
fn test_simple_direct_mode() {
    mk_test_symmetry("aataat", SymmetryMode::Direct, 1);
    mk_test_symmetry("aataat", SymmetryMode::default(), 0);
}

#[test]
fn test_simple_direct_complementary_mode() {
    mk_test_symmetry("aaattt", SymmetryMode::DirectComplementary, 1);
}

#[test]
fn test_simple_inverted_complementary_mode() {
    mk_test_symmetry("aattaa", SymmetryMode::InvertedComplementary, 1);
    mk_test_symmetry("aattaa", SymmetryMode::default(), 0);
}

#[test]
fn test_simple_inverted_complementary_mode__() {
    mk_test_symmetry("atatat", SymmetryMode::default(), 1);
    // a direct repeat's gap is a spacer of width zero or more, so two arms of
    // three cannot both fit in six symbols here: "ata" and "tat" differ
    mk_test_symmetry("atatat", SymmetryMode::Direct, 0);
}

#[test]
fn direct_mode_record_coordinates() {
    let params = SearchParams::with_mode(3, 7, 2, 0, SymmetryMode::Direct).unwrap();
    let irs = find_irs(&params, &b"aataat".to_vec()).unwrap();
    assert_eq!(irs, vec![RepeatRecord { left: 0, right: 3, len: 3, mismatches: 0 }]);
}

#[test]
fn inverted_mode_record_coordinates() {
    let params = SearchParams::new(3, 7, 2, 0).unwrap();
    let irs = find_irs(&params, &b"atatat".to_vec()).unwrap();
    assert_eq!(irs, vec![RepeatRecord { left: 0, right: 3, len: 3, mismatches: 0 }]);
}

#[test]
fn longest_length_is_reported_with_its_mismatches() {
    // around the centre the second pair out is the only one that does not match
    let params = SearchParams::new(3, 10, 0, 1).unwrap();
    let irs = find_irs(&params, &b"caaacgattg".to_vec()).unwrap();
    assert!(irs.contains(&RepeatRecord { left: 0, right: 5, len: 5, mismatches: 1 }));
}

#[test]
fn repeat_never_ends_on_a_mismatch() {
    // the only placement long enough would end on c against the complement of c
    let params = SearchParams::new(2, 10, 0, 1).unwrap();
    assert_eq!(find_irs(&params, &b"catc".to_vec()).unwrap(), vec![]);
    // there the repeat is cut back to the last matching pair
    let params = SearchParams::new(3, 10, 0, 1).unwrap();
    let irs = find_irs(&params, &b"caaacgtttc".to_vec()).unwrap();
    assert!(irs.contains(&RepeatRecord { left: 1, right: 5, len: 4, mismatches: 0 }));
    assert!(!irs.iter().any(|r| r.len == 5));
}

#[test]
fn forward_repeat_starts_on_a_match() {
    // "gaat" against "caat" has one mismatch, but on its leading pair g/c
    let params = SearchParams::with_mode(3, 4, 1, 1, SymmetryMode::Direct).unwrap();
    let seq = b"gaatcaat".to_vec();
    let irs = find_irs(&params, &seq).unwrap();
    assert!(!irs.iter().any(|r| r.len == 4));
    assert!(irs.contains(&RepeatRecord { left: 1, right: 5, len: 3, mismatches: 0 }));
    assert!(irs.iter().all(|r| seq[r.left] == seq[r.right]));
}

#[test]
fn max_len_caps_the_arm() {
    let params = SearchParams::new(3, 4, 0, 0).unwrap();
    let irs = find_irs(&params, &b"aaaacgtttt".to_vec()).unwrap();
    assert!(irs.contains(&RepeatRecord { left: 1, right: 5, len: 4, mismatches: 0 }));
    assert!(irs.iter().all(|r| r.len <= 4));
}

#[test]
fn larger_budget_reports_no_fewer() {
    let seq = b"acgtrynacgttgcaagctnagcttacgatcgatcgtagcatgc".to_vec();
    let mut last = 0;
    for m in 0..3 {
        let params = SearchParams::new(3, 20, 4, m).unwrap();
        let count = find_irs(&params, &seq).unwrap().len();
        assert!(count >= last);
        last = count;
    }
    assert!(last > 0);
}

#[test]
fn search_twice_gives_the_same_records() {
    let seq = b"acgtrynacgttgcaagctnagcttacgatcgatcgtagcatgc".to_vec();
    let params = SearchParams::with_mode(3, 20, 4, 1, SymmetryMode::Direct).unwrap();
    let a = find_irs(&params, &seq).unwrap();
    let b = find_irs(&params, &seq).unwrap();
    assert_eq!(a, b);
}

#[test]
fn one_record_per_placement() {
    let seq = vec![b'n'; 60];
    let params = SearchParams::new(3, 100, 5, 0).unwrap();
    let irs = find_irs(&params, &seq).unwrap();
    for w in irs.windows(2) {
        let a = (w[0].left + w[0].len, w[0].right);
        let b = (w[1].left + w[1].len, w[1].right);
        assert!(a < b);
    }
}

#[test]
fn parameter_errors() {
    assert_eq!(SearchParams::new(1, 10, 0, 0), Err(ParamError::MinLenTooSmall));
    assert_eq!(SearchParams::new(5, 4, 0, 0), Err(ParamError::MinLenAboveMaxLen));
    assert_eq!(SearchParams::new(3, 4, 0, 3), Err(ParamError::TooManyMismatches));
    assert!(SearchParams::new(2, 2, 0, 1).is_ok());
    let p = SearchParams::new(5, 10, 3, 1).unwrap();
    assert_eq!(p.check_bounds(5), Err(ParamError::MinLenNotBelowLength));
    assert!(p.check_bounds(6).is_ok());
    let q = SearchParams::new(2, 10, 8, 1).unwrap();
    assert_eq!(q.check_bounds(8), Err(ParamError::MaxGapNotBelowLength));
    let bad = SearchParams { min_len: 2, max_len: 10, max_gap: 0, mismatches: 1, symmetry_mode: SymmetryMode::Direct };
    assert_eq!(bad.check_bounds(1), Err(ParamError::MinLenNotBelowLength));
    let odd = SearchParams { min_len: 2, max_len: 10, max_gap: 0, mismatches: 5, symmetry_mode: SymmetryMode::Direct };
    assert_eq!(odd.check_bounds(4), Err(ParamError::MismatchesNotBelowLength));
}

#[test]
fn search_rejects_bad_parameters() {
    let p = SearchParams::new(5, 10, 3, 1).unwrap();
    assert_eq!(find_irs(&p, &b"acgt".to_vec()), Err(ParamError::MinLenNotBelowLength));
    let bad = SearchParams { min_len: 1, max_len: 10, max_gap: 0, mismatches: 0, symmetry_mode: SymmetryMode::Direct };
    assert_eq!(find_irs(&bad, &b"acgtacgt".to_vec()), Err(ParamError::MinLenTooSmall));
}

#[test]
fn empty_sequence_is_refused() {
    let p = SearchParams::new(2, 10, 0, 1).unwrap();
    assert_eq!(find_irs(&p, &Vec::new()), Err(ParamError::MinLenNotBelowLength));
}

#[test]
fn ambiguity_codes_match_their_bases() {
    // r (a or g) pairs with y (c or t) through the complement, n with anything
    let params = SearchParams::new(3, 10, 0, 0).unwrap();
    let irs = find_irs(&params, &b"rngnny".to_vec()).unwrap();
    assert!(irs.contains(&RepeatRecord { left: 0, right: 3, len: 3, mismatches: 0 }));
}
