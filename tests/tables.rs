use iupacpal::buffer::build_buffer;
use iupacpal::config::Config;
use iupacpal::input::normalize_sequence;
use iupacpal::params::{SearchParams, SymmetryMode};
use iupacpal::symbols::{complement, symbols_match};
use std::str::FromStr;

#[test]
fn complement_pairs() {
    assert_eq!(complement(b'a'), b't');
    assert_eq!(complement(b't'), b'a');
    assert_eq!(complement(b'c'), b'g');
    assert_eq!(complement(b'r'), b'y');
    assert_eq!(complement(b'n'), b'n');
    assert_eq!(complement(b'G'), b'C');
    assert_eq!(complement(b'$'), b'$');
}

#[test]
fn match_matrix() {
    assert!(symbols_match(b'a', b'a'));
    assert!(!symbols_match(b'a', b'c'));
    assert!(symbols_match(b'r', b'a'));
    assert!(symbols_match(b'a', b'r'));
    assert!(!symbols_match(b'r', b'y'));
    assert!(symbols_match(b'n', b'g'));
    assert!(symbols_match(b'A', b'a'));
    assert!(!symbols_match(b'$', b'n'));
    assert!(!symbols_match(b'#', b'#'));
}

#[test]
fn buffer_layout() {
    assert_eq!(build_buffer(&b"aacg".to_vec()), b"aacg$cgtt#".to_vec());
}

#[test]
fn mode_names() {
    assert_eq!(SymmetryMode::from_str("inverted"), Ok(SymmetryMode::Inverted));
    assert_eq!(SymmetryMode::from_str("I"), Ok(SymmetryMode::Inverted));
    assert_eq!(SymmetryMode::from_str("IC"), Ok(SymmetryMode::InvertedComplementary));
    assert_eq!(SymmetryMode::from_str("Direct"), Ok(SymmetryMode::Direct));
    assert_eq!(SymmetryMode::from_str("direct_complementary"), Ok(SymmetryMode::DirectComplementary));
    assert_eq!(SymmetryMode::parse("dc"), Some(SymmetryMode::DirectComplementary));
    assert!(SymmetryMode::from_str("sideways").is_err());
    assert_eq!(SymmetryMode::default(), SymmetryMode::Inverted);
}

#[test]
fn normalizes_sequence_text() {
    assert_eq!(normalize_sequence(b"ACg\ntN\r\nr"), b"acgtnr".to_vec());
}

#[test]
fn defaults() {
    let p = SearchParams::default();
    assert_eq!((p.min_len, p.max_len, p.max_gap, p.mismatches), (10, 100, 100, 0));
    let c = Config::default();
    assert_eq!(c.input_file, "input.fasta");
    assert_eq!(c.seq_name, "seq0");
    assert_eq!(c.output_file, "iupacpal.out");
    assert_eq!(c.params, p);
}
