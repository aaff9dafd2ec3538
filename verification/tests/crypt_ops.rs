use bitreel::crypt::{apply_all, CryptOp};
use bitreel::error::ErrorKind;

#[test]
fn swap_exchanges_first_with_index() {
    let mut sig = b"abcde".to_vec();
    assert!(CryptOp::Swap(4).apply(&mut sig).is_ok());
    assert_eq!(sig, b"ebcda".to_vec());
}

#[test]
fn slice_drops_prefix() {
    let mut sig = b"abcde".to_vec();
    assert!(CryptOp::Slice(2).apply(&mut sig).is_ok());
    assert_eq!(sig, b"cde".to_vec());
}

#[test]
fn reverse_reverses_whole_signature() {
    let mut sig = b"abcde".to_vec();
    assert!(CryptOp::Reverse.apply(&mut sig).is_ok());
    assert_eq!(sig, b"edcba".to_vec());
}

#[test]
fn three_step_sequence_reproduces_expected_string() {
    let ops = vec![CryptOp::Swap(2), CryptOp::Slice(1), CryptOp::Reverse];
    let out = apply_all(&ops, b"abcdef".to_vec()).unwrap();
    assert_eq!(out, b"fedab".to_vec());
}

#[test]
fn swap_index_at_length_is_out_of_range() {
    let mut sig = b"abcde".to_vec();
    let err = CryptOp::Swap(5).apply(&mut sig).unwrap_err();
    assert_eq!(err.kind, ErrorKind::IndexOutOfRange);
    assert_eq!(sig, b"abcde".to_vec());
}

#[test]
fn slice_index_at_length_is_out_of_range() {
    let mut sig = b"abcde".to_vec();
    let err = CryptOp::Slice(5).apply(&mut sig).unwrap_err();
    assert_eq!(err.kind, ErrorKind::IndexOutOfRange);
    assert_eq!(sig, b"abcde".to_vec());
}

#[test]
fn apply_all_stops_at_first_out_of_range_index() {
    let ops = vec![CryptOp::Slice(3), CryptOp::Swap(2)];
    let err = apply_all(&ops, b"abcde".to_vec()).unwrap_err();
    assert_eq!(err.kind, ErrorKind::IndexOutOfRange);
}

#[test]
fn swap_on_empty_signature_is_out_of_range() {
    let mut sig: Vec<u8> = Vec::new();
    let err = CryptOp::Swap(0).apply(&mut sig).unwrap_err();
    assert_eq!(err.kind, ErrorKind::IndexOutOfRange);
}

#[test]
fn statement_digits_become_the_index() {
    assert_eq!(CryptOp::swap(&b"xy(a,3)".to_vec()).unwrap(), CryptOp::Swap(3));
    assert_eq!(CryptOp::slice(&b"zz(a,17)".to_vec()).unwrap(), CryptOp::Slice(17));
}

#[test]
fn scattered_digits_run_together() {
    assert_eq!(CryptOp::swap(&b"a1b(x,2)".to_vec()).unwrap(), CryptOp::Swap(12));
}

#[test]
fn statement_without_digits_is_unknown_transform() {
    let err = CryptOp::swap(&b"xy(a,b)".to_vec()).unwrap_err();
    assert_eq!(err.kind, ErrorKind::UnknownTransform);
    let err = CryptOp::slice(&b"xy(a,b)".to_vec()).unwrap_err();
    assert_eq!(err.kind, ErrorKind::UnknownTransform);
}
