use ssui_lib::error::TransferError;
use ssui_lib::merge::{check_output_size, digest_matches_hex, finalize, merge_parts, verify_output};

const ABC_SHA256: &str = "ba7816bf8f01cfea414140de5dae2223b00361a396177a9cb410ff61f20015ad";

#[test]
fn parts_are_joined_in_index_order() {
    let parts = vec![vec![1u8, 2], vec![3], vec![4, 5, 6]];
    assert_eq!(merge_parts(&parts), Ok(vec![1, 2, 3, 4, 5, 6]));
}

#[test]
fn empty_part_is_refused() {
    let parts = vec![vec![1u8, 2], vec![], vec![4]];
    assert_eq!(merge_parts(&parts), Err(TransferError::ChunkEmpty));
    assert_eq!(finalize(&parts, 3, None), Err(TransferError::ChunkEmpty));
}

#[test]
fn output_of_wrong_length_is_refused() {
    assert_eq!(verify_output(b"abc", 4, None), Err(TransferError::SizeMismatch));
    assert_eq!(finalize(&vec![b"ab".to_vec()], 3, None), Err(TransferError::SizeMismatch));
}

#[test]
fn output_with_expected_digest_is_accepted() {
    assert_eq!(verify_output(b"abc", 3, Some(ABC_SHA256.as_bytes())), Ok(()));
    assert_eq!(verify_output(b"abc", 3, Some(ABC_SHA256.to_uppercase().as_bytes())), Ok(()));
    let parts = vec![b"a".to_vec(), b"bc".to_vec()];
    assert_eq!(finalize(&parts, 3, Some(ABC_SHA256.as_bytes())), Ok(b"abc".to_vec()));
}

#[test]
fn output_with_other_digest_is_refused() {
    assert_eq!(verify_output(b"abd", 3, Some(ABC_SHA256.as_bytes())), Err(TransferError::HashMismatch));
    assert_eq!(verify_output(b"abc", 3, Some(b"ba78")), Err(TransferError::HashMismatch));
}

#[test]
fn empty_expected_digest_is_not_checked() {
    assert_eq!(verify_output(b"abd", 3, Some(b"")), Ok(()));
}

#[test]
fn hex_digest_comparison() {
    assert!(digest_matches_hex(&[0xba, 0x78], b"ba78"));
    assert!(digest_matches_hex(&[0xba, 0x78], b"BA78"));
    assert!(!digest_matches_hex(&[0xba, 0x78], b"ba79"));
    assert!(!digest_matches_hex(&[0xba, 0x78], b"ba7"));
    assert!(!digest_matches_hex(&[0xba, 0x78], b"bg78"));
    assert!(digest_matches_hex(&[], b""));
}

#[test]
fn in_place_output_length() {
    assert_eq!(check_output_size(10, 10), Ok(()));
    assert_eq!(check_output_size(9, 10), Err(TransferError::SizeMismatch));
}
