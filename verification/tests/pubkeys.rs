use dex_indexer::pubkey::{array_to_pubkey, ParsePubkeyError, Pubkey};
use std::str::FromStr;

#[test]
fn words_become_little_endian_bytes() {
    let key = array_to_pubkey([0x0807060504030201, 0x100f0e0d0c0b0a09, 0, u64::MAX]);
    let bytes = key.to_bytes();
    for i in 0..16 {
        assert_eq!(bytes[i], (i + 1) as u8);
    }
    for i in 16..24 {
        assert_eq!(bytes[i], 0);
    }
    for i in 24..32 {
        assert_eq!(bytes[i], 0xff);
    }
}

#[test]
fn base58_text_matches_the_chain_sdk() {
    let mut bytes = [0u8; 32];
    for i in 0..32 {
        bytes[i] = (i * 7 + 3) as u8;
    }
    let key = Pubkey::new_from_array(bytes);
    let theirs = solana_sdk::pubkey::Pubkey::new_from_array(bytes);
    assert_eq!(key.to_base58(), theirs.to_string());
    assert_ne!(key.to_base58().as_bytes(), &bytes[..]);
}

#[test]
fn base58_round_trip() {
    let text = "srmqPvymJeFKQ4zGQed1GFppgkRHL9kaELCbyksJtPX";
    let key = Pubkey::from_base58(text).unwrap();
    assert_eq!(key.to_base58(), text);
    let theirs = solana_sdk::pubkey::Pubkey::from_str(text).unwrap();
    assert_eq!(key.to_bytes(), theirs.to_bytes());
}

#[test]
fn texts_that_are_no_address() {
    assert_eq!(Pubkey::from_base58("0OIl"), Err(ParsePubkeyError::Invalid));
    assert_eq!(Pubkey::from_base58("abc"), Err(ParsePubkeyError::WrongSize));
    let long = "1".repeat(45);
    assert_eq!(Pubkey::from_base58(&long), Err(ParsePubkeyError::WrongSize));
    assert_eq!(Pubkey::from_base58(""), Err(ParsePubkeyError::WrongSize));
}

#[test]
fn decoded_bytes_need_length_32() {
    assert!(Pubkey::from_decoded(vec![0u8; 32]).is_ok());
    assert_eq!(Pubkey::from_decoded(vec![0u8; 31]), Err(ParsePubkeyError::WrongSize));
    assert_eq!(Pubkey::from_decoded(vec![0u8; 33]), Err(ParsePubkeyError::WrongSize));
    assert!(Pubkey::from_slice(&[9u8; 32]).is_some());
    assert!(Pubkey::from_slice(&[9u8; 5]).is_none());
}

#[test]
fn keys_compare_by_bytes() {
    let a = Pubkey::new_from_array([7u8; 32]);
    let b = Pubkey::new_from_array([7u8; 32]);
    let mut other = [7u8; 32];
    other[31] = 8;
    let c = Pubkey::new_from_array(other);
    assert!(a == b);
    assert!(a != c);
    assert_eq!(Pubkey::zero().to_bytes(), [0u8; 32]);
}

#[test]
fn derived_address_matches_the_chain_sdk() {
    let program = Pubkey::from_base58("833pSHchW8AWggrvx8394HHkH1cMHxdyYcDro8ABYUXC").unwrap();
    let market = Pubkey::new_from_array([11u8; 32]);
    let ours = Pubkey::derive(&market.to_bytes(), b"buy_log_pda_seed", &program).unwrap();
    let their_program = solana_sdk::pubkey::Pubkey::new_from_array(program.to_bytes());
    let (theirs, _) = solana_sdk::pubkey::Pubkey::find_program_address(
        &[&market.to_bytes(), b"buy_log_pda_seed"],
        &their_program,
    );
    assert_eq!(ours.to_bytes(), theirs.to_bytes());
    assert_ne!(ours.to_bytes(), market.to_bytes());
    // a seed of more than 32 bytes has no derived address
    assert!(Pubkey::derive(&[0u8; 33], b"x", &program).is_none());
}
