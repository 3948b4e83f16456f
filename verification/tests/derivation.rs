//! Address derivation, RLP encoding and word arithmetic checked on
//! concrete values.

use sha3::Digest;

use evmcore::blockchain::BlockChain;
use evmcore::context::{CTX, MSG, TX};
use evmcore::evm::EVM;
use evmcore::utils::{bool_to_u256, encode_rlp};
use evmcore::word::Word;

fn rlp(address: &Vec<u8>, nonce: u64) -> Vec<u8> {
    encode_rlp(address, Word::from_u64(nonce))
}

#[test]
fn rlp_nonce_encodings() {
    let addr = vec![0x94u8; 20];
    let mut head = vec![0xD6u8, 0x94u8];
    head.extend(addr.clone());

    let mut expected0 = head.clone();
    expected0.push(0x80);
    assert_eq!(rlp(&addr, 0), expected0);

    let mut expected1 = head.clone();
    expected1.push(0x01);
    assert_eq!(rlp(&addr, 1), expected1);

    let mut expected7f = head.clone();
    expected7f.push(0x7F);
    assert_eq!(rlp(&addr, 0x7F), expected7f);

    let mut expected80 = vec![0xD7u8, 0x94u8];
    expected80.extend(addr.clone());
    expected80.extend([0x81, 0x80]);
    assert_eq!(rlp(&addr, 0x80), expected80);

    let mut expected_ff = vec![0xD7u8, 0x94u8];
    expected_ff.extend(addr.clone());
    expected_ff.extend([0x81, 0xFF]);
    assert_eq!(rlp(&addr, 0xFF), expected_ff);

    let mut expected_100 = vec![0xD8u8, 0x94u8];
    expected_100.extend(addr.clone());
    expected_100.extend([0x82, 0x01, 0x00]);
    assert_eq!(rlp(&addr, 0x100), expected_100);

    let mut expected_ffff = vec![0xD8u8, 0x94u8];
    expected_ffff.extend(addr.clone());
    expected_ffff.extend([0x82, 0xFF, 0xFF]);
    assert_eq!(rlp(&addr, 0xFFFF), expected_ffff);

    let mut expected_10000 = vec![0xD9u8, 0x94u8];
    expected_10000.extend(addr.clone());
    expected_10000.extend([0x83, 0x01, 0x00, 0x00]);
    assert_eq!(rlp(&addr, 0x10000), expected_10000);
}

#[test]
fn create_installs_contract_at_derived_address() {
    // The caller stores the five initcode bytes at the end of a memory
    // word and runs CREATE over them; the initcode returns one byte of
    // runtime code.
    let caller_code = hex::decode("6460016000F36000526005601B6000F000").unwrap();
    let caller = Word::from_u64(0x42424242);
    let mut chain = BlockChain::new();
    let tx = TX::new(Word::from_u64(0x41414141), Word::from_u64(1000));
    let msg = MSG::new(
        Word::from_u64(0x41414141),
        caller,
        Vec::new(),
        Word::zero(),
        Word::from_u64(10_000_000),
    );
    let ctx = CTX::new(tx, msg, caller, caller_code);
    let mut vm = EVM::new(ctx);
    let (ok, _) = vm.run(&mut chain);
    assert!(ok);

    // Independently derive keccak256(RLP([caller, 0])) and keep its low
    // 20 bytes.
    let mut preimage = vec![0xD6u8, 0x94u8];
    preimage.extend([0u8; 16]);
    preimage.extend([0x42u8, 0x42, 0x42, 0x42]);
    preimage.push(0x80);
    let digest = sha3::Keccak256::digest(&preimage);
    let mut padded = vec![0u8; 12];
    padded.extend(&digest[12..32]);
    let expected = Word::from_be_bytes(&padded);

    assert_eq!(*vm.stack.last().unwrap(), expected);
    // The initcode returned memory[0..1], which is the zero byte; that
    // became the new account's runtime code.
    let account = chain.get_account(&expected);
    assert_eq!(account.code, vec![0u8]);
    // The creator's nonce was bumped on success.
    assert_eq!(chain.get_account(&caller).nonce, Word::from_u64(1));
}

#[test]
fn create2_uses_salted_derivation() {
    // Same layout as the CREATE test, with a salt of 0x99 pushed first.
    let caller_code = hex::decode("6460016000F360005260996005601B6000F500").unwrap();
    let caller = Word::from_u64(0x42424242);
    let mut chain = BlockChain::new();
    let tx = TX::new(Word::from_u64(0x41414141), Word::from_u64(1000));
    let msg = MSG::new(
        Word::from_u64(0x41414141),
        caller,
        Vec::new(),
        Word::zero(),
        Word::from_u64(10_000_000),
    );
    let ctx = CTX::new(tx, msg, caller, caller_code);
    let mut vm = EVM::new(ctx);
    let (ok, _) = vm.run(&mut chain);
    assert!(ok);

    let initcode = hex::decode("60016000F3").unwrap();
    let inner = sha3::Keccak256::digest(&initcode);
    let mut preimage = vec![0xFFu8];
    preimage.extend([0u8; 16]);
    preimage.extend([0x42u8, 0x42, 0x42, 0x42]);
    let mut salt = vec![0u8; 31];
    salt.push(0x99);
    preimage.extend(salt);
    preimage.extend(inner);
    let digest = sha3::Keccak256::digest(&preimage);
    let mut padded = vec![0u8; 12];
    padded.extend(&digest[12..32]);
    let expected = Word::from_be_bytes(&padded);

    assert_eq!(*vm.stack.last().unwrap(), expected);
    assert_eq!(chain.get_account(&expected).code, vec![0u8]);
}

#[test]
fn word_add_and_sub_wrap() {
    let one = Word::one();
    let max = Word::new(u128::MAX, u128::MAX);
    assert_eq!(max.wrapping_add(&one), Word::zero());
    assert_eq!(Word::zero().wrapping_sub(&one), max);
}

#[test]
fn word_byte_roundtrip() {
    let w = Word::new(0x0102030405060708090A0B0C0D0E0F10, 0x1112131415161718191A1B1C1D1E1F20);
    let bytes = w.to_be_bytes();
    assert_eq!(bytes.len(), 32);
    assert_eq!(bytes[0], 0x01);
    assert_eq!(bytes[31], 0x20);
    assert_eq!(Word::from_be_bytes(&bytes), w);
}

#[test]
fn word_mask_address_keeps_low_160_bits() {
    let w = Word::new(u128::MAX, u128::MAX);
    assert_eq!(w.mask_address(), Word::new(0xFFFF_FFFF, u128::MAX));
}

#[test]
fn sdiv_min_by_minus_one_wraps() {
    let min = Word::new(0x8000_0000_0000_0000_0000_0000_0000_0000, 0);
    let minus_one = Word::new(u128::MAX, u128::MAX);
    assert_eq!(min.sdiv_or_zero(&minus_one), min);
}

#[test]
fn exp_word_wraps_modulo_word_size() {
    let two = Word::from_u64(2);
    assert_eq!(two.exp_word(&Word::from_u64(10)), Word::from_u64(1024));
    assert_eq!(two.exp_word(&Word::from_u64(256)), Word::zero());
}

#[test]
fn mulmod_uses_the_wide_product() {
    // 2^255 * 2 overflows to zero under wrapping multiplication, but the
    // wide product 2^256 is congruent to 1 modulo 3.
    let big = Word::new(0x8000_0000_0000_0000_0000_0000_0000_0000, 0);
    let r = big.mulmod_or_zero(&Word::from_u64(2), &Word::from_u64(3));
    assert_eq!(r, Word::from_u64(1));
}

#[test]
fn hex_addresses_parse_into_accounts() {
    let mut chain = BlockChain::new();
    chain.add_contract("0xdeadBEEF", vec![0x00]);
    let account = chain.get_account(&Word::from_u64(0xDEAD_BEEF));
    assert_eq!(account.code, vec![0x00]);
}

#[test]
fn bool_conversion() {
    assert_eq!(bool_to_u256(true), Word::one());
    assert_eq!(bool_to_u256(false), Word::zero());
}
