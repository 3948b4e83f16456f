//! Address-derivation helpers: the compact two-item RLP encoding of
//! `[address, nonce]`, Keccak-256 hashing (delegated to the `sha3` crate
//! behind a trusted wrapper), and the address computations for the two
//! contract-creation opcodes.

use vstd::prelude::*;
use vstd::arithmetic::div_mod::lemma_small_mod;
use vstd::arithmetic::mul::lemma_mul_inequality;
use vstd::arithmetic::power::{
    lemma_pow0, lemma_pow1, lemma_pow_adds, lemma_pow_increases, lemma_pow_multiplies, pow,
};

use sha3::Digest;
use vstd::string::StringSliceAdditionalSpecFns;

use crate::word::{be_nat, byte_of, Word};

verus! {

/// One as a word for true, zero for false.
pub fn bool_to_u256(value: bool) -> (r: Word)
    ensures
        value ==> r@ == 1,
        !value ==> r@ == 0,
{
    if value {
        Word::one()
    } else {
        Word::zero()
    }
}

/// The Keccak-256 digest of a byte string. The digest depends on the input
/// bytes alone; its 32 bytes are not given by any shorter description.
pub uninterp spec fn keccak256_of(data: Seq<u8>) -> Seq<u8>;

/// Relies on `sha3::Keccak256` through the `Digest` trait: the standard
/// Keccak-256 hash (rate 1088, capacity 512), producing 32 bytes that are a
/// function of the input alone.
#[verifier::external_body]
pub(crate) fn keccak256(data: &Vec<u8>) -> (r: Vec<u8>)
    ensures
        r@ == keccak256_of(data@),
        r@.len() == 32,
{
    sha3::Keccak256::digest(data.as_slice()).to_vec()
}

/// The 20 address bytes of a word: its big-endian bytes 12 to 31.
pub open spec fn addr_bytes_of(a: nat) -> Seq<u8> {
    Seq::new(20, |i: int| byte_of(a, i + 12))
}

/// The 32 big-endian bytes of a 256-bit value.
pub open spec fn word_bytes_of(a: nat) -> Seq<u8> {
    Seq::new(32, |i: int| byte_of(a, i))
}

/// The compact RLP encoding of the two-item list `[address, nonce]`, with
/// the nonce truncated to its low four bytes beyond `0xFFFFFFFF`.
pub open spec fn rlp_of(addr: Seq<u8>, nonce: nat) -> Seq<u8> {
    if nonce == 0 {
        seq![0xD6u8, 0x94u8] + addr + seq![0x80u8]
    } else if nonce <= 0x7F {
        seq![0xD6u8, 0x94u8] + addr + seq![byte_of(nonce, 31)]
    } else if nonce <= 0xFF {
        seq![0xD7u8, 0x94u8] + addr + seq![0x81u8, byte_of(nonce, 31)]
    } else if nonce <= 0xFFFF {
        seq![0xD8u8, 0x94u8] + addr + seq![0x82u8, byte_of(nonce, 30), byte_of(nonce, 31)]
    } else if nonce <= 0xFFFFFF {
        seq![0xD9u8, 0x94u8] + addr + seq![
            0x83u8,
            byte_of(nonce, 29),
            byte_of(nonce, 30),
            byte_of(nonce, 31),
        ]
    } else {
        seq![0xDAu8, 0x94u8] + addr + seq![
            0x84u8,
            byte_of(nonce, 28),
            byte_of(nonce, 29),
            byte_of(nonce, 30),
            byte_of(nonce, 31),
        ]
    }
}

/// The compact RLP encoding of `[address, nonce]` for a 20-byte address.
pub fn encode_rlp(address: &Vec<u8>, nonce: Word) -> (r: Vec<u8>)
    requires
        address@.len() == 20,
    ensures
        r@ == rlp_of(address@, nonce@),
{
    proof {
        crate::word::lemma_word_view_bound(nonce);
    }
    let mut data: Vec<u8> = Vec::new();
    let nonce_bytes = nonce.to_be_bytes();
    let prefix: u8 = if nonce.is_zero() || nonce.lt(&Word::from_u64(0x80)) {
        0xD6
    } else if nonce.lt(&Word::from_u64(0x100)) {
        0xD7
    } else if nonce.lt(&Word::from_u64(0x10000)) {
        0xD8
    } else if nonce.lt(&Word::from_u64(0x1000000)) {
        0xD9
    } else {
        0xDA
    };
    data.push(prefix);
    data.push(0x94);
    let mut i: usize = 0;
    while i < 20
        invariant
            address@.len() == 20,
            i <= 20,
            data@.len() == 2 + i,
            data@[0] == (if nonce@ == 0 || nonce@ <= 0x7F {
                0xD6u8
            } else if nonce@ <= 0xFF {
                0xD7u8
            } else if nonce@ <= 0xFFFF {
                0xD8u8
            } else if nonce@ <= 0xFFFFFF {
                0xD9u8
            } else {
                0xDAu8
            }),
            data@[1] == 0x94u8,
            forall|j: int| 0 <= j < i ==> data@[2 + j] == address@[j],
        decreases 20 - i,
    {
        data.push(address[i]);
        i = i + 1;
    }
    if nonce.is_zero() {
        data.push(0x80);
    } else if nonce.lt(&Word::from_u64(0x80)) {
        data.push(nonce_bytes[31]);
    } else if nonce.lt(&Word::from_u64(0x100)) {
        data.push(0x81);
        data.push(nonce_bytes[31]);
    } else if nonce.lt(&Word::from_u64(0x10000)) {
        data.push(0x82);
        data.push(nonce_bytes[30]);
        data.push(nonce_bytes[31]);
    } else if nonce.lt(&Word::from_u64(0x1000000)) {
        data.push(0x83);
        data.push(nonce_bytes[29]);
        data.push(nonce_bytes[30]);
        data.push(nonce_bytes[31]);
    } else {
        data.push(0x84);
        data.push(nonce_bytes[28]);
        data.push(nonce_bytes[29]);
        data.push(nonce_bytes[30]);
        data.push(nonce_bytes[31]);
    }
    proof {
        assert(data@ =~= rlp_of(address@, nonce@));
    }
    data
}

/// Every byte of a string of zeros contributes nothing to its value.
pub proof fn lemma_be_nat_zeros(s: Seq<u8>)
    requires
        forall|i: int| 0 <= i < s.len() ==> s[i] == 0,
    ensures
        be_nat(s) == 0,
    decreases s.len(),
{
    if s.len() > 0 {
        lemma_be_nat_zeros(s.drop_last());
    }
}

/// The word whose value is the low 20 bytes of a 32-byte string.
pub fn low20_word(h: &Vec<u8>) -> (r: Word)
    requires
        h@.len() == 32,
    ensures
        r@ == be_nat(h@.subrange(12, 32)),
{
    let mut padded: Vec<u8> = vec![0u8; 12];
    let mut i: usize = 12;
    while i < 32
        invariant
            h@.len() == 32,
            12 <= i <= 32,
            padded@.len() == i,
            forall|j: int| 0 <= j < 12 ==> padded@[j] == 0,
            forall|j: int| 12 <= j < i ==> padded@[j] == h@[j],
        decreases 32 - i,
    {
        padded.push(h[i]);
        i = i + 1;
    }
    let r = Word::from_be_bytes(&padded);
    proof {
        crate::word::lemma_be_nat_split(padded@, 12);
        lemma_be_nat_zeros(padded@.subrange(0, 12));
        assert(padded@.subrange(12, 32) =~= h@.subrange(12, 32));
    }
    r
}

/// The 20 address bytes of a word, as a vector.
pub fn address_tail(w: &Word) -> (r: Vec<u8>)
    ensures
        r@ == addr_bytes_of(w@),
{
    let bytes = w.to_be_bytes();
    let mut out: Vec<u8> = Vec::new();
    let mut i: usize = 12;
    while i < 32
        invariant
            bytes@.len() == 32,
            forall|j: int| 0 <= j < 32 ==> bytes@[j] == byte_of(w@, j),
            12 <= i <= 32,
            out@.len() == i - 12,
            forall|j: int| 0 <= j < i - 12 ==> out@[j] == byte_of(w@, j + 12),
        decreases 32 - i,
    {
        out.push(bytes[i]);
        i = i + 1;
    }
    proof {
        assert(out@ =~= addr_bytes_of(w@));
    }
    out
}

/// The address a CREATE from `sender` with the given nonce deploys to: the
/// low 20 bytes of the Keccak-256 hash of the RLP encoding of
/// `[sender, nonce]`.
pub fn create_address(sender: &Word, nonce: Word) -> (r: Word)
    ensures
        r@ == be_nat(keccak256_of(rlp_of(addr_bytes_of(sender@), nonce@)).subrange(12, 32)),
{
    let tail = address_tail(sender);
    let data = encode_rlp(&tail, nonce);
    let hash = keccak256(&data);
    low20_word(&hash)
}

/// Whether a byte is an ASCII hexadecimal digit.
pub open spec fn is_hex_digit(b: u8) -> bool {
    (0x30 <= b <= 0x39) || (0x61 <= b <= 0x66) || (0x41 <= b <= 0x46)
}

/// The value of an ASCII hexadecimal digit.
pub open spec fn hex_digit_val(b: u8) -> nat {
    if 0x30 <= b <= 0x39 {
        (b - 0x30) as nat
    } else if 0x61 <= b <= 0x66 {
        (b - 0x61 + 10) as nat
    } else {
        (b - 0x41 + 10) as nat
    }
}

/// The value of a string of hexadecimal digits.
pub open spec fn hex_val(s: Seq<u8>) -> nat
    decreases s.len(),
{
    if s.len() == 0 {
        0
    } else {
        (hex_val(s.drop_last()) * 16 + hex_digit_val(s.last())) as nat
    }
}

/// Whether a string is a `0x`-prefixed word literal: at most 64 hexadecimal
/// digits after the prefix.
pub open spec fn is_hex_word_str(s: Seq<u8>) -> bool {
    3 <= s.len() <= 66 && s[0] == 0x30 && s[1] == 0x78 && forall|i: int|
        2 <= i < s.len() ==> is_hex_digit(#[trigger] s[i])
}

/// The word written by a `0x`-prefixed hexadecimal literal.
pub fn parse_hex_word(s: &str) -> (r: Word)
    requires
        is_hex_word_str(s.spec_bytes()),
    ensures
        r@ == hex_val(s.spec_bytes().subrange(2, s.spec_bytes().len() as int)),
{
    let bytes = s.as_bytes();
    let n = bytes.len();
    let mut acc = Word::zero();
    let mut i: usize = 2;
    proof {
        lemma_pow0(16);
        assert(bytes@.subrange(2, 2) =~= Seq::<u8>::empty());
    }
    while i < n
        invariant
            n == bytes@.len(),
            is_hex_word_str(bytes@),
            2 <= i <= n,
            acc@ == hex_val(bytes@.subrange(2, i as int)),
            acc@ < pow(16, (i - 2) as nat),
        decreases n - i,
    {
        let b = bytes[i];
        let d: u8 = if b >= 0x61 {
            b - 0x57
        } else if b >= 0x41 {
            b - 0x37
        } else {
            b - 0x30
        };
        let sixteen = Word::from_u64(16);
        let shifted = crate::arith::mul_wrapped(&acc, &sixteen);
        proof {
            crate::word::lemma_p_pow2();
            vstd::arithmetic::power2::lemma_pow2(256);
            lemma_pow_multiplies(2, 4, 64);
            assert(pow(2, 4) == 16) by {
                vstd::arithmetic::power2::lemma2_to64();
                vstd::arithmetic::power2::lemma_pow2(4);
            }
            lemma_pow_adds(16, (i - 2) as nat, 1);
            lemma_pow1(16);
            assert(pow(16, (i - 1) as nat) <= pow(16, 64)) by {
                if i - 1 < 64 {
                    lemma_pow_increases(16, (i - 1) as nat, 64);
                }
            }
            assert(acc@ * 16 + d < pow(16, (i - 2) as nat) * 16) by {
                lemma_mul_inequality(acc@ as int + 1, pow(16, (i - 2) as nat), 16);
            }
            lemma_small_mod((acc@ * 16) as nat, crate::word::p256());
            lemma_small_mod((acc@ * 16 + d) as nat, crate::word::p256());
            assert(bytes@.subrange(2, i + 1).drop_last() =~= bytes@.subrange(2, i as int));
        }
        let digit = Word::from_u64(d as u64);
        acc = shifted.wrapping_add(&digit);
        i = i + 1;
    }
    proof {
        assert(bytes@.subrange(2, n as int) =~= bytes@.subrange(
            2,
            bytes@.len() as int,
        ));
    }
    acc
}

/// The hash preimage of a CREATE2 address: `0xFF`, the 20 sender bytes, the
/// 32 salt bytes, and the 32-byte hash of the initcode.
pub open spec fn create2_preimage(sender: nat, salt: nat, initcode: Seq<u8>) -> Seq<u8> {
    seq![0xFFu8] + addr_bytes_of(sender) + word_bytes_of(salt) + keccak256_of(initcode)
}

/// The address a CREATE2 from `sender` with the given salt and initcode
/// deploys to: the low 20 bytes of the Keccak-256 hash of the preimage.
pub fn create2_address(sender: &Word, salt: &Word, initcode: &Vec<u8>) -> (r: Word)
    ensures
        r@ == be_nat(
            keccak256_of(create2_preimage(sender@, salt@, initcode@)).subrange(12, 32),
        ),
{
    let inner = keccak256(initcode);
    let mut data: Vec<u8> = Vec::new();
    data.push(0xFF);
    let mut tail = address_tail(sender);
    data.append(&mut tail);
    let mut salt_bytes = salt.to_be_bytes();
    data.append(&mut salt_bytes);
    let mut inner_copy = inner;
    data.append(&mut inner_copy);
    proof {
        assert(data@ =~= create2_preimage(sender@, salt@, initcode@));
    }
    let hash = keccak256(&data);
    low20_word(&hash)
}

} // verus!
