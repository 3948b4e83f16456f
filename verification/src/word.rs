//! 256-bit machine words, stored as two 128-bit limbs.
//!
//! A word's mathematical value is `hi * 2^128 + lo`, a natural number below
//! `2^256`. All stack values, storage keys and storage values of the virtual
//! machine are words; arithmetic on them wraps modulo `2^256`.

use vstd::prelude::*;
use vstd::arithmetic::div_mod::{
    lemma_breakdown, lemma_div_denominator, lemma_div_multiples_vanish_fancy,
    lemma_fundamental_div_mod, lemma_hoist_over_denominator, lemma_mod_multiples_vanish,
    lemma_small_div_converse, lemma_small_mod,
};
use vstd::arithmetic::mul::{
    lemma_mul_inequality, lemma_mul_is_associative, lemma_mul_is_commutative,
};
use vstd::arithmetic::power::{lemma_pow_adds, lemma_pow_multiplies, pow};
use vstd::arithmetic::power2::{lemma2_to64, lemma_pow2_adds, lemma_pow2_pos, pow2};

verus! {

/// `2^128`, the weight of the high limb.
pub open spec fn p128() -> nat {
    0x1_0000_0000_0000_0000_0000_0000_0000_0000nat
}

/// `2^256`, the modulus of all word arithmetic.
pub open spec fn p256() -> nat {
    p128() * p128()
}

/// `2^255`, the boundary between nonnegative and negative words under the
/// two's-complement reading.
pub open spec fn p255() -> nat {
    0x8000_0000_0000_0000_0000_0000_0000_0000nat * p128()
}

/// A 256-bit unsigned machine word.
#[derive(Clone, Copy, PartialEq, Eq, Structural, Debug)]
pub struct Word {
    pub hi: u128,
    pub lo: u128,
}

impl View for Word {
    type V = nat;

    open spec fn view(&self) -> nat {
        (self.hi * p128() + self.lo) as nat
    }
}

/// The two's-complement signed reading of a 256-bit value.
pub open spec fn signed_val(v: nat) -> int {
    if v < p255() {
        v as int
    } else {
        v - p256()
    }
}

/// The two's-complement signed reading of a word.
pub open spec fn signed(w: Word) -> int {
    signed_val(w@)
}

/// The word holding a 256-bit value.
pub open spec fn word_of(v: nat) -> Word {
    Word { hi: (v / p128()) as u128, lo: (v % p128()) as u128 }
}

/// `word_of` inverts the view: a word is the word of its value.
pub proof fn lemma_word_of_view(w: Word)
    ensures
        word_of(w@) == w,
{
    lemma_word_view_bound(w);
    lemma_fundamental_div_mod(w@ as int, p128() as int);
    lemma_small_div_converse(w.lo as int, p128() as int);
    lemma_div_multiples_vanish_fancy(w.hi as int, w.lo as int, p128() as int);
    lemma_small_mod(w.lo as nat, p128());
    assert(w@ % p128() == w.lo) by {
        lemma_fundamental_div_mod(w@ as int, p128() as int);
    }
}

pub proof fn lemma_word_view_bound(w: Word)
    ensures
        w@ < p256(),
{
    assert(w.hi * p128() + w.lo < p256()) by {
        lemma_mul_inequality(w.hi as int, (p128() - 1) as int, p128() as int);
    }
}

/// Splitting a nonnegative integer `h * 2^128 + l` (with `l < 2^128`) modulo
/// `2^256` keeps the low limb and reduces the high part modulo `2^128`.
pub proof fn lemma_split256(h: nat, l: nat)
    requires
        l < p128(),
    ensures
        (h * p128() + l) % p256() == (h % p128()) * p128() + l,
        (h * p128() + l) / p256() == h / p128(),
{
    let x = (h * p128() + l) as int;
    let y = p128() as int;
    lemma_breakdown(x, y, y);
    lemma_div_multiples_vanish_fancy(h as int, l as int, y);
    assert(x / y == h);
    lemma_small_mod(l, p128());
    assert(x % y == l) by {
        lemma_fundamental_div_mod(x, y);
    }
    assert((h * p128() + l) % p256() == (h % p128()) * p128() + l) by {
        lemma_mul_is_commutative(y, (h as int) % y);
    }
    lemma_div_denominator(x, y, y);
}

/// Two words with the same value are the same word.
pub proof fn lemma_view_injective(a: Word, b: Word)
    requires
        a@ == b@,
    ensures
        a == b,
{
    lemma_split256(a.hi as nat, a.lo as nat);
    lemma_split256(b.hi as nat, b.lo as nat);
    assert(a.hi * p128() + a.lo < p256()) by {
        lemma_word_view_bound(a);
    }
    assert(b.hi * p128() + b.lo < p256()) by {
        lemma_word_view_bound(b);
    }
    assert(a@ % p256() == a@) by {
        lemma_small_mod(a@, p256());
    }
    assert(a.lo == a@ % p128() && b.lo == b@ % p128()) by {
        lemma_fundamental_div_mod(a@ as int, p128() as int);
        lemma_fundamental_div_mod(b@ as int, p128() as int);
        lemma_small_div_converse(a.lo as int, p128() as int);
        lemma_small_div_converse(b.lo as int, p128() as int);
        lemma_div_multiples_vanish_fancy(a.hi as int, a.lo as int, p128() as int);
        lemma_div_multiples_vanish_fancy(b.hi as int, b.lo as int, p128() as int);
    }
    assert(a.hi == a@ / p128() && b.hi == b@ / p128()) by {
        lemma_div_multiples_vanish_fancy(a.hi as int, a.lo as int, p128() as int);
        lemma_div_multiples_vanish_fancy(b.hi as int, b.lo as int, p128() as int);
    }
}

impl Word {
    /// The word with the given limbs.
    pub fn new(hi: u128, lo: u128) -> (r: Word)
        ensures
            r.hi == hi,
            r.lo == lo,
    {
        Word { hi, lo }
    }

    /// The zero word.
    pub fn zero() -> (r: Word)
        ensures
            r@ == 0,
    {
        Word { hi: 0, lo: 0 }
    }

    /// The word one.
    pub fn one() -> (r: Word)
        ensures
            r@ == 1,
    {
        Word { hi: 0, lo: 1 }
    }

    /// The word holding a small (64-bit) value.
    pub fn from_u64(v: u64) -> (r: Word)
        ensures
            r@ == v,
    {
        Word { hi: 0, lo: v as u128 }
    }

    /// The word holding a 128-bit value.
    pub fn from_u128(v: u128) -> (r: Word)
        ensures
            r@ == v,
    {
        Word { hi: 0, lo: v }
    }

    /// The word holding a machine-size value.
    pub fn from_usize(v: usize) -> (r: Word)
        ensures
            r@ == v,
    {
        Word { hi: 0, lo: v as u128 }
    }

    /// Whether the word is zero.
    pub fn is_zero(&self) -> (r: bool)
        ensures
            r == (self@ == 0),
    {
        self.hi == 0 && self.lo == 0
    }

    /// Unsigned comparison: `self < other`.
    pub fn lt(&self, other: &Word) -> (r: bool)
        ensures
            r == (self@ < other@),
    {
        proof {
            if self.hi < other.hi {
                lemma_mul_inequality(self.hi as int + 1, other.hi as int, p128() as int);
            }
            if other.hi < self.hi {
                lemma_mul_inequality(other.hi as int + 1, self.hi as int, p128() as int);
            }
        }
        if self.hi == other.hi {
            self.lo < other.lo
        } else {
            self.hi < other.hi
        }
    }

    /// Equality of words.
    pub fn eq_word(&self, other: &Word) -> (r: bool)
        ensures
            r == (self@ == other@),
    {
        proof {
            if self.hi == other.hi && self.lo == other.lo {
            } else {
                if self@ == other@ {
                    lemma_view_injective(*self, *other);
                }
            }
        }
        self.hi == other.hi && self.lo == other.lo
    }

    /// Signed comparison under the two's-complement reading.
    pub fn slt(&self, other: &Word) -> (r: bool)
        ensures
            r == (signed(*self) < signed(*other)),
    {
        let self_neg = self.hi >= 0x8000_0000_0000_0000_0000_0000_0000_0000;
        let other_neg = other.hi >= 0x8000_0000_0000_0000_0000_0000_0000_0000;
        proof {
            lemma_word_view_bound(*self);
            lemma_word_view_bound(*other);
            if self_neg {
                lemma_mul_inequality(
                    0x8000_0000_0000_0000_0000_0000_0000_0000,
                    self.hi as int,
                    p128() as int,
                );
            } else {
                lemma_mul_inequality(
                    self.hi as int + 1,
                    0x8000_0000_0000_0000_0000_0000_0000_0000,
                    p128() as int,
                );
            }
            if other_neg {
                lemma_mul_inequality(
                    0x8000_0000_0000_0000_0000_0000_0000_0000,
                    other.hi as int,
                    p128() as int,
                );
            } else {
                lemma_mul_inequality(
                    other.hi as int + 1,
                    0x8000_0000_0000_0000_0000_0000_0000_0000,
                    p128() as int,
                );
            }
        }
        if self_neg != other_neg {
            self_neg
        } else {
            self.lt(other)
        }
    }

    /// Wrapping addition modulo `2^256`.
    pub fn wrapping_add(&self, other: &Word) -> (r: Word)
        ensures
            r@ == (self@ + other@) % p256(),
    {
        let (lo, carry): (u128, u128) = if self.lo <= u128::MAX - other.lo {
            (self.lo + other.lo, 0)
        } else {
            ((self.lo - (u128::MAX - other.lo)) - 1, 1)
        };
        let hi: u128 = if carry == 0 {
            if self.hi <= u128::MAX - other.hi {
                self.hi + other.hi
            } else {
                (self.hi - (u128::MAX - other.hi)) - 1
            }
        } else {
            if other.hi == u128::MAX {
                self.hi
            } else {
                let o = other.hi + 1;
                if self.hi <= u128::MAX - o {
                    self.hi + o
                } else {
                    (self.hi - (u128::MAX - o)) - 1
                }
            }
        };
        proof {
            let h = (self.hi + other.hi + carry) as nat;
            let l = lo as nat;
            assert(self@ + other@ == h * p128() + l) by {
                vstd::arithmetic::mul::lemma_mul_is_distributive_add_other_way(
                    p128() as int,
                    self.hi as int,
                    other.hi as int,
                );
                vstd::arithmetic::mul::lemma_mul_is_distributive_add_other_way(
                    p128() as int,
                    (self.hi + other.hi) as int,
                    carry as int,
                );
            }
            lemma_split256(h, l);
            assert(hi == h % p128()) by {
                if h < p128() {
                    lemma_small_mod(h, p128());
                } else {
                    vstd::arithmetic::div_mod::lemma_mod_sub_multiples_vanish(
                        h as int,
                        p128() as int,
                    );
                    lemma_small_mod((h - p128()) as nat, p128());
                }
            }
        }
        Word { hi, lo }
    }

    /// Wrapping subtraction modulo `2^256`.
    pub fn wrapping_sub(&self, other: &Word) -> (r: Word)
        ensures
            self@ >= other@ ==> r@ == self@ - other@,
            self@ < other@ ==> r@ == self@ + p256() - other@,
    {
        let (lo, borrow): (u128, u128) = if self.lo >= other.lo {
            (self.lo - other.lo, 0)
        } else {
            ((u128::MAX - other.lo) + self.lo + 1, 1)
        };
        let hi_enough = if borrow == 0 {
            self.hi >= other.hi
        } else {
            self.hi > other.hi
        };
        let hi: u128 = if hi_enough {
            self.hi - other.hi - borrow
        } else {
            (u128::MAX - other.hi) + self.hi + (1 - borrow)
        };
        proof {
            lemma_word_view_bound(*self);
            lemma_word_view_bound(*other);
            let hs = self.hi as int;
            let ho = other.hi as int;
            let b = borrow as int;
            if hi_enough {
                // value = (hs - ho - b) * p128 + lo == self - other
                assert((hs - ho - b) * p128() + lo == self@ - other@) by {
                    vstd::arithmetic::mul::lemma_mul_is_distributive_sub_other_way(
                        p128() as int,
                        hs - b,
                        ho,
                    );
                    vstd::arithmetic::mul::lemma_mul_is_distributive_sub_other_way(
                        p128() as int,
                        hs,
                        b,
                    );
                }
                assert(self@ >= other@) by {
                    vstd::arithmetic::mul::lemma_mul_nonnegative(hs - ho - b, p128() as int);
                }
            } else {
                // value = (p128 + hs - ho - b) * p128 + lo == self - other + p256
                assert((p128() + hs - ho - b) * p128() + lo == self@ + p256() - other@) by {
                    vstd::arithmetic::mul::lemma_mul_is_distributive_sub_other_way(
                        p128() as int,
                        p128() + hs - b,
                        ho,
                    );
                    vstd::arithmetic::mul::lemma_mul_is_distributive_sub_other_way(
                        p128() as int,
                        p128() + hs,
                        b,
                    );
                    vstd::arithmetic::mul::lemma_mul_is_distributive_add_other_way(
                        p128() as int,
                        p128() as int,
                        hs,
                    );
                }
                assert(self@ < other@) by {
                    vstd::arithmetic::mul::lemma_mul_inequality(
                        hs + 1,
                        ho + b,
                        p128() as int,
                    );
                    vstd::arithmetic::mul::lemma_mul_is_distributive_add_other_way(
                        p128() as int,
                        ho,
                        b,
                    );
                }
            }
        }
        Word { hi, lo }
    }

    /// Bitwise and, limb by limb.
    pub fn bitand_word(&self, other: &Word) -> (r: Word)
        ensures
            r.hi == self.hi & other.hi,
            r.lo == self.lo & other.lo,
    {
        Word { hi: self.hi & other.hi, lo: self.lo & other.lo }
    }

    /// Bitwise or, limb by limb.
    pub fn bitor_word(&self, other: &Word) -> (r: Word)
        ensures
            r.hi == self.hi | other.hi,
            r.lo == self.lo | other.lo,
    {
        Word { hi: self.hi | other.hi, lo: self.lo | other.lo }
    }

    /// Bitwise exclusive or, limb by limb.
    pub fn bitxor_word(&self, other: &Word) -> (r: Word)
        ensures
            r.hi == self.hi ^ other.hi,
            r.lo == self.lo ^ other.lo,
    {
        Word { hi: self.hi ^ other.hi, lo: self.lo ^ other.lo }
    }

    /// Bitwise complement; equals `2^256 - 1 - self` as a value.
    pub fn not_word(&self) -> (r: Word)
        ensures
            r@ == p256() - 1 - self@,
    {
        proof {
            assert((u128::MAX - self.hi) * p128() + (u128::MAX - self.lo)
                == p256() - 1 - self@) by {
                vstd::arithmetic::mul::lemma_mul_is_distributive_sub_other_way(
                    p128() as int,
                    u128::MAX as int,
                    self.hi as int,
                );
                assert(u128::MAX * p128() == p256() - p128()) by {
                    vstd::arithmetic::mul::lemma_mul_is_distributive_sub_other_way(
                        p128() as int,
                        p128() as int,
                        1,
                    );
                }
            }
        }
        Word { hi: u128::MAX - self.hi, lo: u128::MAX - self.lo }
    }

    /// Saturating conversion to a machine-size integer, for memory offsets
    /// and jump targets at the interpreter boundary.
    pub fn as_usize_saturating(&self) -> (r: usize)
        ensures
            self@ <= usize::MAX ==> r == self@,
            self@ > usize::MAX ==> r == usize::MAX,
    {
        proof {
            if self.hi != 0 {
                lemma_mul_inequality(1, self.hi as int, p128() as int);
            }
        }
        if self.hi != 0 {
            usize::MAX
        } else if self.lo > usize::MAX as u128 {
            usize::MAX
        } else {
            self.lo as usize
        }
    }
}

/// The byte at big-endian position `i` (0 is the most significant) of a
/// 256-bit value.
pub open spec fn byte_of(v: nat, i: int) -> u8 {
    ((v / pow2((8 * (31 - i)) as nat)) % 256) as u8
}

/// The value of a byte string read as a big-endian integer.
pub open spec fn be_nat(s: Seq<u8>) -> nat
    decreases s.len(),
{
    if s.len() == 0 {
        0
    } else {
        (be_nat(s.drop_last()) * 256 + s.last()) as nat
    }
}

/// The limb weights as powers of two.
pub proof fn lemma_p_pow2()
    ensures
        p128() == pow2(128),
        p256() == pow2(256),
        p255() == pow2(255),
{
    lemma2_to64();
    vstd::arithmetic::power2::lemma2_to64_rest();
    lemma_pow2_adds(64, 64);
    lemma_pow2_adds(128, 128);
    lemma_pow2_adds(64, 63);
    lemma_pow2_adds(127, 128);
    assert(pow2(63) == 0x8000_0000_0000_0000);
}

/// Dividing a word's value by `2^k` either splits across the limbs (`k < 128`)
/// or reaches only the high limb (`k >= 128`).
pub proof fn lemma_view_shift(w: Word, k: nat)
    ensures
        k < 128 ==> w@ / pow2(k) == w.hi * pow2((128 - k) as nat) + w.lo as nat / pow2(k),
        k >= 128 ==> w@ / pow2(k) == w.hi as nat / pow2((k - 128) as nat),
{
    lemma_p_pow2();
    lemma_pow2_pos(k);
    if k < 128 {
        lemma_pow2_pos((128 - k) as nat);
        lemma_pow2_adds(k, (128 - k) as nat);
        // w = (hi * 2^(128-k)) * 2^k + lo
        assert(w.hi * pow2(128) == (w.hi * pow2((128 - k) as nat)) * pow2(k)) by {
            lemma_mul_is_commutative(pow2(k) as int, pow2((128 - k) as nat) as int);
            lemma_mul_is_associative(
                w.hi as int,
                pow2((128 - k) as nat) as int,
                pow2(k) as int,
            );
        }
        lemma_hoist_over_denominator(w.lo as int, w.hi * pow2((128 - k) as nat) as int, pow2(k));
    } else {
        lemma_pow2_adds(128, (k - 128) as nat);
        // w / 2^128 == hi
        lemma_div_multiples_vanish_fancy(w.hi as int, w.lo as int, p128() as int);
        lemma_div_denominator(w@ as int, pow2(128) as int, pow2((k - 128) as nat) as int);
        lemma_pow2_pos((k - 128) as nat);
    }
}

/// The byte at position `i` of a word's value, read off the matching limb.
pub proof fn lemma_byte_of_limbs(w: Word, i: int)
    requires
        0 <= i < 32,
    ensures
        i < 16 ==> byte_of(w@, i) == ((w.hi as nat / pow2((8 * (15 - i)) as nat)) % 256) as u8,
        i >= 16 ==> byte_of(w@, i) == ((w.lo as nat / pow2((8 * (31 - i)) as nat)) % 256) as u8,
{
    let k = (8 * (31 - i)) as nat;
    lemma_view_shift(w, k);
    if i >= 16 {
        // k <= 120: the high limb contributes a multiple of 256.
        lemma_pow2_pos((128 - k) as nat);
        lemma_pow2_adds((120 - k) as nat, 8);
        lemma2_to64();
        assert(w.hi * pow2((128 - k) as nat) == (w.hi * pow2((120 - k) as nat)) * 256) by {
            lemma_mul_is_associative(w.hi as int, pow2((120 - k) as nat) as int, 256);
        }
        lemma_mod_multiples_vanish(
            w.hi * pow2((120 - k) as nat) as int,
            (w.lo as nat / pow2(k)) as int,
            256,
        );
    }
}

/// The bit at big-endian position `i` of a word's value, read off the
/// matching limb.
pub proof fn lemma_bit_of_limbs(w: Word, i: int)
    requires
        0 <= i < 256,
    ensures
        i < 128 ==> (w@ / pow2((255 - i) as nat)) % 2 == (w.hi as nat / pow2(
            (127 - i) as nat,
        )) % 2,
        i >= 128 ==> (w@ / pow2((255 - i) as nat)) % 2 == (w.lo as nat / pow2(
            (255 - i) as nat,
        )) % 2,
{
    let k = (255 - i) as nat;
    lemma_view_shift(w, k);
    if i >= 128 {
        // k <= 127: the high limb contributes an even number.
        lemma_pow2_pos((128 - k) as nat);
        lemma_pow2_adds((127 - k) as nat, 1);
        lemma2_to64();
        assert(w.hi * pow2((128 - k) as nat) == (w.hi * pow2((127 - k) as nat)) * 2) by {
            lemma_mul_is_associative(w.hi as int, pow2((127 - k) as nat) as int, 2);
        }
        lemma_mod_multiples_vanish(
            w.hi * pow2((127 - k) as nat) as int,
            (w.lo as nat / pow2(k)) as int,
            2,
        );
    }
}

/// The big-endian bytes of one 128-bit limb.
fn limb_be_bytes(x: u128) -> (r: Vec<u8>)
    ensures
        r@.len() == 16,
        forall|j: int|
            0 <= j < 16 ==> r@[j] == ((x as nat / pow2((8 * (15 - j)) as nat)) % 256) as u8,
{
    let mut out: Vec<u8> = vec![0u8; 16];
    let mut cur: u128 = x;
    let mut j: usize = 0;
    proof {
        lemma2_to64();
        vstd::arithmetic::div_mod::lemma_div_basics(x as int);
    }
    while j < 16
        invariant
            out@.len() == 16,
            j <= 16,
            cur == x as nat / pow2((8 * j) as nat),
            forall|k: int|
                16 - j <= k < 16 ==> out@[k] == ((x as nat / pow2((8 * (15 - k)) as nat))
                    % 256) as u8,
        decreases 16 - j,
    {
        let b: u8 = (cur % 256) as u8;
        out[15 - j] = b;
        proof {
            lemma_pow2_adds((8 * j) as nat, 8);
            lemma_pow2_pos((8 * j) as nat);
            lemma2_to64();
            lemma_div_denominator(x as int, pow2((8 * j) as nat) as int, 256);
        }
        cur = cur / 256;
        j = j + 1;
    }
    out
}

/// One 128-bit limb assembled from 16 big-endian bytes of `s` starting at
/// `start`.
fn limb_from_be_bytes(s: &Vec<u8>, start: usize) -> (r: u128)
    requires
        start + 16 <= s@.len(),
    ensures
        r == be_nat(s@.subrange(start as int, start + 16)),
        (r as nat) < p128(),
{
    let n: usize = s.len();
    let mut acc: u128 = 0;
    let mut j: usize = 0;
    proof {
        lemma2_to64();
        lemma_p_pow2();
        assert(s@.subrange(start as int, start as int) =~= Seq::<u8>::empty());
    }
    while j < 16
        invariant
            start + 16 <= n,
            n == s@.len(),
            j <= 16,
            acc == be_nat(s@.subrange(start as int, start + j)),
            acc < pow2((8 * j) as nat),
        decreases 16 - j,
    {
        proof {
            lemma_pow2_adds((8 * j) as nat, 8);
            lemma2_to64();
            lemma_p_pow2();
            assert(pow2((8 * (j + 1)) as nat) <= pow2(128)) by {
                if j < 15 {
                    vstd::arithmetic::power2::lemma_pow2_strictly_increases(
                        (8 * (j + 1)) as nat,
                        128,
                    );
                }
            }
            assert(s@.subrange(start as int, start + j + 1).drop_last() =~= s@.subrange(
                start as int,
                start + j,
            ));
            assert(acc * 256 + s@[start + j] < pow2((8 * j) as nat) * 256) by {
                lemma_mul_inequality(acc as int + 1, pow2((8 * j) as nat) as int, 256);
            }
        }
        acc = acc * 256 + (s[start + j] as u128);
        j = j + 1;
    }
    proof {
        vstd::arithmetic::power2::lemma_pow2_strictly_increases(128, 129);
        lemma_p_pow2();
    }
    acc
}

/// `be_nat` of a byte string splits at any cut into a weighted sum.
pub proof fn lemma_be_nat_split(s: Seq<u8>, k: int)
    requires
        0 <= k <= s.len(),
    ensures
        be_nat(s) == be_nat(s.subrange(0, k)) * pow(256, (s.len() - k) as nat) + be_nat(
            s.subrange(k, s.len() as int),
        ),
    decreases s.len() - k,
{
    if s.len() == k {
        assert(s.subrange(0, k) =~= s);
        assert(s.subrange(k, s.len() as int) =~= Seq::<u8>::empty());
        vstd::arithmetic::power::lemma_pow0(256);
    } else {
        let front = s.drop_last();
        lemma_be_nat_split(front, k);
        assert(front.subrange(0, k) =~= s.subrange(0, k));
        assert(front.subrange(k, front.len() as int) =~= s.subrange(
            k,
            s.len() as int,
        ).drop_last());
        let tail = s.subrange(k, s.len() as int);
        assert(tail.last() == s.last());
        assert(be_nat(s) == be_nat(front) * 256 + s.last());
        let e = (s.len() - 1 - k) as nat;
        assert(be_nat(front) * 256 == (be_nat(s.subrange(0, k)) * pow(256, e) + be_nat(
            tail.drop_last(),
        )) * 256);
        assert((be_nat(s.subrange(0, k)) * pow(256, e) + be_nat(tail.drop_last())) * 256 == be_nat(
            s.subrange(0, k),
        ) * pow(256, e) * 256 + be_nat(tail.drop_last()) * 256) by {
            vstd::arithmetic::mul::lemma_mul_is_distributive_add_other_way(
                256,
                be_nat(s.subrange(0, k)) * pow(256, e) as int,
                be_nat(tail.drop_last()) as int,
            );
        }
        assert(be_nat(s.subrange(0, k)) * pow(256, e) * 256 == be_nat(s.subrange(0, k)) * pow(
            256,
            (e + 1) as nat,
        )) by {
            lemma_pow_adds(256, e, 1);
            vstd::arithmetic::power::lemma_pow1(256);
            lemma_mul_is_associative(
                be_nat(s.subrange(0, k)) as int,
                pow(256, e) as int,
                256,
            );
        }
    }
}

/// `pow(256, 16)` is the weight of the high limb.
pub proof fn lemma_pow256_16()
    ensures
        pow(256, 16) == p128(),
{
    lemma_pow_multiplies(2, 8, 16);
    lemma_p_pow2();
    assert(pow(2, 8) == 256) by {
        lemma2_to64();
        vstd::arithmetic::power2::lemma_pow2(8);
    }
    vstd::arithmetic::power2::lemma_pow2(128);
}

impl Word {
    /// The 32 big-endian bytes of the word, most significant first.
    pub fn to_be_bytes(&self) -> (r: Vec<u8>)
        ensures
            r@.len() == 32,
            forall|i: int| 0 <= i < 32 ==> r@[i] == byte_of(self@, i),
    {
        let mut out = limb_be_bytes(self.hi);
        let mut lo_bytes = limb_be_bytes(self.lo);
        out.append(&mut lo_bytes);
        proof {
            assert forall|i: int| 0 <= i < 32 implies out@[i] == byte_of(self@, i) by {
                lemma_byte_of_limbs(*self, i);
            }
        }
        out
    }

    /// The word read from 32 big-endian bytes.
    pub fn from_be_bytes(s: &Vec<u8>) -> (r: Word)
        requires
            s@.len() == 32,
        ensures
            r@ == be_nat(s@),
    {
        let hi = limb_from_be_bytes(s, 0);
        let lo = limb_from_be_bytes(s, 16);
        proof {
            lemma_be_nat_split(s@, 16);
            lemma_pow256_16();
            assert(s@.subrange(0, 32) =~= s@);
        }
        Word { hi, lo }
    }

    /// The 256 bits of the word, most significant first.
    pub fn bits_be(&self) -> (r: Vec<bool>)
        ensures
            r@.len() == 256,
            forall|i: int|
                0 <= i < 256 ==> r@[i] == ((self@ / pow2((255 - i) as nat)) % 2 == 1),
    {
        let mut out: Vec<bool> = Vec::new();
        let mut limb: u128 = self.hi;
        let mut round: usize = 0;
        while round < 2
            invariant
                round <= 2,
                out@.len() == 128 * round,
                limb == if round == 0 {
                    self.hi
                } else {
                    self.lo
                },
                forall|i: int|
                    0 <= i < out@.len() ==> out@[i] == ((self@ / pow2((255 - i) as nat)) % 2
                        == 1),
            decreases 2 - round,
        {
            let ghost limb_snap = limb;
            let mut j: usize = 0;
            let mut cur: u128 = limb;
            // Extract bits least significant first into a scratch vector, then
            // emit them reversed.
            let mut scratch: Vec<bool> = Vec::new();
            proof {
                lemma2_to64();
                vstd::arithmetic::div_mod::lemma_div_basics(limb_snap as int);
            }
            while j < 128
                invariant
                    j <= 128,
                    cur == limb_snap as nat / pow2(j as nat),
                    scratch@.len() == j,
                    forall|t: int|
                        0 <= t < j ==> scratch@[t] == ((limb_snap as nat / pow2(t as nat)) % 2
                            == 1),
                decreases 128 - j,
            {
                proof {
                    lemma_pow2_adds(j as nat, 1);
                    lemma_pow2_pos(j as nat);
                    lemma2_to64();
                    lemma_div_denominator(limb_snap as int, pow2(j as nat) as int, 2);
                }
                scratch.push(cur % 2 == 1);
                cur = cur / 2;
                j = j + 1;
            }
            let mut t: usize = 128;
            while t > 0
                invariant
                    t <= 128,
                    scratch@.len() == 128,
                    forall|u: int|
                        0 <= u < 128 ==> scratch@[u] == ((limb_snap as nat / pow2(u as nat)) % 2
                            == 1),
                    limb == limb_snap,
                    round <= 1,
                    out@.len() == 128 * round + 128 - t,
                    forall|i: int|
                        0 <= i < 128 * round ==> out@[i] == ((self@ / pow2((255 - i) as nat))
                            % 2 == 1),
                    forall|i: int|
                        128 * round <= i < out@.len() ==> out@[i] == ((limb_snap as nat / pow2(
                            (128 * round + 127 - i) as nat,
                        )) % 2 == 1),
                decreases t,
            {
                t = t - 1;
                out.push(scratch[t]);
            }
            proof {
                assert forall|i: int| 128 * round <= i < 128 * round + 128 implies out@[i] == ((
                self@ / pow2((255 - i) as nat)) % 2 == 1) by {
                    lemma_bit_of_limbs(*self, i);
                }
            }
            if round == 0 {
                limb = self.lo;
            }
            round = round + 1;
        }
        out
    }
}

} // verus!
