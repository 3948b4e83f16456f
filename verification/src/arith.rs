//! Word arithmetic beyond addition and subtraction.
//!
//! Multiplication, division and remainder of 256-bit words are delegated to
//! the `ethnum` crate behind trusted wrappers with exact contracts; everything
//! built on top of them — the division-by-zero policy, signed division and
//! remainder, modular addition and multiplication, exponentiation, shifts,
//! byte extraction and sign extension — is verified here.

use vstd::prelude::*;
use vstd::arithmetic::div_mod::{
    lemma_add_mod_noop, lemma_basic_div, lemma_fundamental_div_mod,
    lemma_fundamental_div_mod_converse, lemma_mod_add_multiples_vanish,
    lemma_mod_sub_multiples_vanish, lemma_mul_mod_noop_right, lemma_small_mod,
};
use vstd::arithmetic::mul::lemma_mul_is_commutative;
use vstd::arithmetic::power::{lemma_pow0, lemma_pow1, lemma_pow_adds, pow};
use vstd::arithmetic::power2::{
    lemma2_to64, lemma_pow2, lemma_pow2_pos, lemma_pow2_strictly_increases, pow2,
};

use crate::word::{byte_of, lemma_p_pow2, lemma_word_view_bound, p256, signed, Word};

verus! {

/// Truncating signed division (rounds toward zero); zero divisor yields zero.
pub open spec fn sdiv_val(a: int, b: int) -> int {
    if b == 0 {
        0
    } else {
        let q = abs_int(a) / abs_int(b);
        if (a < 0) == (b < 0) {
            q
        } else {
            -q
        }
    }
}

/// Truncating signed remainder (sign follows the dividend); zero divisor
/// yields zero.
pub open spec fn smod_val(a: int, b: int) -> int {
    if b == 0 {
        0
    } else {
        let r = abs_int(a) % abs_int(b);
        if a < 0 {
            -r
        } else {
            r
        }
    }
}

/// Absolute value of a mathematical integer.
pub open spec fn abs_int(a: int) -> int {
    if a < 0 {
        -a
    } else {
        a
    }
}

/// A signed result embedded back into an unsigned word value.
pub open spec fn to_word_val(a: int) -> nat {
    (a % (p256() as int)) as nat
}

/// Relies on `ethnum::U256::wrapping_mul`: the product of two 256-bit words
/// modulo `2^256`.
#[verifier::external_body]
pub(crate) fn mul_wrapped(a: &Word, b: &Word) -> (r: Word)
    ensures
        r@ == (a@ * b@) % p256(),
{
    let x = ethnum::U256::from_words(a.hi, a.lo);
    let y = ethnum::U256::from_words(b.hi, b.lo);
    let (hi, lo) = x.wrapping_mul(y).into_words();
    Word { hi, lo }
}

/// Relies on `ethnum::U256::wrapping_div`: the quotient of two 256-bit words;
/// the divisor must not be zero, as the callee would panic on it.
#[verifier::external_body]
pub(crate) fn div_unchecked(a: &Word, b: &Word) -> (r: Word)
    requires
        b@ != 0,
    ensures
        r@ == a@ / b@,
{
    let x = ethnum::U256::from_words(a.hi, a.lo);
    let y = ethnum::U256::from_words(b.hi, b.lo);
    let (hi, lo) = x.wrapping_div(y).into_words();
    Word { hi, lo }
}

/// Relies on `ethnum::U256::wrapping_rem`: the remainder of two 256-bit
/// words; the divisor must not be zero, as the callee would panic on it.
#[verifier::external_body]
pub(crate) fn rem_unchecked(a: &Word, b: &Word) -> (r: Word)
    requires
        b@ != 0,
    ensures
        r@ == a@ % b@,
{
    let x = ethnum::U256::from_words(a.hi, a.lo);
    let y = ethnum::U256::from_words(b.hi, b.lo);
    let (hi, lo) = x.wrapping_rem(y).into_words();
    Word { hi, lo }
}

impl Word {
    /// Unsigned division; division by zero yields zero.
    pub fn div_or_zero(&self, other: &Word) -> (r: Word)
        ensures
            other@ == 0 ==> r@ == 0,
            other@ != 0 ==> r@ == self@ / other@,
    {
        if other.is_zero() {
            Word::zero()
        } else {
            div_unchecked(self, other)
        }
    }

    /// Unsigned remainder; a zero modulus yields zero.
    pub fn rem_or_zero(&self, other: &Word) -> (r: Word)
        ensures
            other@ == 0 ==> r@ == 0,
            other@ != 0 ==> r@ == self@ % other@,
    {
        if other.is_zero() {
            Word::zero()
        } else {
            rem_unchecked(self, other)
        }
    }

    /// Additive inverse modulo `2^256`.
    pub fn neg_word(&self) -> (r: Word)
        ensures
            self@ == 0 ==> r@ == 0,
            self@ != 0 ==> r@ == p256() - self@,
    {
        let zero = Word::zero();
        proof {
            lemma_word_view_bound(*self);
        }
        zero.wrapping_sub(self)
    }

    /// The absolute value of the word's signed reading.
    pub fn abs_signed(&self) -> (r: Word)
        ensures
            r@ == abs_int(signed(*self)),
    {
        proof {
            lemma_word_view_bound(*self);
        }
        if self.hi >= 0x8000_0000_0000_0000_0000_0000_0000_0000 {
            proof {
                vstd::arithmetic::mul::lemma_mul_inequality(
                    0x8000_0000_0000_0000_0000_0000_0000_0000,
                    self.hi as int,
                    crate::word::p128() as int,
                );
            }
            self.neg_word()
        } else {
            proof {
                vstd::arithmetic::mul::lemma_mul_inequality(
                    self.hi as int + 1,
                    0x8000_0000_0000_0000_0000_0000_0000_0000,
                    crate::word::p128() as int,
                );
            }
            *self
        }
    }

    /// Signed division, truncating toward zero; division by zero yields zero.
    pub fn sdiv_or_zero(&self, other: &Word) -> (r: Word)
        ensures
            r@ == to_word_val(sdiv_val(signed(*self), signed(*other))),
    {
        proof {
            lemma_word_view_bound(*self);
            lemma_word_view_bound(*other);
        }
        if other.is_zero() {
            proof {
                lemma_small_mod(0, p256());
            }
            return Word::zero();
        }
        let a_abs = self.abs_signed();
        let b_abs = other.abs_signed();
        let q = div_unchecked(&a_abs, &b_abs);
        let self_neg = self.hi >= 0x8000_0000_0000_0000_0000_0000_0000_0000;
        let other_neg = other.hi >= 0x8000_0000_0000_0000_0000_0000_0000_0000;
        proof {
            lemma_sign_bit(*self);
            lemma_sign_bit(*other);
            lemma_word_view_bound(q);
            vstd::arithmetic::div_mod::lemma_div_is_ordered_by_denominator(
                a_abs@ as int,
                1,
                b_abs@ as int,
            );
            vstd::arithmetic::div_mod::lemma_div_basics(a_abs@ as int);
        }
        if self_neg == other_neg {
            proof {
                lemma_small_mod(q@, p256());
            }
            q
        } else {
            proof {
                lemma_neg_mod(q@);
            }
            q.neg_word()
        }
    }

    /// Signed remainder, sign following the dividend; a zero modulus yields
    /// zero.
    pub fn smod_or_zero(&self, other: &Word) -> (r: Word)
        ensures
            r@ == to_word_val(smod_val(signed(*self), signed(*other))),
    {
        proof {
            lemma_word_view_bound(*self);
            lemma_word_view_bound(*other);
        }
        if other.is_zero() {
            proof {
                lemma_small_mod(0, p256());
            }
            return Word::zero();
        }
        let a_abs = self.abs_signed();
        let b_abs = other.abs_signed();
        let m = rem_unchecked(&a_abs, &b_abs);
        let self_neg = self.hi >= 0x8000_0000_0000_0000_0000_0000_0000_0000;
        proof {
            lemma_sign_bit(*self);
            lemma_sign_bit(*other);
            lemma_word_view_bound(m);
        }
        if self_neg {
            proof {
                lemma_neg_mod(m@);
            }
            m.neg_word()
        } else {
            proof {
                lemma_small_mod(m@, p256());
            }
            m
        }
    }
}

impl Word {
    /// Modular addition of two residues already reduced below the modulus.
    fn addmod_reduced(&self, other: &Word, n: &Word) -> (r: Word)
        requires
            n@ > 0,
            self@ < n@,
            other@ < n@,
        ensures
            r@ == (self@ + other@) % n@,
            r@ < n@,
    {
        proof {
            lemma_word_view_bound(*self);
            lemma_word_view_bound(*other);
            lemma_word_view_bound(*n);
        }
        let s = self.wrapping_add(other);
        let carried = s.lt(self);
        proof {
            if self@ + other@ < p256() {
                lemma_small_mod((self@ + other@) as nat, p256());
                assert(!carried);
            } else {
                lemma_mod_sub_multiples_vanish((self@ + other@) as int, p256() as int);
                lemma_small_mod((self@ + other@ - p256()) as nat, p256());
                assert(carried);
            }
        }
        if carried {
            // True sum is s + 2^256, which lies in [n, 2n); subtract n once.
            proof {
                lemma_mod_sub_multiples_vanish((s@ + p256()) as int, n@ as int);
                lemma_small_mod((s@ + p256() - n@) as nat, n@);
            }
            s.wrapping_sub(n)
        } else if !s.lt(n) {
            proof {
                lemma_mod_sub_multiples_vanish(s@ as int, n@ as int);
                lemma_small_mod((s@ - n@) as nat, n@);
            }
            s.wrapping_sub(n)
        } else {
            proof {
                lemma_small_mod(s@, n@);
            }
            s
        }
    }

    /// Modular addition over the full 257-bit sum; a zero modulus yields
    /// zero.
    pub fn addmod_or_zero(&self, other: &Word, n: &Word) -> (r: Word)
        ensures
            n@ == 0 ==> r@ == 0,
            n@ != 0 ==> r@ == (self@ + other@) % n@,
    {
        if n.is_zero() {
            return Word::zero();
        }
        let a = rem_unchecked(self, n);
        let b = rem_unchecked(other, n);
        proof {
            vstd::arithmetic::div_mod::lemma_mod_division_less_than_divisor(
                self@ as int,
                n@ as int,
            );
            vstd::arithmetic::div_mod::lemma_mod_division_less_than_divisor(
                other@ as int,
                n@ as int,
            );
            lemma_add_mod_noop(self@ as int, other@ as int, n@ as int);
        }
        a.addmod_reduced(&b, n)
    }

    /// Modular multiplication over the full 512-bit product, by binary
    /// double-and-add on the multiplier's bits; a zero modulus yields zero.
    pub fn mulmod_or_zero(&self, other: &Word, n: &Word) -> (r: Word)
        ensures
            n@ == 0 ==> r@ == 0,
            n@ != 0 ==> r@ == (self@ * other@) % n@,
    {
        if n.is_zero() {
            return Word::zero();
        }
        let a = rem_unchecked(self, n);
        proof {
            vstd::arithmetic::div_mod::lemma_mod_division_less_than_divisor(
                self@ as int,
                n@ as int,
            );
            lemma_word_view_bound(*other);
            lemma_p_pow2();
            lemma_basic_div(other@ as int, pow2(256) as int);
            lemma_pow2_pos(256);
            lemma_small_mod(0, n@);
            assert(other@ / pow2((256 - 0) as nat) == 0);
        }
        let bits = other.bits_be();
        let mut acc = Word::zero();
        let mut i: usize = 0;
        while i < 256
            invariant
                i <= 256,
                n@ > 0,
                a@ == self@ % n@,
                acc@ < n@,
                bits@.len() == 256,
                forall|t: int|
                    0 <= t < 256 ==> bits@[t] == ((other@ / pow2((255 - t) as nat)) % 2 == 1),
                acc@ == (self@ * (other@ / pow2((256 - i) as nat))) % n@,
            decreases 256 - i,
        {
            let ghost pre = other@ / pow2((256 - i) as nat);
            let ghost bit: nat = (other@ / pow2((255 - i) as nat)) % 2;
            let ghost m = n@;
            proof {
                lemma_step_prefix(other@, (255 - i) as nat);
                assert(other@ / pow2((255 - i) as nat) == 2 * pre + bit);
            }
            let doubled = acc.addmod_reduced(&acc, n);
            proof {
                assert(doubled@ == (2 * (self@ * pre % m)) % m);
                lemma_mul_mod_noop_right(2, (self@ * pre) as int, m as int);
                assert(2 * (self@ * pre) == self@ * (2 * pre)) by (nonlinear_arith);
                assert(doubled@ == (self@ * (2 * pre)) % m);
            }
            acc = doubled;
            if bits[i] {
                let added = acc.addmod_reduced(&a, n);
                proof {
                    lemma_add_mod_noop((self@ * (2 * pre)) as int, self@ as int, m as int);
                    assert(added@ == (self@ * (2 * pre) + self@) % m);
                    assert(self@ * (2 * pre) + self@ == self@ * (2 * pre + 1))
                        by (nonlinear_arith);
                    assert(added@ == (self@ * (2 * pre + 1)) % m);
                }
                acc = added;
            }
            proof {
                assert(acc@ == (self@ * (2 * pre + bit)) % m);
            }
            i = i + 1;
        }
        proof {
            lemma2_to64();
            vstd::arithmetic::div_mod::lemma_div_basics(other@ as int);
        }
        acc
    }

    /// Exponentiation modulo `2^256`, by binary square-and-multiply on the
    /// exponent's bits.
    pub fn exp_word(&self, exponent: &Word) -> (r: Word)
        ensures
            r@ == pow(self@ as int, exponent@) % (p256() as int),
    {
        proof {
            lemma_word_view_bound(*self);
            lemma_word_view_bound(*exponent);
            lemma_p_pow2();
            lemma_basic_div(exponent@ as int, pow2(256) as int);
            lemma_pow2_pos(256);
            lemma_pow0(self@ as int);
            lemma_small_mod(1, p256());
        }
        let bits = exponent.bits_be();
        let mut acc = Word::one();
        let mut i: usize = 0;
        while i < 256
            invariant
                i <= 256,
                self@ < p256(),
                bits@.len() == 256,
                forall|t: int|
                    0 <= t < 256 ==> bits@[t] == ((exponent@ / pow2((255 - t) as nat)) % 2
                        == 1),
                acc@ == pow(self@ as int, exponent@ / pow2((256 - i) as nat)) % (
                p256() as int),
            decreases 256 - i,
        {
            let ghost pre = exponent@ / pow2((256 - i) as nat);
            let ghost bit: nat = (exponent@ / pow2((255 - i) as nat)) % 2;
            proof {
                lemma_step_prefix(exponent@, (255 - i) as nat);
                lemma_pow2_pos((255 - i) as nat);
                if self@ == 0 {
                    lemma_pow0(0);
                    if pre > 0 {
                        vstd::arithmetic::power::lemma0_pow(pre);
                    }
                } else {
                    vstd::arithmetic::power::lemma_pow_positive(self@ as int, pre);
                }
            }
            let squared = mul_wrapped(&acc, &acc);
            proof {
                // squared == pow(self, 2 * pre) % 2^256
                let b = self@ as int;
                let m = p256() as int;
                vstd::arithmetic::div_mod::lemma_mul_mod_noop_general(
                    pow(b, pre),
                    pow(b, pre),
                    m,
                );
                lemma_pow_adds(b, pre, pre);
            }
            acc = squared;
            if bits[i] {
                let stepped = mul_wrapped(&acc, self);
                proof {
                    let b = self@ as int;
                    let m = p256() as int;
                    vstd::arithmetic::div_mod::lemma_mul_mod_noop_left(
                        pow(b, (2 * pre) as nat),
                        b,
                        m,
                    );
                    lemma_pow_adds(b, (2 * pre) as nat, 1);
                    lemma_pow1(b);
                }
                acc = stepped;
            }
            proof {
                assert(2 * pre + bit == exponent@ / pow2((255 - i) as nat));
            }
            i = i + 1;
        }
        proof {
            lemma2_to64();
            vstd::arithmetic::div_mod::lemma_div_basics(exponent@ as int);
        }
        acc
    }
}

/// The value a sign-extension produces: the low `8 * (b + 1)` bytes of `v`
/// read as a two's-complement number, re-embedded into a word.
pub open spec fn sext_val(v: nat, b: nat) -> nat {
    if b >= 31 {
        v
    } else {
        let m = (8 * (b + 1)) as nat;
        let low = v % pow2(m);
        if low < pow2((m - 1) as nat) {
            low
        } else {
            (low + p256() - pow2(m)) as nat
        }
    }
}

impl Word {
    /// Left shift: multiplication by `2^shift` modulo `2^256`.
    pub fn shl_word(&self, shift: &Word) -> (r: Word)
        ensures
            r@ == (self@ * pow(2, shift@)) % (p256() as int),
    {
        let two = Word::new(0, 2);
        let pw = two.exp_word(shift);
        proof {
            vstd::arithmetic::power::lemma_pow_positive(2, shift@);
            lemma_mul_mod_noop_right(self@ as int, pow(2, shift@), p256() as int);
        }
        mul_wrapped(self, &pw)
    }

    /// Logical right shift: division by `2^shift`.
    pub fn shr_word(&self, shift: &Word) -> (r: Word)
        ensures
            r@ == self@ / pow2(shift@),
    {
        proof {
            lemma_word_view_bound(*self);
            lemma_word_view_bound(*shift);
            lemma_p_pow2();
        }
        if shift.hi != 0 || shift.lo >= 256 {
            proof {
                if shift.hi != 0 {
                    vstd::arithmetic::mul::lemma_mul_inequality(
                        1,
                        shift.hi as int,
                        crate::word::p128() as int,
                    );
                }
                if shift@ > 256 {
                    lemma_pow2_strictly_increases(256, shift@);
                }
                lemma_pow2_pos(shift@);
                lemma_basic_div(self@ as int, pow2(shift@) as int);
            }
            Word::zero()
        } else {
            let two = Word::new(0, 2);
            let pw = two.exp_word(shift);
            proof {
                lemma_exp2_small(pw, shift@);
                lemma_pow2_pos(shift@);
            }
            div_unchecked(self, &pw)
        }
    }

    /// Arithmetic right shift: floor division of the signed reading by
    /// `2^shift`, re-embedded into a word.
    pub fn sar_word(&self, shift: &Word) -> (r: Word)
        ensures
            r@ == (signed(*self) / (pow2(shift@) as int)) % (p256() as int),
    {
        proof {
            lemma_word_view_bound(*self);
            lemma_sign_bit(*self);
            lemma_pow2_pos(shift@);
        }
        if self.hi < 0x8000_0000_0000_0000_0000_0000_0000_0000 {
            let r = self.shr_word(shift);
            proof {
                vstd::arithmetic::div_mod::lemma_div_is_ordered_by_denominator(
                    self@ as int,
                    1,
                    pow2(shift@) as int,
                );
                vstd::arithmetic::div_mod::lemma_div_basics(self@ as int);
                vstd::arithmetic::div_mod::lemma_div_pos_is_pos(
                    self@ as int,
                    pow2(shift@) as int,
                );
                lemma_small_mod((self@ / pow2(shift@)) as nat, p256());
            }
            r
        } else {
            let flipped = self.not_word();
            let q1 = flipped.shr_word(shift);
            let r = q1.not_word();
            proof {
                let d = pow2(shift@) as int;
                let x = p256() - 1 - self@;
                lemma_fundamental_div_mod(x as int, d);
                let q = x as int / d;
                let rr = x as int % d;
                vstd::arithmetic::div_mod::lemma_mod_division_less_than_divisor(
                    x as int,
                    d,
                );
                assert((-q - 1) * d == -(d * q) - d) by (nonlinear_arith);
                lemma_fundamental_div_mod_converse(
                    signed(*self),
                    d,
                    -q - 1,
                    d - 1 - rr,
                );
                // q is at most x, so -q - 1 lies within one modulus below zero.
                vstd::arithmetic::div_mod::lemma_div_is_ordered_by_denominator(
                    x as int,
                    1,
                    d,
                );
                vstd::arithmetic::div_mod::lemma_div_basics(x as int);
                lemma_mod_add_multiples_vanish(-q - 1, p256() as int);
                lemma_small_mod((p256() - 1 - q) as nat, p256());
            }
            r
        }
    }

    /// The byte at big-endian position `i` of the word, or zero when `i`
    /// is 32 or more.
    pub fn byte_word(&self, i: &Word) -> (r: Word)
        ensures
            i@ < 32 ==> r@ == byte_of(self@, i@ as int),
            i@ >= 32 ==> r@ == 0,
    {
        proof {
            lemma_word_view_bound(*i);
        }
        if i.hi != 0 || i.lo >= 32 {
            proof {
                if i.hi != 0 {
                    vstd::arithmetic::mul::lemma_mul_inequality(
                        1,
                        i.hi as int,
                        crate::word::p128() as int,
                    );
                }
            }
            Word::zero()
        } else {
            let bytes = self.to_be_bytes();
            Word::from_u64(bytes[i.lo as usize] as u64)
        }
    }

    /// Sign extension from the low `8 * (b + 1)` bits.
    pub fn signextend_word(&self, b: &Word) -> (r: Word)
        ensures
            r@ == sext_val(self@, b@),
    {
        proof {
            lemma_word_view_bound(*self);
            lemma_word_view_bound(*b);
        }
        if b.hi != 0 || b.lo >= 31 {
            proof {
                if b.hi != 0 {
                    vstd::arithmetic::mul::lemma_mul_inequality(
                        1,
                        b.hi as int,
                        crate::word::p128() as int,
                    );
                }
            }
            return *self;
        }
        let m: u64 = 8 * ((b.lo as u64) + 1);
        let two = Word::new(0, 2);
        let pw = two.exp_word(&Word::from_u64(m));
        let half = two.exp_word(&Word::from_u64(m - 1));
        proof {
            lemma_exp2_small(pw, m as nat);
            lemma_exp2_small(half, (m - 1) as nat);
            lemma_pow2_pos(m as nat);
        }
        let low = rem_unchecked(self, &pw);
        if low.lt(&half) {
            low
        } else {
            let offset = pw.neg_word();
            proof {
                vstd::arithmetic::div_mod::lemma_mod_division_less_than_divisor(
                    self@ as int,
                    pw@ as int,
                );
                lemma_p_pow2();
                lemma_pow2_strictly_increases(m as nat, 256);
                lemma_small_mod((low@ + offset@) as nat, p256());
            }
            low.wrapping_add(&offset)
        }
    }
}

/// `2^160`, the weight just above an address's bits.
pub open spec fn p160() -> nat {
    0x1_0000_0000_0000_0000_0000_0000_0000_0000_0000_0000nat
}

impl Word {
    /// The low 160 bits of the word: its reading as an account address.
    pub fn mask_address(&self) -> (r: Word)
        ensures
            r@ == self@ % p160(),
    {
        let hi_masked: u128 = self.hi % 0x1_0000_0000;
        proof {
            let q = self.hi as int / 0x1_0000_0000;
            let rm = self.hi as int % 0x1_0000_0000;
            lemma_fundamental_div_mod(self.hi as int, 0x1_0000_0000);
            vstd::arithmetic::div_mod::lemma_mod_division_less_than_divisor(
                self.hi as int,
                0x1_0000_0000,
            );
            vstd::arithmetic::div_mod::lemma_div_pos_is_pos(self.hi as int, 0x1_0000_0000);
            assert(self@ == q * p160() + (rm * crate::word::p128() + self.lo))
                by (nonlinear_arith)
                requires
                    self@ == self.hi * crate::word::p128() + self.lo,
                    self.hi == q * 0x1_0000_0000 + rm,
                    p160() == 0x1_0000_0000 * crate::word::p128(),
            ;
            assert(rm * crate::word::p128() + self.lo < p160()) by (nonlinear_arith)
                requires
                    0 <= rm < 0x1_0000_0000,
                    0 <= self.lo < crate::word::p128(),
                    p160() == 0x1_0000_0000 * crate::word::p128(),
            ;
            vstd::arithmetic::div_mod::lemma_mod_multiples_vanish(
                q,
                rm * crate::word::p128() + self.lo,
                p160() as int,
            );
            lemma_small_mod((rm * crate::word::p128() + self.lo) as nat, p160());
        }
        Word { hi: hi_masked, lo: self.lo }
    }
}

/// A word holding `pow(2, s) % 2^256` holds exactly `2^s` when `s < 256`.
proof fn lemma_exp2_small(r: Word, s: nat)
    requires
        s < 256,
        r@ == pow(2, s) % (p256() as int),
    ensures
        r@ == pow2(s),
{
    lemma_pow2(s);
    lemma_pow2_strictly_increases(s, 256);
    lemma_p_pow2();
    lemma_small_mod(pow2(s), p256());
}

/// One halving step of the big-endian prefix of a value: the prefix through
/// bit `255 - k` is twice the prefix before it plus that bit.
pub proof fn lemma_step_prefix(v: nat, k: nat)
    requires
        k < 256,
    ensures
        v / pow2(k) == 2 * (v / pow2((k + 1) as nat)) + (v / pow2(k)) % 2,
{
    lemma_pow2_pos(k);
    lemma_pow2_pos((k + 1) as nat);
    vstd::arithmetic::power2::lemma_pow2_adds(k, 1);
    lemma2_to64();
    vstd::arithmetic::div_mod::lemma_div_denominator(v as int, pow2(k) as int, 2);
    lemma_fundamental_div_mod((v / pow2(k)) as int, 2);
}

/// The sign of a word's two's-complement reading shows in its high limb.
pub proof fn lemma_sign_bit(w: Word)
    ensures
        (w.hi >= 0x8000_0000_0000_0000_0000_0000_0000_0000) == (signed(w) < 0),
        signed(w) < 0 ==> abs_int(signed(w)) == p256() - w@,
        signed(w) >= 0 ==> abs_int(signed(w)) == w@,
{
    lemma_word_view_bound(w);
    if w.hi >= 0x8000_0000_0000_0000_0000_0000_0000_0000 {
        vstd::arithmetic::mul::lemma_mul_inequality(
            0x8000_0000_0000_0000_0000_0000_0000_0000,
            w.hi as int,
            crate::word::p128() as int,
        );
    } else {
        vstd::arithmetic::mul::lemma_mul_inequality(
            w.hi as int + 1,
            0x8000_0000_0000_0000_0000_0000_0000_0000,
            crate::word::p128() as int,
        );
    }
}

/// Negating a value below `2^256` and reducing modulo `2^256` flips it to
/// `2^256 - x` (and keeps zero at zero).
pub proof fn lemma_neg_mod(x: nat)
    requires
        x < p256(),
    ensures
        x == 0 ==> (-(x as int)) % (p256() as int) == 0,
        x > 0 ==> (-(x as int)) % (p256() as int) == p256() - x,
{
    let m = p256() as int;
    if x == 0 {
        lemma_small_mod(0, p256());
    } else {
        lemma_mod_add_multiples_vanish(-(x as int), m);
        lemma_small_mod((p256() - x) as nat, p256());
    }
}

} // verus!
