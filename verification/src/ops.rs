//! The opcode handlers: each states exactly how it transforms the frame
//! (and, where it touches it, the world state).
//!
//! Stack convention: `peek(s, 0)` is the first operand popped. A handler
//! that cannot pop enough operands halts the frame with a stack underflow;
//! one that would push past the depth limit halts it with a stack overflow;
//! both consume all gas.

use vstd::prelude::*;
use vstd::arithmetic::power::pow;
use vstd::arithmetic::power2::pow2;

use crate::arith::{p160, sdiv_val, sext_val, smod_val, to_word_val};
use crate::blockchain::{
    balance_of, code_of, contains_addr, nonce_of, observes_eq, storage_of, BlockChain,
};
use crate::evm::{
    stack_limit,
    mem_read, peek, sat_usize, stack_drop, stack_replace, Halt, EVM,
};
use crate::word::{
    be_nat, byte_of, p256, signed_val, word_of, Word,
};

verus! {

/// The binary word operations: arithmetic, comparisons, bit operations,
/// shifts, byte extraction and sign extension.
pub open spec fn is_alu2(op: u8) -> bool {
    (0x01 <= op <= 0x07) || op == 0x0A || op == 0x0B || (0x10 <= op <= 0x14) || (0x16 <= op
        <= 0x18) || (0x1A <= op <= 0x1D)
}

/// The value a binary word operation pushes; `a` is popped first, `b`
/// second.
pub open spec fn alu2_val(op: u8, a: nat, b: nat) -> nat {
    if op == 0x01 {
        (a + b) % p256()
    } else if op == 0x02 {
        (a * b) % p256()
    } else if op == 0x03 {
        if a >= b {
            (a - b) as nat
        } else {
            (a + p256() - b) as nat
        }
    } else if op == 0x04 {
        if b == 0 {
            0
        } else {
            a / b
        }
    } else if op == 0x05 {
        to_word_val(sdiv_val(signed_val(a), signed_val(b)))
    } else if op == 0x06 {
        if b == 0 {
            0
        } else {
            a % b
        }
    } else if op == 0x07 {
        to_word_val(smod_val(signed_val(a), signed_val(b)))
    } else if op == 0x0A {
        (pow(a as int, b) % (p256() as int)) as nat
    } else if op == 0x0B {
        sext_val(b, a)
    } else if op == 0x10 {
        if a < b {
            1
        } else {
            0
        }
    } else if op == 0x11 {
        if a > b {
            1
        } else {
            0
        }
    } else if op == 0x12 {
        if signed_val(a) < signed_val(b) {
            1
        } else {
            0
        }
    } else if op == 0x13 {
        if signed_val(a) > signed_val(b) {
            1
        } else {
            0
        }
    } else if op == 0x14 {
        if a == b {
            1
        } else {
            0
        }
    } else if op == 0x16 {
        ((word_of(a).hi & word_of(b).hi) * crate::word::p128() + (word_of(a).lo & word_of(
            b,
        ).lo)) as nat
    } else if op == 0x17 {
        ((word_of(a).hi | word_of(b).hi) * crate::word::p128() + (word_of(a).lo | word_of(
            b,
        ).lo)) as nat
    } else if op == 0x18 {
        ((word_of(a).hi ^ word_of(b).hi) * crate::word::p128() + (word_of(a).lo ^ word_of(
            b,
        ).lo)) as nat
    } else if op == 0x1A {
        if a >= 32 {
            0
        } else {
            byte_of(b, a as int) as nat
        }
    } else if op == 0x1B {
        ((b * pow(2, a)) % (p256() as int)) as nat
    } else if op == 0x1C {
        b / pow2(a)
    } else {
        // arithmetic right shift
        ((signed_val(b) / (pow2(a) as int)) % (p256() as int)) as nat
    }
}

/// The unary word operations: is-zero and bitwise complement.
pub open spec fn is_alu1(op: u8) -> bool {
    op == 0x15 || op == 0x19
}

/// The value a unary word operation pushes.
pub open spec fn alu1_val(op: u8, a: nat) -> nat {
    if op == 0x15 {
        if a == 0 {
            1
        } else {
            0
        }
    } else {
        (p256() - 1 - a) as nat
    }
}

/// The value a wide modular operation pushes: the full sum or product of
/// the first two operands reduced by the third, zero for a zero modulus.
pub open spec fn alu3_val(op: u8, a: nat, b: nat, n: nat) -> nat {
    if n == 0 {
        0
    } else if op == 0x08 {
        (a + b) % n
    } else {
        (a * b) % n
    }
}

/// The `size` bytes of a memory image starting at `off`, reading zero past
/// its end.
pub open spec fn mem_slice(m: Seq<u8>, off: nat, size: nat) -> Seq<u8> {
    Seq::new(size, |i: int| mem_read(m, off as int, i))
}

/// Arithmetic closure: on operands below `2^256`, every word operation's
/// result again fits in 256 bits, so no overflow is observable.
pub proof fn lemma_arithmetic_closure(op: u8, a: nat, b: nat, n: nat)
    requires
        a < p256(),
        b < p256(),
        n < p256(),
    ensures
        alu2_val(op, a, b) < p256(),
        alu1_val(op, a) < p256(),
        alu3_val(op, a, b, n) < p256(),
{
    vstd::arithmetic::div_mod::lemma_mod_division_less_than_divisor(
        (a + b) as int,
        p256() as int,
    );
    vstd::arithmetic::div_mod::lemma_mod_division_less_than_divisor(
        (a * b) as int,
        p256() as int,
    );
    assert(to_word_val(sdiv_val(signed_val(a), signed_val(b))) < p256()) by {
        vstd::arithmetic::div_mod::lemma_mod_division_less_than_divisor(
            sdiv_val(signed_val(a), signed_val(b)),
            p256() as int,
        );
    }
    assert(to_word_val(smod_val(signed_val(a), signed_val(b))) < p256()) by {
        vstd::arithmetic::div_mod::lemma_mod_division_less_than_divisor(
            smod_val(signed_val(a), signed_val(b)),
            p256() as int,
        );
    }
    assert((pow(a as int, b) % (p256() as int)) < p256() as int) by {
        vstd::arithmetic::div_mod::lemma_mod_division_less_than_divisor(
            pow(a as int, b),
            p256() as int,
        );
        if a == 0 {
            vstd::arithmetic::power::lemma_pow0(0);
            if b > 0 {
                vstd::arithmetic::power::lemma0_pow(b);
            }
        } else {
            vstd::arithmetic::power::lemma_pow_positive(a as int, b);
        }
    }
    if b != 0 {
        vstd::arithmetic::div_mod::lemma_div_is_ordered_by_denominator(a as int, 1, b as int);
        vstd::arithmetic::div_mod::lemma_div_basics(a as int);
        vstd::arithmetic::div_mod::lemma_mod_division_less_than_divisor(a as int, b as int);
    }
    assert(sext_val(b, a) < p256()) by {
        if a < 31 {
            let m = (8 * (a + 1)) as nat;
            vstd::arithmetic::power2::lemma_pow2_pos(m);
            vstd::arithmetic::div_mod::lemma_mod_division_less_than_divisor(
                b as int,
                pow2(m) as int,
            );
            crate::word::lemma_p_pow2();
            vstd::arithmetic::power2::lemma_pow2_strictly_increases(m, 256);
        }
    }
    assert(((b * pow(2, a)) % (p256() as int)) < p256() as int) by {
        vstd::arithmetic::power::lemma_pow_positive(2, a);
        vstd::arithmetic::mul::lemma_mul_nonnegative(b as int, pow(2, a));
        vstd::arithmetic::div_mod::lemma_mod_division_less_than_divisor(
            b * pow(2, a),
            p256() as int,
        );
    }
    assert(b / pow2(a) < p256()) by {
        vstd::arithmetic::power2::lemma_pow2_pos(a);
        vstd::arithmetic::div_mod::lemma_div_is_ordered_by_denominator(
            b as int,
            1,
            pow2(a) as int,
        );
        vstd::arithmetic::div_mod::lemma_div_basics(b as int);
        vstd::arithmetic::div_mod::lemma_div_pos_is_pos(b as int, pow2(a) as int);
    }
    assert(((signed_val(b) / (pow2(a) as int)) % (p256() as int)) < p256() as int) by {
        vstd::arithmetic::div_mod::lemma_mod_division_less_than_divisor(
            signed_val(b) / (pow2(a) as int),
            p256() as int,
        );
    }
    assert((word_of(a).hi & word_of(b).hi) * crate::word::p128() + (word_of(a).lo & word_of(
        b,
    ).lo) < p256()) by {
        crate::word::lemma_word_view_bound(
            crate::word::Word {
                hi: word_of(a).hi & word_of(b).hi,
                lo: word_of(a).lo & word_of(b).lo,
            },
        );
    }
    assert((word_of(a).hi | word_of(b).hi) * crate::word::p128() + (word_of(a).lo | word_of(
        b,
    ).lo) < p256()) by {
        crate::word::lemma_word_view_bound(
            crate::word::Word {
                hi: word_of(a).hi | word_of(b).hi,
                lo: word_of(a).lo | word_of(b).lo,
            },
        );
    }
    assert((word_of(a).hi ^ word_of(b).hi) * crate::word::p128() + (word_of(a).lo ^ word_of(
        b,
    ).lo) < p256()) by {
        crate::word::lemma_word_view_bound(
            crate::word::Word {
                hi: word_of(a).hi ^ word_of(b).hi,
                lo: word_of(a).lo ^ word_of(b).lo,
            },
        );
    }
    if n != 0 {
        vstd::arithmetic::div_mod::lemma_mod_division_less_than_divisor(
            (a + b) as int,
            n as int,
        );
        vstd::arithmetic::div_mod::lemma_mod_division_less_than_divisor(
            (a * b) as int,
            n as int,
        );
    }
}

/// Division policy: division or remainder by zero yields zero, for the
/// unsigned, signed and wide modular operations alike.
pub proof fn lemma_division_policy(a: nat, b: nat, x: int)
    ensures
        alu2_val(0x04, a, 0) == 0,
        alu2_val(0x06, a, 0) == 0,
        sdiv_val(x, 0) == 0,
        smod_val(x, 0) == 0,
        alu2_val(0x05, a, 0) == 0,
        alu2_val(0x07, a, 0) == 0,
        alu3_val(0x08, a, b, 0) == 0,
        alu3_val(0x09, a, b, 0) == 0,
{
    assert(signed_val(0nat) == 0);
    vstd::arithmetic::div_mod::lemma_small_mod(0, p256());
}

impl EVM {
    /// A binary word operation: pop two operands, push the operation's
    /// value.
    pub fn op_alu2(&mut self, op: u8)
        requires
            is_alu2(op),
            old(self).halt == Halt::Running,
            old(self).wf(),
        ensures
            final(self).wf(),
            final(self).gas@ <= old(self).gas@,
            EVM::keeps_env(*old(self), *final(self)),
            final(self).pc == old(self).pc,
            final(self).memory@ == old(self).memory@,
            final(self).returndata@ == old(self).returndata@,
            old(self).stack@.len() >= 2 ==> final(self).halt == Halt::Running && final(self).gas == old(self).gas && stack_replace(
                old(self).stack@,
                2,
                final(self).stack@,
                alu2_val(op, peek(old(self).stack@, 0), peek(old(self).stack@, 1)),
            ),
            old(self).stack@.len() < 2 ==> final(self).stack_fault(),
    {
        let a = match self.stack_pop() {
            Some(w) => w,
            None => {
                return ;
            },
        };
        let b = match self.stack_pop() {
            Some(w) => w,
            None => {
                return ;
            },
        };
        let r: Word = if op == 0x01 {
            a.wrapping_add(&b)
        } else if op == 0x02 {
            crate::arith::mul_wrapped(&a, &b)
        } else if op == 0x03 {
            proof {
                crate::word::lemma_word_view_bound(a);
                crate::word::lemma_word_view_bound(b);
            }
            a.wrapping_sub(&b)
        } else if op == 0x04 {
            a.div_or_zero(&b)
        } else if op == 0x05 {
            a.sdiv_or_zero(&b)
        } else if op == 0x06 {
            a.rem_or_zero(&b)
        } else if op == 0x07 {
            a.smod_or_zero(&b)
        } else if op == 0x0A {
            a.exp_word(&b)
        } else if op == 0x0B {
            b.signextend_word(&a)
        } else if op == 0x10 {
            crate::utils::bool_to_u256(a.lt(&b))
        } else if op == 0x11 {
            crate::utils::bool_to_u256(b.lt(&a))
        } else if op == 0x12 {
            crate::utils::bool_to_u256(a.slt(&b))
        } else if op == 0x13 {
            crate::utils::bool_to_u256(b.slt(&a))
        } else if op == 0x14 {
            crate::utils::bool_to_u256(a.eq_word(&b))
        } else if op == 0x16 {
            proof {
                crate::word::lemma_word_of_view(a);
                crate::word::lemma_word_of_view(b);
            }
            a.bitand_word(&b)
        } else if op == 0x17 {
            proof {
                crate::word::lemma_word_of_view(a);
                crate::word::lemma_word_of_view(b);
            }
            a.bitor_word(&b)
        } else if op == 0x18 {
            proof {
                crate::word::lemma_word_of_view(a);
                crate::word::lemma_word_of_view(b);
            }
            a.bitxor_word(&b)
        } else if op == 0x1A {
            b.byte_word(&a)
        } else if op == 0x1B {
            b.shl_word(&a)
        } else if op == 0x1C {
            b.shr_word(&a)
        } else {
            b.sar_word(&a)
        };
        self.stack_push(r);
        proof {
            assert(self.stack@.subrange(0, self.stack@.len() - 1) =~= old(
                self,
            ).stack@.subrange(0, old(self).stack@.len() - 2));
        }
    }

    /// A unary word operation: replace the top of the stack with the
    /// operation's value.
    pub fn op_alu1(&mut self, op: u8)
        requires
            is_alu1(op),
            old(self).halt == Halt::Running,
            old(self).wf(),
        ensures
            final(self).wf(),
            final(self).gas@ <= old(self).gas@,
            EVM::keeps_env(*old(self), *final(self)),
            final(self).pc == old(self).pc,
            final(self).memory@ == old(self).memory@,
            final(self).returndata@ == old(self).returndata@,
            old(self).stack@.len() >= 1 ==> final(self).halt == Halt::Running && final(self).gas == old(self).gas && stack_replace(
                old(self).stack@,
                1,
                final(self).stack@,
                alu1_val(op, peek(old(self).stack@, 0)),
            ),
            old(self).stack@.len() < 1 ==> final(self).stack_fault(),
    {
        let a = match self.stack_pop() {
            Some(w) => w,
            None => {
                return ;
            },
        };
        let r: Word = if op == 0x15 {
            crate::utils::bool_to_u256(a.is_zero())
        } else {
            a.not_word()
        };
        self.stack_push(r);
        proof {
            assert(self.stack@.subrange(0, self.stack@.len() - 1) =~= old(
                self,
            ).stack@.subrange(0, old(self).stack@.len() - 1));
        }
    }

    /// A wide modular operation: pop two operands and a modulus, push the
    /// reduced sum or product.
    pub fn op_alu3(&mut self, op: u8)
        requires
            op == 0x08 || op == 0x09,
            old(self).halt == Halt::Running,
            old(self).wf(),
        ensures
            final(self).wf(),
            final(self).gas@ <= old(self).gas@,
            EVM::keeps_env(*old(self), *final(self)),
            final(self).pc == old(self).pc,
            final(self).memory@ == old(self).memory@,
            final(self).returndata@ == old(self).returndata@,
            old(self).stack@.len() >= 3 ==> final(self).halt == Halt::Running && final(self).gas == old(self).gas && stack_replace(
                old(self).stack@,
                3,
                final(self).stack@,
                alu3_val(
                    op,
                    peek(old(self).stack@, 0),
                    peek(old(self).stack@, 1),
                    peek(old(self).stack@, 2),
                ),
            ),
            old(self).stack@.len() < 3 ==> final(self).stack_fault(),
    {
        let a = match self.stack_pop() {
            Some(w) => w,
            None => {
                return ;
            },
        };
        let b = match self.stack_pop() {
            Some(w) => w,
            None => {
                return ;
            },
        };
        let n = match self.stack_pop() {
            Some(w) => w,
            None => {
                return ;
            },
        };
        let r: Word = if op == 0x08 {
            a.addmod_or_zero(&b, &n)
        } else {
            a.mulmod_or_zero(&b, &n)
        };
        self.stack_push(r);
        proof {
            assert(self.stack@.subrange(0, self.stack@.len() - 1) =~= old(
                self,
            ).stack@.subrange(0, old(self).stack@.len() - 3));
        }
    }

    /// Hash a memory region: pop offset and size, push the Keccak-256
    /// digest of those bytes as a word.
    pub fn op_sha3(&mut self)
        requires
            old(self).halt == Halt::Running,
            old(self).wf(),
        ensures
            final(self).wf(),
            final(self).gas@ <= old(self).gas@,
            EVM::keeps_env(*old(self), *final(self)),
            final(self).pc == old(self).pc,
            final(self).returndata@ == old(self).returndata@,
            final(self).memory@.len() >= old(self).memory@.len(),
            old(self).stack@.len() < 2 ==> final(self).stack_fault(),
            old(self).stack@.len() >= 2 && sat_usize(peek(old(self).stack@, 0)) + sat_usize(
                peek(old(self).stack@, 1),
            ) > usize::MAX ==> final(self).halt == Halt::OutOfBounds,
            old(self).stack@.len() >= 2 && sat_usize(peek(old(self).stack@, 0)) + sat_usize(
                peek(old(self).stack@, 1),
            ) <= usize::MAX ==> final(self).halt == Halt::Running && final(self).gas == old(
                self,
            ).gas && stack_replace(
                old(self).stack@,
                2,
                final(self).stack@,
                be_nat(
                    crate::utils::keccak256_of(
                        mem_slice(
                            old(self).memory@,
                            sat_usize(peek(old(self).stack@, 0)),
                            sat_usize(peek(old(self).stack@, 1)),
                        ),
                    ),
                ),
            ),
    {
        let offset_w = match self.stack_pop() {
            Some(w) => w,
            None => {
                return ;
            },
        };
        let size_w = match self.stack_pop() {
            Some(w) => w,
            None => {
                return ;
            },
        };
        let offset = offset_w.as_usize_saturating();
        let size = size_w.as_usize_saturating();
        if size > usize::MAX - offset {
            self.halt = Halt::OutOfBounds;
            return ;
        }
        let data = self.memory_load(offset, size);
        proof {
            assert(data@ =~= mem_slice(
                old(self).memory@,
                sat_usize(peek(old(self).stack@, 0)),
                sat_usize(peek(old(self).stack@, 1)),
            ));
        }
        let hash = crate::utils::keccak256(&data);
        let r = Word::from_be_bytes(&hash);
        self.stack_push(r);
        proof {
            assert(self.stack@.subrange(0, self.stack@.len() - 1) =~= old(
                self,
            ).stack@.subrange(0, old(self).stack@.len() - 2));
        }
    }
}

/// The opcodes that push a value read off the frame or its context.
pub open spec fn is_env_push(op: u8) -> bool {
    op == 0x30 || op == 0x32 || op == 0x33 || op == 0x34 || op == 0x36 || op == 0x38 || op
        == 0x3A || op == 0x3D || op == 0x58 || op == 0x59 || op == 0x5A || op == 0x5F
}

/// The value such an opcode pushes.
pub open spec fn env_val(f: EVM, op: u8) -> nat {
    if op == 0x30 {
        f.ctx.address@
    } else if op == 0x32 {
        f.ctx.tx.origin@
    } else if op == 0x33 {
        f.ctx.msg.from@
    } else if op == 0x34 {
        f.ctx.msg.value@
    } else if op == 0x36 {
        f.ctx.msg.calldata@.len()
    } else if op == 0x38 {
        f.ctx.code@.len()
    } else if op == 0x3A {
        f.ctx.tx.gasprice@
    } else if op == 0x3D {
        f.returndata@.len()
    } else if op == 0x58 {
        f.pc as nat
    } else if op == 0x59 {
        f.memory@.len()
    } else if op == 0x5A {
        f.gas@
    } else {
        0
    }
}

/// The block-info opcodes.
pub open spec fn is_block_push(op: u8) -> bool {
    (0x40 <= op <= 0x46) || op == 0x48
}

/// The value a block-info opcode pushes; an empty block list reads as a
/// zeroed header.
pub open spec fn block_val(blocks: Seq<crate::blockchain::Block>, op: u8) -> nat {
    if blocks.len() == 0 {
        0
    } else {
        let b = blocks.last();
        if op == 0x40 {
            b.blockhash@
        } else if op == 0x41 {
            b.coinbase@
        } else if op == 0x42 {
            b.timestamp@
        } else if op == 0x43 {
            b.number@
        } else if op == 0x44 {
            b.difficulty@
        } else if op == 0x45 {
            b.gaslimit@
        } else if op == 0x46 {
            b.chainid@
        } else {
            b.basefee@
        }
    }
}

/// Whether `dest` is a valid jump target in `code`: in range and marked by
/// the JUMPDEST byte.
pub open spec fn is_jumpdest(code: Seq<u8>, dest: nat) -> bool {
    dest < code.len() && code[dest as int] == 0x5B
}

/// Memory after writing `data` at `off`: grown to cover the write, the
/// written range holds `data`, and every other byte keeps its old reading.
pub open spec fn mem_after_store(pre: Seq<u8>, post: Seq<u8>, off: nat, data: Seq<u8>) -> bool {
    &&& post.len() == vstd::math::max(pre.len() as int, (off + data.len()) as int)
    &&& forall|i: int| 0 <= i < data.len() ==> post[off + i] == data[i]
    &&& forall|i: int|
        0 <= i < post.len() && !(off <= i < off + data.len()) ==> post[i] == mem_read(
            pre,
            0,
            i,
        )
}

/// A copy of `size` bytes of `src` starting at `offset`, zero-padded past
/// the end of `src`.
pub(crate) fn padded_slice(src: &Vec<u8>, offset: usize, size: usize) -> (r: Vec<u8>)
    ensures
        r@ == mem_slice(src@, offset as nat, size as nat),
{
    let n = src.len();
    let mut out: Vec<u8> = Vec::new();
    let mut i: usize = 0;
    while i < size
        invariant
            n == src@.len(),
            i <= size,
            out@.len() == i,
            forall|j: int| 0 <= j < i ==> out@[j] == mem_read(src@, offset as int, j),
        decreases size - i,
    {
        let b: u8 = if offset < n && i < n - offset {
            src[offset + i]
        } else {
            0
        };
        out.push(b);
        i = i + 1;
    }
    proof {
        assert(out@ =~= mem_slice(src@, offset as nat, size as nat));
    }
    out
}

impl EVM {
    /// Push a value read off the frame or its context.
    pub fn op_env_push(&mut self, op: u8)
        requires
            is_env_push(op),
            old(self).halt == Halt::Running,
            old(self).wf(),
        ensures
            final(self).wf(),
            final(self).gas@ <= old(self).gas@,
            EVM::keeps_env(*old(self), *final(self)),
            final(self).pc == old(self).pc,
            final(self).memory@ == old(self).memory@,
            final(self).returndata@ == old(self).returndata@,
            old(self).stack@.len() < stack_limit() ==> final(self).halt == Halt::Running
                && final(self).gas == old(self).gas && stack_replace(
                old(self).stack@,
                0,
                final(self).stack@,
                env_val(*old(self), op),
            ),
            old(self).stack@.len() >= stack_limit() ==> final(self).stack_fault(),
    {
        let w: Word = if op == 0x30 {
            self.ctx.address
        } else if op == 0x32 {
            self.ctx.tx.origin
        } else if op == 0x33 {
            self.ctx.msg.from
        } else if op == 0x34 {
            self.ctx.msg.value
        } else if op == 0x36 {
            Word::from_usize(self.ctx.msg.calldata.len())
        } else if op == 0x38 {
            Word::from_usize(self.ctx.code.len())
        } else if op == 0x3A {
            self.ctx.tx.gasprice
        } else if op == 0x3D {
            Word::from_usize(self.returndata.len())
        } else if op == 0x58 {
            Word::from_usize(self.pc)
        } else if op == 0x59 {
            Word::from_usize(self.memory.len())
        } else if op == 0x5A {
            self.gas
        } else {
            Word::zero()
        };
        self.stack_push(w);
        proof {
            if old(self).stack@.len() < stack_limit() {
                assert(self.stack@.subrange(0, self.stack@.len() - 1) =~= old(self).stack@);
                assert(old(self).stack@.subrange(0, old(self).stack@.len() as int) =~= old(
                    self,
                ).stack@);
            }
        }
    }

    /// Push a field of the most recent block header; an empty block list
    /// reads as a zeroed header.
    pub fn op_block_push(&mut self, chain: &BlockChain, op: u8)
        requires
            is_block_push(op),
            old(self).halt == Halt::Running,
            old(self).wf(),
        ensures
            final(self).wf(),
            final(self).gas@ <= old(self).gas@,
            EVM::keeps_env(*old(self), *final(self)),
            final(self).pc == old(self).pc,
            final(self).memory@ == old(self).memory@,
            final(self).returndata@ == old(self).returndata@,
            old(self).stack@.len() < stack_limit() ==> final(self).halt == Halt::Running
                && final(self).gas == old(self).gas && stack_replace(
                old(self).stack@,
                0,
                final(self).stack@,
                block_val(chain.blocks@, op),
            ),
            old(self).stack@.len() >= stack_limit() ==> final(self).stack_fault(),
    {
        let w: Word = if chain.blocks.len() == 0 {
            Word::zero()
        } else {
            let block = chain.get_current_block();
            if op == 0x40 {
                block.blockhash
            } else if op == 0x41 {
                block.coinbase
            } else if op == 0x42 {
                block.timestamp
            } else if op == 0x43 {
                block.number
            } else if op == 0x44 {
                block.difficulty
            } else if op == 0x45 {
                block.gaslimit
            } else if op == 0x46 {
                block.chainid
            } else {
                block.basefee
            }
        };
        self.stack_push(w);
        proof {
            if old(self).stack@.len() < stack_limit() {
                assert(self.stack@.subrange(0, self.stack@.len() - 1) =~= old(self).stack@);
                assert(old(self).stack@.subrange(0, old(self).stack@.len() as int) =~= old(
                    self,
                ).stack@);
            }
        }
    }

    /// Push the balance of the executing account.
    pub fn op_selfbalance(&mut self, chain: &mut BlockChain)
        requires
            old(self).halt == Halt::Running,
            old(self).wf(),
        ensures
            final(self).wf(),
            final(self).gas@ <= old(self).gas@,
            EVM::keeps_env(*old(self), *final(self)),
            final(self).pc == old(self).pc,
            final(self).memory@ == old(self).memory@,
            final(self).returndata@ == old(self).returndata@,
            observes_eq(final(chain).accounts@, old(chain).accounts@),
            final(chain).blocks@ == old(chain).blocks@,
            final(chain).logs@ == old(chain).logs@,
            final(chain).destroy_list@ == old(chain).destroy_list@,
            old(self).stack@.len() < stack_limit() ==> final(self).halt == Halt::Running
                && final(self).gas == old(self).gas && stack_replace(
                old(self).stack@,
                0,
                final(self).stack@,
                balance_of(old(chain).accounts@, old(self).ctx.address@),
            ),
            old(self).stack@.len() >= stack_limit() ==> final(self).stack_fault(),
    {
        let account = chain.get_account(&self.ctx.address);
        self.stack_push(account.balance);
        proof {
            if old(self).stack@.len() < stack_limit() {
                assert(self.stack@.subrange(0, self.stack@.len() - 1) =~= old(self).stack@);
                assert(old(self).stack@.subrange(0, old(self).stack@.len() as int) =~= old(
                    self,
                ).stack@);
            }
        }
    }

    /// Pop an address, push its balance.
    pub fn op_balance(&mut self, chain: &mut BlockChain)
        requires
            old(self).halt == Halt::Running,
            old(self).wf(),
        ensures
            final(self).wf(),
            final(self).gas@ <= old(self).gas@,
            EVM::keeps_env(*old(self), *final(self)),
            final(self).pc == old(self).pc,
            final(self).memory@ == old(self).memory@,
            final(self).returndata@ == old(self).returndata@,
            observes_eq(final(chain).accounts@, old(chain).accounts@),
            final(chain).blocks@ == old(chain).blocks@,
            final(chain).logs@ == old(chain).logs@,
            final(chain).destroy_list@ == old(chain).destroy_list@,
            old(self).stack@.len() >= 1 ==> final(self).halt == Halt::Running && final(self).gas == old(self).gas && stack_replace(
                old(self).stack@,
                1,
                final(self).stack@,
                balance_of(old(chain).accounts@, peek(old(self).stack@, 0) % p160()),
            ),
            old(self).stack@.len() < 1 ==> final(self).stack_fault(),
    {
        let target = match self.stack_pop() {
            Some(w) => w,
            None => {
                return ;
            },
        };
        let account = chain.get_account(&target.mask_address());
        self.stack_push(account.balance);
        proof {
            assert(self.stack@.subrange(0, self.stack@.len() - 1) =~= old(
                self,
            ).stack@.subrange(0, old(self).stack@.len() - 1));
        }
    }

    /// Pop an address, push the byte length of its code.
    pub fn op_extcodesize(&mut self, chain: &mut BlockChain)
        requires
            old(self).halt == Halt::Running,
            old(self).wf(),
        ensures
            final(self).wf(),
            final(self).gas@ <= old(self).gas@,
            EVM::keeps_env(*old(self), *final(self)),
            final(self).pc == old(self).pc,
            final(self).memory@ == old(self).memory@,
            final(self).returndata@ == old(self).returndata@,
            observes_eq(final(chain).accounts@, old(chain).accounts@),
            final(chain).blocks@ == old(chain).blocks@,
            final(chain).logs@ == old(chain).logs@,
            final(chain).destroy_list@ == old(chain).destroy_list@,
            old(self).stack@.len() >= 1 ==> final(self).halt == Halt::Running && final(self).gas == old(self).gas && stack_replace(
                old(self).stack@,
                1,
                final(self).stack@,
                code_of(old(chain).accounts@, peek(old(self).stack@, 0) % p160()).len(),
            ),
            old(self).stack@.len() < 1 ==> final(self).stack_fault(),
    {
        let target = match self.stack_pop() {
            Some(w) => w,
            None => {
                return ;
            },
        };
        let account = chain.get_account(&target.mask_address());
        self.stack_push(Word::from_usize(account.code.len()));
        proof {
            assert(self.stack@.subrange(0, self.stack@.len() - 1) =~= old(
                self,
            ).stack@.subrange(0, old(self).stack@.len() - 1));
        }
    }

    /// Pop an address, push the Keccak-256 hash of its code.
    pub fn op_extcodehash(&mut self, chain: &mut BlockChain)
        requires
            old(self).halt == Halt::Running,
            old(self).wf(),
        ensures
            final(self).wf(),
            final(self).gas@ <= old(self).gas@,
            EVM::keeps_env(*old(self), *final(self)),
            final(self).pc == old(self).pc,
            final(self).memory@ == old(self).memory@,
            final(self).returndata@ == old(self).returndata@,
            observes_eq(final(chain).accounts@, old(chain).accounts@),
            final(chain).blocks@ == old(chain).blocks@,
            final(chain).logs@ == old(chain).logs@,
            final(chain).destroy_list@ == old(chain).destroy_list@,
            old(self).stack@.len() >= 1 ==> final(self).halt == Halt::Running && final(self).gas == old(self).gas && stack_replace(
                old(self).stack@,
                1,
                final(self).stack@,
                be_nat(
                    crate::utils::keccak256_of(
                        code_of(old(chain).accounts@, peek(old(self).stack@, 0) % p160()),
                    ),
                ),
            ),
            old(self).stack@.len() < 1 ==> final(self).stack_fault(),
    {
        let target = match self.stack_pop() {
            Some(w) => w,
            None => {
                return ;
            },
        };
        let account = chain.get_account(&target.mask_address());
        let hash = crate::utils::keccak256(&account.code);
        self.stack_push(Word::from_be_bytes(&hash));
        proof {
            assert(self.stack@.subrange(0, self.stack@.len() - 1) =~= old(
                self,
            ).stack@.subrange(0, old(self).stack@.len() - 1));
        }
    }

    /// Pop an offset, push 32 bytes of call data read there, zero-padded
    /// past its end.
    pub fn op_calldataload(&mut self)
        requires
            old(self).halt == Halt::Running,
            old(self).wf(),
        ensures
            final(self).wf(),
            final(self).gas@ <= old(self).gas@,
            EVM::keeps_env(*old(self), *final(self)),
            final(self).pc == old(self).pc,
            final(self).memory@ == old(self).memory@,
            final(self).returndata@ == old(self).returndata@,
            old(self).stack@.len() >= 1 ==> final(self).halt == Halt::Running && final(self).gas == old(self).gas && stack_replace(
                old(self).stack@,
                1,
                final(self).stack@,
                be_nat(
                    mem_slice(
                        old(self).ctx.msg.calldata@,
                        sat_usize(peek(old(self).stack@, 0)),
                        32,
                    ),
                ),
            ),
            old(self).stack@.len() < 1 ==> final(self).stack_fault(),
    {
        let offset_w = match self.stack_pop() {
            Some(w) => w,
            None => {
                return ;
            },
        };
        let offset = offset_w.as_usize_saturating();
        let buf = padded_slice(&self.ctx.msg.calldata, offset, 32);
        self.stack_push(Word::from_be_bytes(&buf));
        proof {
            assert(self.stack@.subrange(0, self.stack@.len() - 1) =~= old(
                self,
            ).stack@.subrange(0, old(self).stack@.len() - 1));
        }
    }

    /// Pop an offset, push the 32-byte memory word read there, growing
    /// memory to cover it.
    pub fn op_mload(&mut self)
        requires
            old(self).halt == Halt::Running,
            old(self).wf(),
        ensures
            final(self).wf(),
            final(self).gas@ <= old(self).gas@,
            EVM::keeps_env(*old(self), *final(self)),
            final(self).pc == old(self).pc,
            final(self).returndata@ == old(self).returndata@,
            final(self).memory@.len() >= old(self).memory@.len(),
            old(self).stack@.len() < 1 ==> final(self).stack_fault(),
            old(self).stack@.len() >= 1 && sat_usize(peek(old(self).stack@, 0)) + 32
                > usize::MAX ==> final(self).halt == Halt::OutOfBounds,
            old(self).stack@.len() >= 1 && sat_usize(peek(old(self).stack@, 0)) + 32
                <= usize::MAX ==> final(self).halt == Halt::Running && final(self).gas
                == old(self).gas && stack_replace(
                old(self).stack@,
                1,
                final(self).stack@,
                be_nat(mem_slice(old(self).memory@, sat_usize(peek(old(self).stack@, 0)), 32)),
            ) && final(self).memory@.len() == vstd::math::max(
                old(self).memory@.len() as int,
                (sat_usize(peek(old(self).stack@, 0)) + 32) as int,
            ),
    {
        let offset_w = match self.stack_pop() {
            Some(w) => w,
            None => {
                return ;
            },
        };
        let offset = offset_w.as_usize_saturating();
        if offset > usize::MAX - 32 {
            self.halt = Halt::OutOfBounds;
            return ;
        }
        let data = self.memory_load(offset, 32);
        proof {
            assert(data@ =~= mem_slice(
                old(self).memory@,
                sat_usize(peek(old(self).stack@, 0)),
                32,
            ));
        }
        self.stack_push(Word::from_be_bytes(&data));
        proof {
            assert(self.stack@.subrange(0, self.stack@.len() - 1) =~= old(
                self,
            ).stack@.subrange(0, old(self).stack@.len() - 1));
        }
    }

    /// Pop an offset and a word, write the word's 32 big-endian bytes to
    /// memory there.
    pub fn op_mstore(&mut self)
        requires
            old(self).halt == Halt::Running,
            old(self).wf(),
        ensures
            final(self).wf(),
            final(self).gas@ <= old(self).gas@,
            EVM::keeps_env(*old(self), *final(self)),
            final(self).pc == old(self).pc,
            final(self).returndata@ == old(self).returndata@,
            final(self).memory@.len() >= old(self).memory@.len(),
            old(self).stack@.len() < 2 ==> final(self).stack_fault(),
            old(self).stack@.len() >= 2 && sat_usize(peek(old(self).stack@, 0)) + 32
                > usize::MAX ==> final(self).halt == Halt::OutOfBounds,
            old(self).stack@.len() >= 2 && sat_usize(peek(old(self).stack@, 0)) + 32
                <= usize::MAX ==> final(self).halt == Halt::Running && final(self).gas
                == old(self).gas && stack_drop(old(self).stack@, 2, final(self).stack@)
                && mem_after_store(
                old(self).memory@,
                final(self).memory@,
                sat_usize(peek(old(self).stack@, 0)),
                crate::utils::word_bytes_of(peek(old(self).stack@, 1)),
            ),
    {
        let offset_w = match self.stack_pop() {
            Some(w) => w,
            None => {
                return ;
            },
        };
        let value = match self.stack_pop() {
            Some(w) => w,
            None => {
                return ;
            },
        };
        let offset = offset_w.as_usize_saturating();
        if offset > usize::MAX - 32 {
            self.halt = Halt::OutOfBounds;
            return ;
        }
        let bytes = value.to_be_bytes();
        proof {
            assert(bytes@ =~= crate::utils::word_bytes_of(peek(old(self).stack@, 1)));
        }
        self.memory_store(offset, &bytes);
        proof {
            assert(self.stack@ =~= old(self).stack@.subrange(
                0,
                old(self).stack@.len() - 2,
            ));
        }
    }

    /// Pop an offset and a word, write the word's low byte to memory there.
    pub fn op_mstore8(&mut self)
        requires
            old(self).halt == Halt::Running,
            old(self).wf(),
        ensures
            final(self).wf(),
            final(self).gas@ <= old(self).gas@,
            EVM::keeps_env(*old(self), *final(self)),
            final(self).pc == old(self).pc,
            final(self).returndata@ == old(self).returndata@,
            final(self).memory@.len() >= old(self).memory@.len(),
            old(self).stack@.len() < 2 ==> final(self).stack_fault(),
            old(self).stack@.len() >= 2 && sat_usize(peek(old(self).stack@, 0)) + 1
                > usize::MAX ==> final(self).halt == Halt::OutOfBounds,
            old(self).stack@.len() >= 2 && sat_usize(peek(old(self).stack@, 0)) + 1
                <= usize::MAX ==> final(self).halt == Halt::Running && final(self).gas
                == old(self).gas && stack_drop(old(self).stack@, 2, final(self).stack@)
                && mem_after_store(
                old(self).memory@,
                final(self).memory@,
                sat_usize(peek(old(self).stack@, 0)),
                seq![byte_of(peek(old(self).stack@, 1), 31)],
            ),
    {
        let offset_w = match self.stack_pop() {
            Some(w) => w,
            None => {
                return ;
            },
        };
        let value = match self.stack_pop() {
            Some(w) => w,
            None => {
                return ;
            },
        };
        let offset = offset_w.as_usize_saturating();
        if offset > usize::MAX - 1 {
            self.halt = Halt::OutOfBounds;
            return ;
        }
        let bytes = value.to_be_bytes();
        let mut cell: Vec<u8> = Vec::new();
        cell.push(bytes[31]);
        proof {
            assert(cell@ =~= seq![byte_of(peek(old(self).stack@, 1), 31)]);
        }
        self.memory_store(offset, &cell);
        proof {
            assert(self.stack@ =~= old(self).stack@.subrange(
                0,
                old(self).stack@.len() - 2,
            ));
        }
    }

    /// Pop a key, push the executing account's storage slot under it.
    pub fn op_sload(&mut self, chain: &mut BlockChain)
        requires
            old(self).halt == Halt::Running,
            old(self).wf(),
        ensures
            final(self).wf(),
            final(self).gas@ <= old(self).gas@,
            EVM::keeps_env(*old(self), *final(self)),
            final(self).pc == old(self).pc,
            final(self).memory@ == old(self).memory@,
            final(self).returndata@ == old(self).returndata@,
            observes_eq(final(chain).accounts@, old(chain).accounts@),
            final(chain).blocks@ == old(chain).blocks@,
            final(chain).logs@ == old(chain).logs@,
            final(chain).destroy_list@ == old(chain).destroy_list@,
            old(self).stack@.len() >= 1 ==> final(self).halt == Halt::Running && final(self).gas == old(self).gas && stack_replace(
                old(self).stack@,
                1,
                final(self).stack@,
                storage_of(
                    old(chain).accounts@,
                    old(self).ctx.address@,
                    peek(old(self).stack@, 0),
                ),
            ),
            old(self).stack@.len() < 1 ==> final(self).stack_fault(),
    {
        let key = match self.stack_pop() {
            Some(w) => w,
            None => {
                return ;
            },
        };
        let account = chain.get_account(&self.ctx.address);
        let value = crate::blockchain::slot_lookup(&account.storage, &key);
        self.stack_push(value);
        proof {
            assert(self.stack@.subrange(0, self.stack@.len() - 1) =~= old(
                self,
            ).stack@.subrange(0, old(self).stack@.len() - 1));
        }
    }

    /// Pop a key and a value, write the value to the executing account's
    /// storage; forbidden inside a static call.
    pub fn op_sstore(&mut self, chain: &mut BlockChain)
        requires
            old(self).halt == Halt::Running,
            old(self).wf(),
        ensures
            final(self).wf(),
            final(self).gas@ <= old(self).gas@,
            EVM::keeps_env(*old(self), *final(self)),
            final(self).pc == old(self).pc,
            final(self).memory@ == old(self).memory@,
            final(self).returndata@ == old(self).returndata@,
            final(chain).blocks@ == old(chain).blocks@,
            final(chain).logs@ == old(chain).logs@,
            final(chain).destroy_list@ == old(chain).destroy_list@,
            old(self).is_static ==> final(self).halt == Halt::StaticViolation && final(chain).accounts@ == old(chain).accounts@,
            !old(self).is_static && old(self).stack@.len() < 2 ==> final(self).stack_fault()
                && final(chain).accounts@ == old(chain).accounts@,
            !old(self).is_static && old(self).stack@.len() >= 2 ==> final(self).halt
                == Halt::Running && final(self).gas == old(self).gas && stack_drop(
                old(self).stack@,
                2,
                final(self).stack@,
            ) && storage_of(
                final(chain).accounts@,
                old(self).ctx.address@,
                peek(old(self).stack@, 0),
            ) == peek(old(self).stack@, 1) && (forall|k: nat|
                k != peek(old(self).stack@, 0) ==> storage_of(
                    final(chain).accounts@,
                    old(self).ctx.address@,
                    k,
                ) == storage_of(old(chain).accounts@, old(self).ctx.address@, k)) && (
            forall|a: nat|
                a != old(self).ctx.address@ ==> crate::blockchain::account_of(
                    final(chain).accounts@,
                    a,
                ) == crate::blockchain::account_of(old(chain).accounts@, a)) && balance_of(
                final(chain).accounts@,
                old(self).ctx.address@,
            ) == balance_of(old(chain).accounts@, old(self).ctx.address@) && nonce_of(
                final(chain).accounts@,
                old(self).ctx.address@,
            ) == nonce_of(old(chain).accounts@, old(self).ctx.address@) && code_of(
                final(chain).accounts@,
                old(self).ctx.address@,
            ) == code_of(old(chain).accounts@, old(self).ctx.address@),
    {
        if self.is_static {
            self.halt = Halt::StaticViolation;
            return ;
        }
        let key = match self.stack_pop() {
            Some(w) => w,
            None => {
                return ;
            },
        };
        let value = match self.stack_pop() {
            Some(w) => w,
            None => {
                return ;
            },
        };
        chain.set_storage(&self.ctx.address, &key, &value);
        proof {
            assert(self.stack@ =~= old(self).stack@.subrange(
                0,
                old(self).stack@.len() - 2,
            ));
        }
    }

    /// Pop a destination; transfer control there when it is a JUMPDEST,
    /// halt with a bad jump otherwise.
    pub fn op_jump(&mut self)
        requires
            old(self).halt == Halt::Running,
            old(self).wf(),
        ensures
            final(self).wf(),
            final(self).gas@ <= old(self).gas@,
            EVM::keeps_env(*old(self), *final(self)),
            final(self).memory@ == old(self).memory@,
            final(self).returndata@ == old(self).returndata@,
            old(self).stack@.len() < 1 ==> final(self).stack_fault(),
            old(self).stack@.len() >= 1 && is_jumpdest(
                old(self).ctx.code@,
                peek(old(self).stack@, 0),
            ) ==> final(self).halt == Halt::Running && final(self).gas == old(self).gas
                && final(self).pc == peek(
                old(self).stack@,
                0,
            ) && stack_drop(old(self).stack@, 1, final(self).stack@),
            old(self).stack@.len() >= 1 && !is_jumpdest(
                old(self).ctx.code@,
                peek(old(self).stack@, 0),
            ) ==> final(self).halt == Halt::BadJump && final(self).gas == old(self).gas
                && final(self).pc == old(self).pc && stack_drop(
                old(self).stack@,
                1,
                final(self).stack@,
            ),
            final(self).halt == Halt::Running ==> is_jumpdest(
                final(self).ctx.code@,
                final(self).pc as nat,
            ),
    {
        let dest = match self.stack_pop() {
            Some(w) => w,
            None => {
                return ;
            },
        };
        proof {
            crate::word::lemma_word_view_bound(dest);
            if dest.hi != 0 {
                vstd::arithmetic::mul::lemma_mul_inequality(
                    1,
                    dest.hi as int,
                    crate::word::p128() as int,
                );
            }
        }
        let code_len = self.ctx.code.len();
        if dest.hi == 0 && dest.lo < code_len as u128 {
            let target = dest.lo as usize;
            if self.ctx.code[target] == 0x5B {
                self.pc = target;
                proof {
                    assert(self.stack@ =~= old(self).stack@.subrange(
                        0,
                        old(self).stack@.len() - 1,
                    ));
                }
                return ;
            }
        }
        self.halt = Halt::BadJump;
    }

    /// Pop a destination and a condition; on a nonzero condition, jump as
    /// JUMP does, otherwise fall through.
    pub fn op_jumpi(&mut self)
        requires
            old(self).halt == Halt::Running,
            old(self).wf(),
        ensures
            final(self).wf(),
            final(self).gas@ <= old(self).gas@,
            EVM::keeps_env(*old(self), *final(self)),
            final(self).memory@ == old(self).memory@,
            final(self).returndata@ == old(self).returndata@,
            old(self).stack@.len() < 2 ==> final(self).stack_fault(),
            old(self).stack@.len() >= 2 && peek(old(self).stack@, 1) == 0 ==> final(self).halt == Halt::Running && final(self).gas == old(self).gas && final(self).pc == old(self).pc && stack_drop(
                old(self).stack@,
                2,
                final(self).stack@,
            ),
            old(self).stack@.len() >= 2 && peek(old(self).stack@, 1) != 0 && is_jumpdest(
                old(self).ctx.code@,
                peek(old(self).stack@, 0),
            ) ==> final(self).halt == Halt::Running && final(self).gas == old(self).gas
                && final(self).pc == peek(
                old(self).stack@,
                0,
            ) && stack_drop(old(self).stack@, 2, final(self).stack@),
            old(self).stack@.len() >= 2 && peek(old(self).stack@, 1) != 0 && !is_jumpdest(
                old(self).ctx.code@,
                peek(old(self).stack@, 0),
            ) ==> final(self).halt == Halt::BadJump && final(self).gas == old(self).gas
                && final(self).pc == old(self).pc && stack_drop(
                old(self).stack@,
                2,
                final(self).stack@,
            ),
            final(self).halt == Halt::Running ==> final(self).pc == old(self).pc
                || is_jumpdest(final(self).ctx.code@, final(self).pc as nat),
    {
        let dest = match self.stack_pop() {
            Some(w) => w,
            None => {
                return ;
            },
        };
        let cond = match self.stack_pop() {
            Some(w) => w,
            None => {
                return ;
            },
        };
        proof {
            assert(self.stack@ =~= old(self).stack@.subrange(
                0,
                old(self).stack@.len() - 2,
            ));
        }
        if cond.is_zero() {
            return ;
        }
        proof {
            crate::word::lemma_word_view_bound(dest);
            if dest.hi != 0 {
                vstd::arithmetic::mul::lemma_mul_inequality(
                    1,
                    dest.hi as int,
                    crate::word::p128() as int,
                );
            }
        }
        let code_len = self.ctx.code.len();
        if dest.hi == 0 && dest.lo < code_len as u128 {
            let target = dest.lo as usize;
            if self.ctx.code[target] == 0x5B {
                self.pc = target;
                return ;
            }
        }
        self.halt = Halt::BadJump;
    }

    /// Discard the top of the stack.
    pub fn op_pop(&mut self)
        requires
            old(self).halt == Halt::Running,
            old(self).wf(),
        ensures
            final(self).wf(),
            final(self).gas@ <= old(self).gas@,
            EVM::keeps_env(*old(self), *final(self)),
            final(self).pc == old(self).pc,
            final(self).memory@ == old(self).memory@,
            final(self).returndata@ == old(self).returndata@,
            old(self).stack@.len() >= 1 ==> final(self).halt == Halt::Running && final(self).gas == old(self).gas && stack_drop(old(self).stack@, 1, final(self).stack@),
            old(self).stack@.len() < 1 ==> final(self).stack_fault(),
    {
        let _ = self.stack_pop();
        proof {
            if old(self).stack@.len() >= 1 {
                assert(self.stack@ =~= old(self).stack@.subrange(
                    0,
                    old(self).stack@.len() - 1,
                ));
            }
        }
    }

    /// Duplicate the `n`-th stack slot (1 is the top) onto the top.
    pub fn op_dup(&mut self, n: usize)
        requires
            1 <= n <= 16,
            old(self).halt == Halt::Running,
            old(self).wf(),
        ensures
            final(self).wf(),
            final(self).gas@ <= old(self).gas@,
            EVM::keeps_env(*old(self), *final(self)),
            final(self).pc == old(self).pc,
            final(self).memory@ == old(self).memory@,
            final(self).returndata@ == old(self).returndata@,
            old(self).stack@.len() >= n && old(self).stack@.len() < stack_limit() ==> final(self).halt == Halt::Running && final(self).gas == old(self).gas && final(self).stack@ == old(self).stack@.push(
                old(self).stack@[old(self).stack@.len() - n],
            ),
            old(self).stack@.len() < n || old(self).stack@.len() >= stack_limit() ==> final(self).stack_fault(),
    {
        let len = self.stack.len();
        if len < n {
            self.halt = Halt::StackUnderflow;
            self.gas = Word::zero();
            return ;
        }
        let value = self.stack[len - n];
        self.stack_push(value);
    }

    /// Swap the top of the stack with the slot `n` places below it.
    pub fn op_swap(&mut self, n: usize)
        requires
            1 <= n <= 16,
            old(self).halt == Halt::Running,
            old(self).wf(),
        ensures
            final(self).wf(),
            final(self).gas@ <= old(self).gas@,
            EVM::keeps_env(*old(self), *final(self)),
            final(self).pc == old(self).pc,
            final(self).memory@ == old(self).memory@,
            final(self).returndata@ == old(self).returndata@,
            old(self).stack@.len() >= n + 1 ==> final(self).halt == Halt::Running && final(self).gas == old(self).gas && final(self).stack@ == old(self).stack@.update(
                old(self).stack@.len() - 1,
                old(self).stack@[old(self).stack@.len() - 1 - n],
            ).update(old(self).stack@.len() - 1 - n, old(self).stack@.last()),
            old(self).stack@.len() < n + 1 ==> final(self).stack_fault(),
    {
        let len = self.stack.len();
        if len < n + 1 {
            self.halt = Halt::StackUnderflow;
            self.gas = Word::zero();
            return ;
        }
        let top = self.stack[len - 1];
        let deep = self.stack[len - 1 - n];
        self.stack[len - 1] = deep;
        self.stack[len - 1 - n] = top;
    }

    /// Copy a region of a source buffer into memory: pop a destination
    /// offset, a source offset and a size; the source reads zero past its
    /// end.
    fn copy_to_memory(&mut self, src: &Vec<u8>) -> (done: bool)
        requires
            old(self).halt == Halt::Running,
            old(self).wf(),
        ensures
            final(self).wf(),
            final(self).gas@ <= old(self).gas@,
            EVM::keeps_env(*old(self), *final(self)),
            final(self).pc == old(self).pc,
            final(self).returndata@ == old(self).returndata@,
            final(self).memory@.len() >= old(self).memory@.len(),
            old(self).stack@.len() < 3 ==> !done && final(self).stack_fault(),
            old(self).stack@.len() >= 3 && sat_usize(peek(old(self).stack@, 0)) + sat_usize(
                peek(old(self).stack@, 2),
            ) > usize::MAX ==> !done && final(self).halt == Halt::OutOfBounds,
            old(self).stack@.len() >= 3 && sat_usize(peek(old(self).stack@, 0)) + sat_usize(
                peek(old(self).stack@, 2),
            ) <= usize::MAX ==> done && final(self).halt == Halt::Running && final(self).gas
                == old(self).gas && stack_drop(old(self).stack@, 3, final(self).stack@)
                && mem_after_store(
                old(self).memory@,
                final(self).memory@,
                sat_usize(peek(old(self).stack@, 0)),
                mem_slice(
                    src@,
                    sat_usize(peek(old(self).stack@, 1)),
                    sat_usize(peek(old(self).stack@, 2)),
                ),
            ),
    {
        let dest_w = match self.stack_pop() {
            Some(w) => w,
            None => {
                return false;
            },
        };
        let off_w = match self.stack_pop() {
            Some(w) => w,
            None => {
                return false;
            },
        };
        let size_w = match self.stack_pop() {
            Some(w) => w,
            None => {
                return false;
            },
        };
        let dest = dest_w.as_usize_saturating();
        let off = off_w.as_usize_saturating();
        let size = size_w.as_usize_saturating();
        if size > usize::MAX - dest {
            self.halt = Halt::OutOfBounds;
            return false;
        }
        let data = padded_slice(src, off, size);
        self.memory_store(dest, &data);
        proof {
            assert(self.stack@ =~= old(self).stack@.subrange(
                0,
                old(self).stack@.len() - 3,
            ));
        }
        true
    }

    /// Copy call data into memory.
    pub fn op_calldatacopy(&mut self)
        requires
            old(self).halt == Halt::Running,
            old(self).wf(),
        ensures
            final(self).wf(),
            final(self).gas@ <= old(self).gas@,
            EVM::keeps_env(*old(self), *final(self)),
            final(self).pc == old(self).pc,
            final(self).returndata@ == old(self).returndata@,
            final(self).memory@.len() >= old(self).memory@.len(),
            old(self).stack@.len() < 3 ==> final(self).stack_fault(),
            old(self).stack@.len() >= 3 && sat_usize(peek(old(self).stack@, 0)) + sat_usize(
                peek(old(self).stack@, 2),
            ) > usize::MAX ==> final(self).halt == Halt::OutOfBounds,
            old(self).stack@.len() >= 3 && sat_usize(peek(old(self).stack@, 0)) + sat_usize(
                peek(old(self).stack@, 2),
            ) <= usize::MAX ==> final(self).halt == Halt::Running && final(self).gas == old(
                self,
            ).gas && stack_drop(old(self).stack@, 3, final(self).stack@) && mem_after_store(
                old(self).memory@,
                final(self).memory@,
                sat_usize(peek(old(self).stack@, 0)),
                mem_slice(
                    old(self).ctx.msg.calldata@,
                    sat_usize(peek(old(self).stack@, 1)),
                    sat_usize(peek(old(self).stack@, 2)),
                ),
            ),
    {
        let src = crate::blockchain::copy_bytes(&self.ctx.msg.calldata);
        let _ = self.copy_to_memory(&src);
    }

    /// Copy the executing code into memory.
    pub fn op_codecopy(&mut self)
        requires
            old(self).halt == Halt::Running,
            old(self).wf(),
        ensures
            final(self).wf(),
            final(self).gas@ <= old(self).gas@,
            EVM::keeps_env(*old(self), *final(self)),
            final(self).pc == old(self).pc,
            final(self).returndata@ == old(self).returndata@,
            final(self).memory@.len() >= old(self).memory@.len(),
            old(self).stack@.len() < 3 ==> final(self).stack_fault(),
            old(self).stack@.len() >= 3 && sat_usize(peek(old(self).stack@, 0)) + sat_usize(
                peek(old(self).stack@, 2),
            ) > usize::MAX ==> final(self).halt == Halt::OutOfBounds,
            old(self).stack@.len() >= 3 && sat_usize(peek(old(self).stack@, 0)) + sat_usize(
                peek(old(self).stack@, 2),
            ) <= usize::MAX ==> final(self).halt == Halt::Running && final(self).gas == old(
                self,
            ).gas && stack_drop(old(self).stack@, 3, final(self).stack@) && mem_after_store(
                old(self).memory@,
                final(self).memory@,
                sat_usize(peek(old(self).stack@, 0)),
                mem_slice(
                    old(self).ctx.code@,
                    sat_usize(peek(old(self).stack@, 1)),
                    sat_usize(peek(old(self).stack@, 2)),
                ),
            ),
    {
        let src = crate::blockchain::copy_bytes(&self.ctx.code);
        let _ = self.copy_to_memory(&src);
    }

    /// Pop an address, then copy its code into memory.
    pub fn op_extcodecopy(&mut self, chain: &mut BlockChain)
        requires
            old(self).halt == Halt::Running,
            old(self).wf(),
        ensures
            final(self).wf(),
            final(self).gas@ <= old(self).gas@,
            EVM::keeps_env(*old(self), *final(self)),
            final(self).pc == old(self).pc,
            final(self).returndata@ == old(self).returndata@,
            final(self).memory@.len() >= old(self).memory@.len(),
            observes_eq(final(chain).accounts@, old(chain).accounts@),
            final(chain).blocks@ == old(chain).blocks@,
            final(chain).logs@ == old(chain).logs@,
            final(chain).destroy_list@ == old(chain).destroy_list@,
            old(self).stack@.len() < 4 ==> final(self).stack_fault(),
            old(self).stack@.len() >= 4 && sat_usize(peek(old(self).stack@, 1)) + sat_usize(
                peek(old(self).stack@, 3),
            ) > usize::MAX ==> final(self).halt == Halt::OutOfBounds,
            old(self).stack@.len() >= 4 && sat_usize(peek(old(self).stack@, 1)) + sat_usize(
                peek(old(self).stack@, 3),
            ) <= usize::MAX ==> final(self).halt == Halt::Running && final(self).gas == old(
                self,
            ).gas && stack_drop(old(self).stack@, 4, final(self).stack@) && mem_after_store(
                old(self).memory@,
                final(self).memory@,
                sat_usize(peek(old(self).stack@, 1)),
                mem_slice(
                    code_of(old(chain).accounts@, peek(old(self).stack@, 0) % p160()),
                    sat_usize(peek(old(self).stack@, 2)),
                    sat_usize(peek(old(self).stack@, 3)),
                ),
            ),
    {
        let target = match self.stack_pop() {
            Some(w) => w,
            None => {
                return ;
            },
        };
        let account = chain.get_account(&target.mask_address());
        let _ = self.copy_to_memory(&account.code);
        proof {
            if old(self).stack@.len() >= 4 {
                assert(old(self).stack@.drop_last().subrange(
                    0,
                    old(self).stack@.len() - 4,
                ) =~= old(self).stack@.subrange(0, old(self).stack@.len() - 4));
            }
        }
    }

    /// Copy a region of the child returndata buffer into memory; reading
    /// past its end is an out-of-range fault.
    pub fn op_returndatacopy(&mut self)
        requires
            old(self).halt == Halt::Running,
            old(self).wf(),
        ensures
            final(self).wf(),
            final(self).gas@ <= old(self).gas@,
            EVM::keeps_env(*old(self), *final(self)),
            final(self).pc == old(self).pc,
            final(self).returndata@ == old(self).returndata@,
            final(self).memory@.len() >= old(self).memory@.len(),
            old(self).stack@.len() < 3 ==> final(self).stack_fault(),
            old(self).stack@.len() >= 3 && (sat_usize(peek(old(self).stack@, 1)) + sat_usize(
                peek(old(self).stack@, 2),
            ) > old(self).returndata@.len() || sat_usize(peek(old(self).stack@, 0))
                + sat_usize(peek(old(self).stack@, 2)) > usize::MAX) ==> final(self).halt
                == Halt::OutOfBounds,
            old(self).stack@.len() >= 3 && sat_usize(peek(old(self).stack@, 1)) + sat_usize(
                peek(old(self).stack@, 2),
            ) <= old(self).returndata@.len() && sat_usize(peek(old(self).stack@, 0))
                + sat_usize(peek(old(self).stack@, 2)) <= usize::MAX ==> final(self).halt
                == Halt::Running && final(self).gas == old(self).gas && stack_drop(
                old(self).stack@,
                3,
                final(self).stack@,
            ) && mem_after_store(
                old(self).memory@,
                final(self).memory@,
                sat_usize(peek(old(self).stack@, 0)),
                old(self).returndata@.subrange(
                    sat_usize(peek(old(self).stack@, 1)) as int,
                    (sat_usize(peek(old(self).stack@, 1)) + sat_usize(
                        peek(old(self).stack@, 2),
                    )) as int,
                ),
            ),
    {
        let dest_w = match self.stack_pop() {
            Some(w) => w,
            None => {
                return ;
            },
        };
        let off_w = match self.stack_pop() {
            Some(w) => w,
            None => {
                return ;
            },
        };
        let size_w = match self.stack_pop() {
            Some(w) => w,
            None => {
                return ;
            },
        };
        let dest = dest_w.as_usize_saturating();
        let off = off_w.as_usize_saturating();
        let size = size_w.as_usize_saturating();
        let n = self.returndata.len();
        if off > n || size > n - off || size > usize::MAX - dest {
            self.halt = Halt::OutOfBounds;
            return ;
        }
        let data = padded_slice(&self.returndata, off, size);
        proof {
            assert(data@ =~= old(self).returndata@.subrange(
                off as int,
                off + size,
            ));
        }
        self.memory_store(dest, &data);
        proof {
            assert(self.stack@ =~= old(self).stack@.subrange(
                0,
                old(self).stack@.len() - 3,
            ));
        }
    }

    /// Emit a log entry with `n` topics: pop an offset, a size, and the
    /// topics; the payload is read from memory. Forbidden inside a static
    /// call.
    pub fn op_log(&mut self, chain: &mut BlockChain, n: usize)
        requires
            n <= 4,
            old(self).halt == Halt::Running,
            old(self).wf(),
        ensures
            final(self).wf(),
            final(self).gas@ <= old(self).gas@,
            EVM::keeps_env(*old(self), *final(self)),
            final(self).pc == old(self).pc,
            final(self).returndata@ == old(self).returndata@,
            final(self).memory@.len() >= old(self).memory@.len(),
            final(chain).accounts@ == old(chain).accounts@,
            final(chain).blocks@ == old(chain).blocks@,
            final(chain).destroy_list@ == old(chain).destroy_list@,
            old(self).is_static ==> final(self).halt == Halt::StaticViolation && final(chain).logs@ == old(chain).logs@,
            !old(self).is_static && old(self).stack@.len() < n + 2 ==> final(self).stack_fault() && final(chain).logs@ == old(chain).logs@,
            !old(self).is_static && old(self).stack@.len() >= n + 2 && sat_usize(
                peek(old(self).stack@, 0),
            ) + sat_usize(peek(old(self).stack@, 1)) > usize::MAX ==> final(self).halt
                == Halt::OutOfBounds && final(chain).logs@ == old(chain).logs@,
            !old(self).is_static && old(self).stack@.len() >= n + 2 && sat_usize(
                peek(old(self).stack@, 0),
            ) + sat_usize(peek(old(self).stack@, 1)) <= usize::MAX ==> final(self).halt
                == Halt::Running && final(self).gas == old(self).gas && stack_drop(
                old(self).stack@,
                n + 2,
                final(self).stack@,
            ) && final(chain).logs@.len() == old(chain).logs@.len() + 1 && final(chain).logs@.drop_last() == old(chain).logs@ && final(chain).logs@.last().data@
                == mem_slice(
                old(self).memory@,
                sat_usize(peek(old(self).stack@, 0)),
                sat_usize(peek(old(self).stack@, 1)),
            ) && final(chain).logs@.last().topic1@ == (if n >= 1 {
                peek(old(self).stack@, 2)
            } else {
                0
            }) && final(chain).logs@.last().topic2@ == (if n >= 2 {
                peek(old(self).stack@, 3)
            } else {
                0
            }) && final(chain).logs@.last().topic3@ == (if n >= 3 {
                peek(old(self).stack@, 4)
            } else {
                0
            }) && final(chain).logs@.last().topic4@ == (if n >= 4 {
                peek(old(self).stack@, 5)
            } else {
                0
            }),
    {
        if self.is_static {
            self.halt = Halt::StaticViolation;
            return ;
        }
        let offset_w = match self.stack_pop() {
            Some(w) => w,
            None => {
                return ;
            },
        };
        let size_w = match self.stack_pop() {
            Some(w) => w,
            None => {
                return ;
            },
        };
        let mut topic1 = Word::zero();
        let mut topic2 = Word::zero();
        let mut topic3 = Word::zero();
        let mut topic4 = Word::zero();
        if n >= 1 {
            topic1 = match self.stack_pop() {
                Some(w) => w,
                None => {
                    return ;
                },
            };
        }
        if n >= 2 {
            topic2 = match self.stack_pop() {
                Some(w) => w,
                None => {
                    return ;
                },
            };
        }
        if n >= 3 {
            topic3 = match self.stack_pop() {
                Some(w) => w,
                None => {
                    return ;
                },
            };
        }
        if n >= 4 {
            topic4 = match self.stack_pop() {
                Some(w) => w,
                None => {
                    return ;
                },
            };
        }
        let offset = offset_w.as_usize_saturating();
        let size = size_w.as_usize_saturating();
        if size > usize::MAX - offset {
            self.halt = Halt::OutOfBounds;
            return ;
        }
        let data = self.memory_load(offset, size);
        proof {
            assert(data@ =~= mem_slice(
                old(self).memory@,
                sat_usize(peek(old(self).stack@, 0)),
                sat_usize(peek(old(self).stack@, 1)),
            ));
            assert(self.stack@ =~= old(self).stack@.subrange(
                0,
                old(self).stack@.len() - (n + 2),
            ));
        }
        if n == 0 {
            chain.add_log0(data);
        } else if n == 1 {
            chain.add_log1(data, topic1);
        } else if n == 2 {
            chain.add_log2(data, topic1, topic2);
        } else if n == 3 {
            chain.add_log3(data, topic1, topic2, topic3);
        } else {
            chain.add_log4(data, topic1, topic2, topic3, topic4);
        }
    }

    /// Halt the frame returning a memory region: the halt kind is Returned
    /// for RETURN and Reverted for REVERT; the region becomes the frame's
    /// output.
    pub fn op_return_or_revert(&mut self, revert: bool) -> (out: Vec<u8>)
        requires
            old(self).halt == Halt::Running,
            old(self).wf(),
        ensures
            final(self).wf(),
            final(self).gas@ <= old(self).gas@,
            EVM::keeps_env(*old(self), *final(self)),
            final(self).pc == old(self).pc,
            final(self).returndata@ == old(self).returndata@,
            final(self).memory@.len() >= old(self).memory@.len(),
            old(self).stack@.len() < 2 ==> final(self).stack_fault() && out@.len() == 0,
            old(self).stack@.len() >= 2 && sat_usize(peek(old(self).stack@, 0)) + sat_usize(
                peek(old(self).stack@, 1),
            ) > usize::MAX ==> final(self).halt == Halt::OutOfBounds && out@.len() == 0,
            old(self).stack@.len() >= 2 && sat_usize(peek(old(self).stack@, 0)) + sat_usize(
                peek(old(self).stack@, 1),
            ) <= usize::MAX ==> final(self).halt == (if revert {
                Halt::Reverted
            } else {
                Halt::Returned
            }) && final(self).gas == old(self).gas && stack_drop(
                old(self).stack@,
                2,
                final(self).stack@,
            ) && out@ == mem_slice(
                old(self).memory@,
                sat_usize(peek(old(self).stack@, 0)),
                sat_usize(peek(old(self).stack@, 1)),
            ) && final(self).memory@.len() == vstd::math::max(
                old(self).memory@.len() as int,
                (sat_usize(peek(old(self).stack@, 0)) + sat_usize(
                    peek(old(self).stack@, 1),
                )) as int,
            ),
    {
        let offset_w = match self.stack_pop() {
            Some(w) => w,
            None => {
                return Vec::new();
            },
        };
        let size_w = match self.stack_pop() {
            Some(w) => w,
            None => {
                return Vec::new();
            },
        };
        let offset = offset_w.as_usize_saturating();
        let size = size_w.as_usize_saturating();
        if size > usize::MAX - offset {
            self.halt = Halt::OutOfBounds;
            return Vec::new();
        }
        let data = self.memory_load(offset, size);
        proof {
            assert(data@ =~= mem_slice(
                old(self).memory@,
                sat_usize(peek(old(self).stack@, 0)),
                sat_usize(peek(old(self).stack@, 1)),
            ));
            assert(self.stack@ =~= old(self).stack@.subrange(
                0,
                old(self).stack@.len() - 2,
            ));
        }
        if revert {
            self.halt = Halt::Reverted;
        } else {
            self.halt = Halt::Returned;
        }
        data
    }

    /// Halt the frame as explicitly invalid, consuming all gas.
    pub fn op_invalid(&mut self)
        ensures
            EVM::keeps_env(*old(self), *final(self)),
            final(self).pc == old(self).pc,
            final(self).stack@ == old(self).stack@,
            final(self).memory@ == old(self).memory@,
            final(self).returndata@ == old(self).returndata@,
            final(self).halt == Halt::InvalidOpcode,
            final(self).gas@ == 0,
    {
        self.halt = Halt::InvalidOpcode;
        self.gas = Word::zero();
    }

    /// Pop a beneficiary, move the executing account's balance to it, and
    /// mark the account for destruction; forbidden inside a static call.
    pub fn op_selfdestruct(&mut self, chain: &mut BlockChain)
        requires
            old(self).halt == Halt::Running,
            old(self).wf(),
        ensures
            final(self).wf(),
            final(self).gas@ <= old(self).gas@,
            EVM::keeps_env(*old(self), *final(self)),
            final(self).pc == old(self).pc,
            final(self).memory@ == old(self).memory@,
            final(self).returndata@ == old(self).returndata@,
            final(chain).blocks@ == old(chain).blocks@,
            final(chain).logs@ == old(chain).logs@,
            old(self).is_static ==> final(self).halt == Halt::StaticViolation && final(chain).accounts@ == old(chain).accounts@ && final(chain).destroy_list@ == old(
                chain,
            ).destroy_list@,
            !old(self).is_static && old(self).stack@.len() < 1 ==> final(self).stack_fault()
                && final(chain).accounts@ == old(chain).accounts@ && final(chain).destroy_list@ == old(chain).destroy_list@,
            !old(self).is_static && old(self).stack@.len() >= 1 ==> {
                let beneficiary = peek(old(self).stack@, 0) % p160();
                let addr = old(self).ctx.address@;
                &&& final(self).halt == Halt::Stopped
                &&& final(self).gas == old(self).gas
                &&& stack_drop(old(self).stack@, 1, final(self).stack@)
                &&& (addr != beneficiary ==> balance_of(final(chain).accounts@, addr) == 0
                    && balance_of(final(chain).accounts@, beneficiary) == (balance_of(
                    old(chain).accounts@,
                    beneficiary,
                ) + balance_of(old(chain).accounts@, addr)) % p256())
                &&& (addr == beneficiary ==> balance_of(final(chain).accounts@, beneficiary)
                    == balance_of(old(chain).accounts@, beneficiary))
                &&& (forall|a: nat|
                    a != addr && a != beneficiary ==> crate::blockchain::account_of(
                        final(chain).accounts@,
                        a,
                    ) == crate::blockchain::account_of(old(chain).accounts@, a))
                &&& (contains_addr(old(chain).destroy_list@, addr) ==> final(chain).destroy_list@ == old(chain).destroy_list@)
                &&& (!contains_addr(old(chain).destroy_list@, addr) ==> final(chain).destroy_list@.len() == old(chain).destroy_list@.len() + 1 && final(chain).destroy_list@.last()@ == addr && final(chain).destroy_list@.drop_last()
                    == old(chain).destroy_list@)
            },
    {
        if self.is_static {
            self.halt = Halt::StaticViolation;
            return ;
        }
        let beneficiary = match self.stack_pop() {
            Some(w) => w,
            None => {
                return ;
            },
        };
        chain.register_to_destroy(self.ctx.address, beneficiary.mask_address());
        self.halt = Halt::Stopped;
        proof {
            assert(self.stack@ =~= old(self).stack@.subrange(
                0,
                old(self).stack@.len() - 1,
            ));
        }
    }
}

} // verus!
