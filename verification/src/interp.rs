//! The interpreter loop (fetch, decode, charge, dispatch), the sub-call
//! engine for the four call-family opcodes, and the creation engine for
//! CREATE and CREATE2.
//!
//! Recursion through sub-calls is bounded by the call-depth cap, and each
//! loop iteration that continues has paid at least one unit of gas, so the
//! whole interpreter terminates.

use vstd::prelude::*;

use crate::blockchain::{nonce_of, BlockChain};
use crate::context::{CTX, MSG};
use crate::evm::{
    depth_limit, is_success, mem_read, peek, sat_usize, stack_drop, stack_limit,
    stack_replace, Halt, EVM,
};
use crate::instructions::{is_defined, lemma_zero_gas_halts, lookup};
use crate::ops::{
    alu1_val, alu2_val, alu3_val, block_val, env_val, is_alu1, is_alu2, is_block_push,
    is_env_push, is_jumpdest, mem_after_store, mem_slice, padded_slice,
};
use crate::word::{be_nat, Word};

verus! {

/// Which of the four call-family opcodes a sub-call performs.
#[derive(Clone, Copy, PartialEq, Eq, Structural, Debug)]
pub enum CallKind {
    Call,
    CallCode,
    DelegateCall,
    StaticCall,
}

/// The bytes of the out-of-gas diagnostic, ASCII `out of gas`.
pub open spec fn oog_bytes() -> Seq<u8> {
    seq![0x6Fu8, 0x75u8, 0x74u8, 0x20u8, 0x6Fu8, 0x66u8, 0x20u8, 0x67u8, 0x61u8, 0x73u8]
}

/// The bytes of the bad-jump diagnostic, ASCII
/// `destination is not a JUMPDEST`.
pub open spec fn bad_jump_bytes() -> Seq<u8> {
    seq![
        0x64u8,
        0x65u8,
        0x73u8,
        0x74u8,
        0x69u8,
        0x6Eu8,
        0x61u8,
        0x74u8,
        0x69u8,
        0x6Fu8,
        0x6Eu8,
        0x20u8,
        0x69u8,
        0x73u8,
        0x20u8,
        0x6Eu8,
        0x6Fu8,
        0x74u8,
        0x20u8,
        0x61u8,
        0x20u8,
        0x4Au8,
        0x55u8,
        0x4Du8,
        0x50u8,
        0x44u8,
        0x45u8,
        0x53u8,
        0x54u8,
    ]
}

/// The out-of-gas diagnostic as a vector.
fn oog_message() -> (r: Vec<u8>)
    ensures
        r@ == oog_bytes(),
{
    let mut out: Vec<u8> = Vec::new();
    out.push(0x6F);
    out.push(0x75);
    out.push(0x74);
    out.push(0x20);
    out.push(0x6F);
    out.push(0x66);
    out.push(0x20);
    out.push(0x67);
    out.push(0x61);
    out.push(0x73);
    proof {
        assert(out@ =~= oog_bytes());
    }
    out
}

/// The bad-jump diagnostic as a vector.
fn bad_jump_message() -> (r: Vec<u8>)
    ensures
        r@ == bad_jump_bytes(),
{
    let mut out: Vec<u8> = Vec::new();
    out.push(0x64);
    out.push(0x65);
    out.push(0x73);
    out.push(0x74);
    out.push(0x69);
    out.push(0x6E);
    out.push(0x61);
    out.push(0x74);
    out.push(0x69);
    out.push(0x6F);
    out.push(0x6E);
    out.push(0x20);
    out.push(0x69);
    out.push(0x73);
    out.push(0x20);
    out.push(0x6E);
    out.push(0x6F);
    out.push(0x74);
    out.push(0x20);
    out.push(0x61);
    out.push(0x20);
    out.push(0x4A);
    out.push(0x55);
    out.push(0x4D);
    out.push(0x50);
    out.push(0x44);
    out.push(0x45);
    out.push(0x53);
    out.push(0x54);
    proof {
        assert(out@ =~= bad_jump_bytes());
    }
    out
}

/// The fixed net stack effect of every opcode but the push family.
pub open spec fn stack_delta(op: u8) -> int {
    if op == 0x00 || is_alu1(op) || op == 0x35 || op == 0x3B || op == 0x3F || op == 0x31
        || op == 0x51 || op == 0x54 || op == 0x5B || (0x90 <= op <= 0x9F) || op == 0xFE {
        0
    } else if is_alu2(op) || op == 0x20 || op == 0x50 || op == 0x56 || op == 0xFF {
        -1
    } else if is_alu3(op) || op == 0x52 || op == 0x53 || op == 0x55 || op == 0x57 || op
        == 0xF0 || op == 0xF3 || op == 0xFD {
        -2
    } else if op == 0x37 || op == 0x39 || op == 0x3E || op == 0xF5 {
        -3
    } else if op == 0x3C {
        -4
    } else if 0xA0 <= op <= 0xA4 {
        -2 - (op - 0xA0)
    } else if op == 0xF1 || op == 0xF2 || op == 0xF4 || op == 0xFA {
        -6
    } else {
        // the env, block, dup and PUSH0 opcodes all push one word
        1
    }
}

/// The wide modular opcodes.
pub open spec fn is_alu3(op: u8) -> bool {
    op == 0x08 || op == 0x09
}

/// A value-bearing CALL inside a static subtree, which must fail.
pub open spec fn call_static_violation(pre: EVM, kind: CallKind) -> bool {
    pre.is_static && kind == CallKind::Call && peek(pre.stack@, 2) != 0
}

/// Whether a call-family opcode's argument or return region runs past the
/// machine's address range.
pub open spec fn call_out_of_range(pre: EVM) -> bool {
    sat_usize(peek(pre.stack@, 3)) + sat_usize(peek(pre.stack@, 4)) > usize::MAX
        || sat_usize(peek(pre.stack@, 5)) + sat_usize(peek(pre.stack@, 6)) > usize::MAX
}

/// A call-family opcode that ran a child frame: the seven operands are
/// consumed and the success flag pushed; the frame's returndata buffer now
/// holds the child's output, whose first `ret_size` bytes (zero-padded)
/// were written back into memory at `ret_offset`; every other memory byte
/// keeps its old reading, and memory grew to cover the argument and return
/// regions.
pub open spec fn call_completed(pre: EVM, post: EVM) -> bool {
    let args_end = sat_usize(peek(pre.stack@, 3)) + sat_usize(peek(pre.stack@, 4));
    let ret_off = sat_usize(peek(pre.stack@, 5));
    let ret_size = sat_usize(peek(pre.stack@, 6));
    &&& post.halt == Halt::Running
    &&& post.gas == pre.gas
    &&& post.stack@.len() == pre.stack@.len() - 6
    &&& post.stack@.subrange(0, post.stack@.len() - 1) == pre.stack@.subrange(
        0,
        pre.stack@.len() - 7,
    )
    &&& (post.stack@.last()@ == 0 || post.stack@.last()@ == 1)
    &&& (ret_size > 0 ==> {
        &&& post.memory@.len() == vstd::math::max(
            vstd::math::max(pre.memory@.len() as int, args_end as int),
            (ret_off + ret_size) as int,
        )
        &&& forall|i: int|
            0 <= i < ret_size ==> post.memory@[ret_off + i] == mem_read(
                post.returndata@,
                0,
                i,
            )
        &&& forall|i: int|
            0 <= i < post.memory@.len() && !(ret_off <= i < ret_off + ret_size)
                ==> post.memory@[i] == mem_read(pre.memory@, 0, i)
    })
    &&& (ret_size == 0 ==> {
        &&& post.memory@.len() == vstd::math::max(pre.memory@.len() as int, args_end as int)
        &&& forall|i: int|
            0 <= i < post.memory@.len() ==> post.memory@[i] == mem_read(pre.memory@, 0, i)
    })
}

/// Two world states that are equal field for field.
pub open spec fn chain_unchanged(pre: BlockChain, post: BlockChain) -> bool {
    &&& post.accounts@ == pre.accounts@
    &&& post.blocks@ == pre.blocks@
    &&& post.logs@ == pre.logs@
    &&& post.destroy_list@ == pre.destroy_list@
}

/// A world state read but not written: the account journal may have grown
/// zeroed accounts for fresh addresses, but every observable is unchanged.
pub open spec fn chain_observed(pre: BlockChain, post: BlockChain) -> bool {
    &&& crate::blockchain::observes_eq(post.accounts@, pre.accounts@)
    &&& post.blocks@ == pre.blocks@
    &&& post.logs@ == pre.logs@
    &&& post.destroy_list@ == pre.destroy_list@
}

/// The frame fields no single opcode but a jump or push may move: the
/// program counter, and the parts `keeps_env` already fixes.
pub open spec fn keeps_pc(pre: EVM, post: EVM) -> bool {
    post.pc == pre.pc
}

/// The frame right after fetching and charging an instruction: the counter
/// has stepped over the opcode byte and `c` gas units are paid.
pub open spec fn charged_frame(pre: EVM, c: nat) -> EVM {
    EVM {
        pc: (pre.pc + 1) as usize,
        gas: crate::word::word_of((pre.gas@ - c) as nat),
        ..pre
    }
}

/// The one-step relation of the interpreter: what one fetch-decode-charge-
/// execute iteration does to the frame and the world. `out` is `Some` of
/// the frame's output when the step halted it and `None` while the frame
/// keeps running (in which case gas strictly decreased). `EVM::step`
/// guarantees exactly this relation, and `runs_to` is its closure.
pub open spec fn step_rel(
    pre: EVM,
    pre_chain: BlockChain,
    post: EVM,
    post_chain: BlockChain,
    out: Option<Seq<u8>>,
) -> bool {
    &&& pre.halt == Halt::Running
    &&& pre.wf()
    &&& post.wf()
    &&& EVM::keeps_env(pre, post)
    &&& post.gas@ <= pre.gas@
    &&& post.memory@.len() >= pre.memory@.len()
    &&& post_chain.blocks@ == pre_chain.blocks@
    &&& (out is None) == (post.halt == Halt::Running)
    &&& (out is None ==> post.gas@ < pre.gas@)
    &&& (post.halt == Halt::OutOfGas ==> out == Some(oog_bytes()))
    &&& (post.halt == Halt::BadJump ==> out == Some(bad_jump_bytes()))
    &&& (post.halt == Halt::Stopped || post.halt == Halt::InvalidOpcode || post.halt
        == Halt::StackUnderflow || post.halt == Halt::StackOverflow || post.halt
        == Halt::StaticViolation || post.halt == Halt::OutOfBounds ==> (out matches Some(o)
        && o.len() == 0))
    &&& (pre.pc >= pre.ctx.code@.len() ==> post.halt == Halt::Stopped && post.stack@
        == pre.stack@ && post.memory@ == pre.memory@ && post.returndata@ == pre.returndata@
        && post.gas == pre.gas && chain_unchanged(pre_chain, post_chain))
    &&& (pre.pc < pre.ctx.code@.len() && !is_defined(pre.ctx.code@[pre.pc as int])
        ==> post.halt == Halt::InvalidOpcode && post.gas@ == 0 && post.stack@ == pre.stack@
        && post.memory@ == pre.memory@ && post.returndata@ == pre.returndata@
        && chain_unchanged(pre_chain, post_chain))
    &&& (pre.pc < pre.ctx.code@.len() && is_defined(pre.ctx.code@[pre.pc as int])
        && pre.gas@ < crate::instructions::gas_of(pre.ctx.code@[pre.pc as int]) ==> post.halt
        == Halt::OutOfGas && post.gas == pre.gas && post.stack@ == pre.stack@
        && post.memory@ == pre.memory@ && post.returndata@ == pre.returndata@
        && chain_unchanged(pre_chain, post_chain))
    &&& (({
        let op = pre.ctx.code@[pre.pc as int];
        pre.pc < pre.ctx.code@.len() && is_defined(op) && pre.gas@
            >= crate::instructions::gas_of(op) && 0x60 <= op <= 0x7F
    }) ==> ({
        let op = pre.ctx.code@[pre.pc as int];
        &&& post.memory@ == pre.memory@
        &&& post.returndata@ == pre.returndata@
        &&& chain_unchanged(pre_chain, post_chain)
        &&& (pre.stack@.len() < stack_limit() ==> post.halt == Halt::Running && post.gas@
            == pre.gas@ - crate::instructions::gas_of(op) && post.stack@.len()
            == pre.stack@.len() + 1 && post.stack@.drop_last() == pre.stack@
            && post.stack@.last()@ == be_nat(
            mem_slice(
                pre.ctx.code@,
                (pre.pc + 1) as nat,
                crate::instructions::operands_of(op) as nat,
            ),
        ) && post.pc == (if pre.pc + 1 + crate::instructions::operands_of(op)
            <= pre.ctx.code@.len() {
            pre.pc + 1 + crate::instructions::operands_of(op)
        } else {
            pre.ctx.code@.len() as int
        }))
        &&& (pre.stack@.len() >= stack_limit() ==> post.halt == Halt::StackOverflow
            && post.gas@ == 0)
    }))
    &&& (({
        let op = pre.ctx.code@[pre.pc as int];
        pre.pc < pre.ctx.code@.len() && is_defined(op) && pre.gas@
            >= crate::instructions::gas_of(op) && !(0x60 <= op <= 0x7F)
    }) ==> ({
        let op = pre.ctx.code@[pre.pc as int];
        let charged = charged_frame(pre, crate::instructions::gas_of(op) as nat);
        &&& (out matches Some(o) ==> dispatch_post(op, charged, post, pre_chain, post_chain, o))
        &&& (out is None ==> exists|o: Seq<u8>|
            dispatch_post(op, charged, post, pre_chain, post_chain, o))
    }))
}

/// Zero or more non-halting interpreter steps within one frame.
pub open spec fn steps_to(
    pre: EVM,
    pre_chain: BlockChain,
    cur: EVM,
    cur_chain: BlockChain,
) -> bool
    decreases pre.gas@,
{
    ||| (pre == cur && pre_chain == cur_chain)
    ||| (exists|mid: EVM, mid_chain: BlockChain|
        #[trigger] step_rel(pre, pre_chain, mid, mid_chain, None) && mid.depth == pre.depth
            && mid.gas@ < pre.gas@ && steps_to(mid, mid_chain, cur, cur_chain))
}

/// A complete frame run: zero or more non-halting steps, then the one
/// halting step whose output is the frame's output. `EVM::run` guarantees
/// this relation between its initial and final frame and world states, so
/// a whole run is a chain of exactly-specified single steps.
pub open spec fn runs_to(
    pre: EVM,
    pre_chain: BlockChain,
    post: EVM,
    post_chain: BlockChain,
    out: Seq<u8>,
) -> bool
    decreases pre.gas@,
{
    ||| step_rel(pre, pre_chain, post, post_chain, Some(out))
    ||| (exists|mid: EVM, mid_chain: BlockChain|
        #![trigger step_rel(pre, pre_chain, mid, mid_chain, None)]
        #![trigger runs_to(mid, mid_chain, post, post_chain, out)]
        step_rel(pre, pre_chain, mid, mid_chain, None) && mid.depth == pre.depth
            && mid.gas@ < pre.gas@ && runs_to(mid, mid_chain, post, post_chain, out))
}

/// The initcode run a creation opcode performs: a frame holding the
/// initcode read from the caller's memory ran at the derived address, one
/// level deeper, on the fixed budget of 10000 gas with empty call data,
/// from the world as the caller read it to an intermediate world. On
/// success the derived address was pushed, a fresh account holding the
/// run's output as its code was installed there, and the creator's nonce
/// was bumped; on failure zero was pushed and the intermediate world is
/// the final one.
pub open spec fn create_child_ran(
    pre: EVM,
    pre_chain: BlockChain,
    post: EVM,
    post_chain: BlockChain,
    salted: bool,
) -> bool {
    let s = pre.stack@;
    let initcode = mem_slice(pre.memory@, sat_usize(peek(s, 1)), sat_usize(peek(s, 2)));
    let derived = if salted {
        be_nat(
            crate::utils::keccak256_of(
                crate::utils::create2_preimage(pre.ctx.address@, peek(s, 3), initcode),
            ).subrange(12, 32),
        )
    } else {
        be_nat(
            crate::utils::keccak256_of(
                crate::utils::rlp_of(
                    crate::utils::addr_bytes_of(pre.ctx.address@),
                    nonce_of(pre_chain.accounts@, pre.ctx.address@),
                ),
            ).subrange(12, 32),
        )
    };
    exists|mid1: BlockChain, child0: EVM, child_post: EVM, mid2: BlockChain, outb: Seq<u8>|
        {
            &&& chain_observed(pre_chain, mid1)
            &&& child0.pc == 0
            &&& child0.stack@.len() == 0
            &&& child0.memory@.len() == 0
            &&& child0.returndata@.len() == 0
            &&& child0.halt == Halt::Running
            &&& child0.depth == pre.depth + 1
            &&& child0.is_static == false
            &&& child0.ctx.tx == pre.ctx.tx
            &&& child0.ctx.msg.from == pre.ctx.address
            &&& child0.ctx.msg.to@ == derived
            &&& child0.ctx.msg.calldata@.len() == 0
            &&& child0.ctx.msg.value@ == peek(s, 0)
            &&& child0.ctx.msg.gas@ == 10000
            &&& child0.ctx.address@ == derived
            &&& child0.ctx.code@ == initcode
            &&& #[trigger] runs_to(child0, mid1, child_post, mid2, outb)
            &&& (is_success(child_post.halt) ==> {
                &&& post.stack@.last()@ == derived
                &&& (crate::blockchain::account_of(post_chain.accounts@, derived)
                    matches Some(acc) && acc.code@ == outb && acc.balance@ == 0 && (forall|
                    k: nat,
                |
                    crate::blockchain::slot_of(acc.storage@, k) == 0))
                &&& (derived != pre.ctx.address@ ==> crate::blockchain::nonce_of(
                    post_chain.accounts@,
                    pre.ctx.address@,
                ) == (crate::blockchain::nonce_of(mid2.accounts@, pre.ctx.address@) + 1)
                    % crate::word::p256())
                &&& (forall|a: nat|
                    a != derived && a != pre.ctx.address@
                        ==> crate::blockchain::account_of(post_chain.accounts@, a)
                        == crate::blockchain::account_of(mid2.accounts@, a))
                &&& post_chain.logs@ == mid2.logs@
                &&& post_chain.destroy_list@ == mid2.destroy_list@
            })
            &&& (!is_success(child_post.halt) ==> post.stack@.last()@ == 0 && post_chain
                == mid2)
        }
}

/// A frame reaches itself by the empty chain of steps.
pub proof fn lemma_steps_to_refl(pre: EVM, pre_chain: BlockChain)
    ensures
        steps_to(pre, pre_chain, pre, pre_chain),
{
}

/// The child run a call-family opcode performs: a frame with exactly the
/// operand-determined identity (code and storage context per the call
/// kind, call data read from the caller's memory, the popped gas and
/// value, one level deeper, static under STATICCALL) ran to completion
/// from the world as the caller read it to the caller's final world; the
/// caller's new returndata buffer is that run's output and the pushed
/// flag is its success.
pub open spec fn call_child_ran(
    pre: EVM,
    pre_chain: BlockChain,
    post: EVM,
    post_chain: BlockChain,
    kind: CallKind,
) -> bool {
    let s = pre.stack@;
    let target = peek(s, 1) % crate::arith::p160();
    exists|mid_chain: BlockChain, child0: EVM, child_post: EVM|
        {
            &&& chain_observed(pre_chain, mid_chain)
            &&& child0.pc == 0
            &&& child0.stack@.len() == 0
            &&& child0.memory@.len() == 0
            &&& child0.returndata@.len() == 0
            &&& child0.halt == Halt::Running
            &&& child0.depth == pre.depth + 1
            &&& child0.depth <= 1024
            &&& child0.is_static == (pre.is_static || kind == CallKind::StaticCall)
            &&& child0.ctx.tx == pre.ctx.tx
            &&& child0.ctx.msg.from == pre.ctx.address
            &&& child0.ctx.msg.to@ == target
            &&& child0.ctx.msg.calldata@ == mem_slice(
                pre.memory@,
                sat_usize(peek(s, 3)),
                sat_usize(peek(s, 4)),
            )
            &&& child0.ctx.msg.value@ == peek(s, 2)
            &&& child0.ctx.msg.gas@ == peek(s, 0)
            &&& child0.ctx.address@ == (if kind == CallKind::CallCode || kind
                == CallKind::DelegateCall {
                pre.ctx.address@
            } else {
                target
            })
            &&& child0.ctx.code@ == crate::blockchain::code_of(pre_chain.accounts@, target)
            &&& #[trigger] runs_to(child0, mid_chain, child_post, post_chain, post.returndata@)
            &&& post.stack@.last()@ == (if is_success(child_post.halt) {
                1nat
            } else {
                0nat
            })
        }
}

/// A further non-halting step extends a chain of steps on the right.
pub proof fn lemma_steps_to_extend(
    pre: EVM,
    pre_chain: BlockChain,
    mid: EVM,
    mid_chain: BlockChain,
    cur: EVM,
    cur_chain: BlockChain,
)
    requires
        steps_to(pre, pre_chain, mid, mid_chain),
        step_rel(mid, mid_chain, cur, cur_chain, None),
    ensures
        steps_to(pre, pre_chain, cur, cur_chain),
    decreases pre.gas@,
{
    if pre == mid && pre_chain == mid_chain {
        lemma_steps_to_refl(cur, cur_chain);
        assert(step_rel(pre, pre_chain, cur, cur_chain, None) && cur.depth == pre.depth
            && cur.gas@ < pre.gas@ && steps_to(cur, cur_chain, cur, cur_chain));
    } else {
        let (m, mc) = choose|m: EVM, mc: BlockChain|
            #[trigger] step_rel(pre, pre_chain, m, mc, None) && m.depth == pre.depth
                && m.gas@ < pre.gas@ && steps_to(m, mc, mid, mid_chain);
        lemma_steps_to_extend(m, mc, mid, mid_chain, cur, cur_chain);
        assert(step_rel(pre, pre_chain, m, mc, None) && m.depth == pre.depth && m.gas@
            < pre.gas@ && steps_to(m, mc, cur, cur_chain));
    }
}

/// A chain of non-halting steps followed by a halting step is a complete
/// run.
pub proof fn lemma_runs_to_compose(
    pre: EVM,
    pre_chain: BlockChain,
    mid: EVM,
    mid_chain: BlockChain,
    post: EVM,
    post_chain: BlockChain,
    out: Seq<u8>,
)
    requires
        steps_to(pre, pre_chain, mid, mid_chain),
        step_rel(mid, mid_chain, post, post_chain, Some(out)),
    ensures
        runs_to(pre, pre_chain, post, post_chain, out),
    decreases pre.gas@,
{
    if pre == mid && pre_chain == mid_chain {
        assert(step_rel(pre, pre_chain, post, post_chain, Some(out)));
    } else {
        let (m, mc) = choose|m: EVM, mc: BlockChain|
            #[trigger] step_rel(pre, pre_chain, m, mc, None) && m.depth == pre.depth
                && m.gas@ < pre.gas@ && steps_to(m, mc, mid, mid_chain);
        lemma_runs_to_compose(m, mc, mid, mid_chain, post, post_chain, out);
        assert(step_rel(pre, pre_chain, m, mc, None) && m.depth == pre.depth && m.gas@
            < pre.gas@ && runs_to(m, mc, post, post_chain, out));
    }
}

/// What executing one decoded (non-push) opcode does, opcode family by
/// opcode family: the exact contract of the routed handler, between the
/// frame and world state before and after, with `out` the frame output for
/// the halting opcodes. This is the single-step meaning of the dispatcher.
#[verifier::opaque]
pub open spec fn dispatch_post(
    op: u8,
    pre: EVM,
    post: EVM,
    pre_chain: BlockChain,
    post_chain: BlockChain,
    out: Seq<u8>,
) -> bool {
    let s = pre.stack@;
    let m = pre.memory@;
    &&& (op == 0x00 ==> post.halt == Halt::Stopped && post.stack@ == s && post.memory@ == m
        && post.returndata@ == pre.returndata@ && post.gas == pre.gas && keeps_pc(pre, post)
        && chain_unchanged(pre_chain, post_chain))
    &&& (is_alu2(op) ==> {
        &&& keeps_pc(pre, post)
        &&& post.memory@ == m
        &&& post.returndata@ == pre.returndata@
        &&& chain_unchanged(pre_chain, post_chain)
        &&& (s.len() >= 2 ==> post.halt == Halt::Running && post.gas == pre.gas
            && stack_replace(s, 2, post.stack@, alu2_val(op, peek(s, 0), peek(s, 1))))
        &&& (s.len() < 2 ==> post.stack_fault())
    })
    &&& (is_alu1(op) ==> {
        &&& keeps_pc(pre, post)
        &&& post.memory@ == m
        &&& post.returndata@ == pre.returndata@
        &&& chain_unchanged(pre_chain, post_chain)
        &&& (s.len() >= 1 ==> post.halt == Halt::Running && post.gas == pre.gas
            && stack_replace(s, 1, post.stack@, alu1_val(op, peek(s, 0))))
        &&& (s.len() < 1 ==> post.stack_fault())
    })
    &&& (is_alu3(op) ==> {
        &&& keeps_pc(pre, post)
        &&& post.memory@ == m
        &&& post.returndata@ == pre.returndata@
        &&& chain_unchanged(pre_chain, post_chain)
        &&& (s.len() >= 3 ==> post.halt == Halt::Running && post.gas == pre.gas
            && stack_replace(
            s,
            3,
            post.stack@,
            alu3_val(op, peek(s, 0), peek(s, 1), peek(s, 2)),
        ))
        &&& (s.len() < 3 ==> post.stack_fault())
    })
    &&& (op == 0x20 ==> {
        &&& keeps_pc(pre, post)
        &&& post.returndata@ == pre.returndata@
        &&& chain_unchanged(pre_chain, post_chain)
        &&& (s.len() < 2 ==> post.stack_fault())
        &&& (s.len() >= 2 && sat_usize(peek(s, 0)) + sat_usize(peek(s, 1)) > usize::MAX
            ==> post.halt == Halt::OutOfBounds)
        &&& (s.len() >= 2 && sat_usize(peek(s, 0)) + sat_usize(peek(s, 1)) <= usize::MAX
            ==> post.halt == Halt::Running && post.gas == pre.gas && stack_replace(
            s,
            2,
            post.stack@,
            be_nat(
                crate::utils::keccak256_of(
                    mem_slice(m, sat_usize(peek(s, 0)), sat_usize(peek(s, 1))),
                ),
            ),
        ))
    })
    &&& (is_env_push(op) ==> {
        &&& keeps_pc(pre, post)
        &&& post.memory@ == m
        &&& post.returndata@ == pre.returndata@
        &&& chain_unchanged(pre_chain, post_chain)
        &&& (s.len() < stack_limit() ==> post.halt == Halt::Running && post.gas == pre.gas
            && stack_replace(s, 0, post.stack@, env_val(pre, op)))
        &&& (s.len() >= stack_limit() ==> post.stack_fault())
    })
    &&& (is_block_push(op) ==> {
        &&& keeps_pc(pre, post)
        &&& post.memory@ == m
        &&& post.returndata@ == pre.returndata@
        &&& chain_unchanged(pre_chain, post_chain)
        &&& (s.len() < stack_limit() ==> post.halt == Halt::Running && post.gas == pre.gas
            && stack_replace(s, 0, post.stack@, block_val(pre_chain.blocks@, op)))
        &&& (s.len() >= stack_limit() ==> post.stack_fault())
    })
    &&& (op == 0x47 ==> {
        &&& keeps_pc(pre, post)
        &&& post.memory@ == m
        &&& post.returndata@ == pre.returndata@
        &&& chain_observed(pre_chain, post_chain)
        &&& (s.len() < stack_limit() ==> post.halt == Halt::Running && post.gas == pre.gas
            && stack_replace(
            s,
            0,
            post.stack@,
            crate::blockchain::balance_of(pre_chain.accounts@, pre.ctx.address@),
        ))
        &&& (s.len() >= stack_limit() ==> post.stack_fault())
    })
    &&& (op == 0x31 ==> {
        &&& keeps_pc(pre, post)
        &&& post.memory@ == m
        &&& post.returndata@ == pre.returndata@
        &&& chain_observed(pre_chain, post_chain)
        &&& (s.len() >= 1 ==> post.halt == Halt::Running && post.gas == pre.gas
            && stack_replace(
            s,
            1,
            post.stack@,
            crate::blockchain::balance_of(pre_chain.accounts@, peek(s, 0) % crate::arith::p160()),
        ))
        &&& (s.len() < 1 ==> post.stack_fault())
    })
    &&& (op == 0x3B ==> {
        &&& keeps_pc(pre, post)
        &&& post.memory@ == m
        &&& post.returndata@ == pre.returndata@
        &&& chain_observed(pre_chain, post_chain)
        &&& (s.len() >= 1 ==> post.halt == Halt::Running && post.gas == pre.gas
            && stack_replace(
            s,
            1,
            post.stack@,
            crate::blockchain::code_of(
                pre_chain.accounts@,
                peek(s, 0) % crate::arith::p160(),
            ).len(),
        ))
        &&& (s.len() < 1 ==> post.stack_fault())
    })
    &&& (op == 0x3F ==> {
        &&& keeps_pc(pre, post)
        &&& post.memory@ == m
        &&& post.returndata@ == pre.returndata@
        &&& chain_observed(pre_chain, post_chain)
        &&& (s.len() >= 1 ==> post.halt == Halt::Running && post.gas == pre.gas
            && stack_replace(
            s,
            1,
            post.stack@,
            be_nat(
                crate::utils::keccak256_of(
                    crate::blockchain::code_of(
                        pre_chain.accounts@,
                        peek(s, 0) % crate::arith::p160(),
                    ),
                ),
            ),
        ))
        &&& (s.len() < 1 ==> post.stack_fault())
    })
    &&& (op == 0x35 ==> {
        &&& keeps_pc(pre, post)
        &&& post.memory@ == m
        &&& post.returndata@ == pre.returndata@
        &&& chain_unchanged(pre_chain, post_chain)
        &&& (s.len() >= 1 ==> post.halt == Halt::Running && post.gas == pre.gas
            && stack_replace(
            s,
            1,
            post.stack@,
            be_nat(mem_slice(pre.ctx.msg.calldata@, sat_usize(peek(s, 0)), 32)),
        ))
        &&& (s.len() < 1 ==> post.stack_fault())
    })
    &&& (op == 0x37 || op == 0x39 ==> {
        let src = if op == 0x37 {
            pre.ctx.msg.calldata@
        } else {
            pre.ctx.code@
        };
        &&& keeps_pc(pre, post)
        &&& post.returndata@ == pre.returndata@
        &&& chain_unchanged(pre_chain, post_chain)
        &&& (s.len() < 3 ==> post.stack_fault())
        &&& (s.len() >= 3 && sat_usize(peek(s, 0)) + sat_usize(peek(s, 2)) > usize::MAX
            ==> post.halt == Halt::OutOfBounds)
        &&& (s.len() >= 3 && sat_usize(peek(s, 0)) + sat_usize(peek(s, 2)) <= usize::MAX
            ==> post.halt == Halt::Running && post.gas == pre.gas && stack_drop(
            s,
            3,
            post.stack@,
        ) && mem_after_store(
            m,
            post.memory@,
            sat_usize(peek(s, 0)),
            mem_slice(src, sat_usize(peek(s, 1)), sat_usize(peek(s, 2))),
        ))
    })
    &&& (op == 0x3C ==> {
        &&& keeps_pc(pre, post)
        &&& post.returndata@ == pre.returndata@
        &&& chain_observed(pre_chain, post_chain)
        &&& (s.len() < 4 ==> post.stack_fault())
        &&& (s.len() >= 4 && sat_usize(peek(s, 1)) + sat_usize(peek(s, 3)) > usize::MAX
            ==> post.halt == Halt::OutOfBounds)
        &&& (s.len() >= 4 && sat_usize(peek(s, 1)) + sat_usize(peek(s, 3)) <= usize::MAX
            ==> post.halt == Halt::Running && post.gas == pre.gas && stack_drop(
            s,
            4,
            post.stack@,
        ) && mem_after_store(
            m,
            post.memory@,
            sat_usize(peek(s, 1)),
            mem_slice(
                crate::blockchain::code_of(
                    pre_chain.accounts@,
                    peek(s, 0) % crate::arith::p160(),
                ),
                sat_usize(peek(s, 2)),
                sat_usize(peek(s, 3)),
            ),
        ))
    })
    &&& (op == 0x3E ==> {
        &&& keeps_pc(pre, post)
        &&& post.returndata@ == pre.returndata@
        &&& chain_unchanged(pre_chain, post_chain)
        &&& (s.len() < 3 ==> post.stack_fault())
        &&& (s.len() >= 3 && (sat_usize(peek(s, 1)) + sat_usize(peek(s, 2))
            > pre.returndata@.len() || sat_usize(peek(s, 0)) + sat_usize(peek(s, 2))
            > usize::MAX) ==> post.halt == Halt::OutOfBounds)
        &&& (s.len() >= 3 && sat_usize(peek(s, 1)) + sat_usize(peek(s, 2))
            <= pre.returndata@.len() && sat_usize(peek(s, 0)) + sat_usize(peek(s, 2))
            <= usize::MAX ==> post.halt == Halt::Running && post.gas == pre.gas
            && stack_drop(s, 3, post.stack@) && mem_after_store(
            m,
            post.memory@,
            sat_usize(peek(s, 0)),
            pre.returndata@.subrange(
                sat_usize(peek(s, 1)) as int,
                (sat_usize(peek(s, 1)) + sat_usize(peek(s, 2))) as int,
            ),
        ))
    })
    &&& (op == 0x50 ==> {
        &&& keeps_pc(pre, post)
        &&& post.memory@ == m
        &&& post.returndata@ == pre.returndata@
        &&& chain_unchanged(pre_chain, post_chain)
        &&& (s.len() >= 1 ==> post.halt == Halt::Running && post.gas == pre.gas
            && stack_drop(s, 1, post.stack@))
        &&& (s.len() < 1 ==> post.stack_fault())
    })
    &&& (op == 0x51 ==> {
        &&& keeps_pc(pre, post)
        &&& post.returndata@ == pre.returndata@
        &&& chain_unchanged(pre_chain, post_chain)
        &&& (s.len() < 1 ==> post.stack_fault())
        &&& (s.len() >= 1 && sat_usize(peek(s, 0)) + 32 > usize::MAX ==> post.halt
            == Halt::OutOfBounds)
        &&& (s.len() >= 1 && sat_usize(peek(s, 0)) + 32 <= usize::MAX ==> post.halt
            == Halt::Running && post.gas == pre.gas && stack_replace(
            s,
            1,
            post.stack@,
            be_nat(mem_slice(m, sat_usize(peek(s, 0)), 32)),
        ))
    })
    &&& (op == 0x52 ==> {
        &&& keeps_pc(pre, post)
        &&& post.returndata@ == pre.returndata@
        &&& chain_unchanged(pre_chain, post_chain)
        &&& (s.len() < 2 ==> post.stack_fault())
        &&& (s.len() >= 2 && sat_usize(peek(s, 0)) + 32 > usize::MAX ==> post.halt
            == Halt::OutOfBounds)
        &&& (s.len() >= 2 && sat_usize(peek(s, 0)) + 32 <= usize::MAX ==> post.halt
            == Halt::Running && post.gas == pre.gas && stack_drop(s, 2, post.stack@)
            && mem_after_store(
            m,
            post.memory@,
            sat_usize(peek(s, 0)),
            crate::utils::word_bytes_of(peek(s, 1)),
        ))
    })
    &&& (op == 0x53 ==> {
        &&& keeps_pc(pre, post)
        &&& post.returndata@ == pre.returndata@
        &&& chain_unchanged(pre_chain, post_chain)
        &&& (s.len() < 2 ==> post.stack_fault())
        &&& (s.len() >= 2 && sat_usize(peek(s, 0)) + 1 > usize::MAX ==> post.halt
            == Halt::OutOfBounds)
        &&& (s.len() >= 2 && sat_usize(peek(s, 0)) + 1 <= usize::MAX ==> post.halt
            == Halt::Running && post.gas == pre.gas && stack_drop(s, 2, post.stack@)
            && mem_after_store(
            m,
            post.memory@,
            sat_usize(peek(s, 0)),
            seq![crate::word::byte_of(peek(s, 1), 31)],
        ))
    })
    &&& (op == 0x54 ==> {
        &&& keeps_pc(pre, post)
        &&& post.memory@ == m
        &&& post.returndata@ == pre.returndata@
        &&& chain_observed(pre_chain, post_chain)
        &&& (s.len() >= 1 ==> post.halt == Halt::Running && post.gas == pre.gas
            && stack_replace(
            s,
            1,
            post.stack@,
            crate::blockchain::storage_of(pre_chain.accounts@, pre.ctx.address@, peek(s, 0)),
        ))
        &&& (s.len() < 1 ==> post.stack_fault())
    })
    &&& (op == 0x55 ==> {
        &&& keeps_pc(pre, post)
        &&& post.memory@ == m
        &&& post.returndata@ == pre.returndata@
        &&& post_chain.blocks@ == pre_chain.blocks@
        &&& post_chain.logs@ == pre_chain.logs@
        &&& post_chain.destroy_list@ == pre_chain.destroy_list@
        &&& (pre.is_static ==> post.halt == Halt::StaticViolation && post_chain.accounts@
            == pre_chain.accounts@)
        &&& (!pre.is_static && s.len() < 2 ==> post.stack_fault() && post_chain.accounts@
            == pre_chain.accounts@)
        &&& (!pre.is_static && s.len() >= 2 ==> post.halt == Halt::Running && post.gas
            == pre.gas && stack_drop(s, 2, post.stack@) && crate::blockchain::storage_of(
            post_chain.accounts@,
            pre.ctx.address@,
            peek(s, 0),
        ) == peek(s, 1) && (forall|k: nat|
            k != peek(s, 0) ==> crate::blockchain::storage_of(
                post_chain.accounts@,
                pre.ctx.address@,
                k,
            ) == crate::blockchain::storage_of(pre_chain.accounts@, pre.ctx.address@, k)) && (
        forall|a: nat|
            a != pre.ctx.address@ ==> crate::blockchain::account_of(post_chain.accounts@, a)
                == crate::blockchain::account_of(pre_chain.accounts@, a))
            && crate::blockchain::balance_of(post_chain.accounts@, pre.ctx.address@)
            == crate::blockchain::balance_of(pre_chain.accounts@, pre.ctx.address@)
            && crate::blockchain::nonce_of(post_chain.accounts@, pre.ctx.address@)
            == crate::blockchain::nonce_of(pre_chain.accounts@, pre.ctx.address@)
            && crate::blockchain::code_of(post_chain.accounts@, pre.ctx.address@)
            == crate::blockchain::code_of(pre_chain.accounts@, pre.ctx.address@))
    })
    &&& (op == 0x56 ==> {
        &&& post.memory@ == m
        &&& post.returndata@ == pre.returndata@
        &&& chain_unchanged(pre_chain, post_chain)
        &&& (s.len() < 1 ==> post.stack_fault())
        &&& (s.len() >= 1 && is_jumpdest(pre.ctx.code@, peek(s, 0)) ==> post.halt
            == Halt::Running && post.gas == pre.gas && post.pc == peek(s, 0) && stack_drop(
            s,
            1,
            post.stack@,
        ))
        &&& (s.len() >= 1 && !is_jumpdest(pre.ctx.code@, peek(s, 0)) ==> post.halt
            == Halt::BadJump && post.gas == pre.gas && post.pc == pre.pc && stack_drop(
            s,
            1,
            post.stack@,
        ))
    })
    &&& (op == 0x57 ==> {
        &&& post.memory@ == m
        &&& post.returndata@ == pre.returndata@
        &&& chain_unchanged(pre_chain, post_chain)
        &&& (s.len() < 2 ==> post.stack_fault())
        &&& (s.len() >= 2 && peek(s, 1) == 0 ==> post.halt == Halt::Running && post.gas
            == pre.gas && post.pc == pre.pc && stack_drop(s, 2, post.stack@))
        &&& (s.len() >= 2 && peek(s, 1) != 0 && is_jumpdest(pre.ctx.code@, peek(s, 0))
            ==> post.halt == Halt::Running && post.gas == pre.gas && post.pc == peek(s, 0)
            && stack_drop(s, 2, post.stack@))
        &&& (s.len() >= 2 && peek(s, 1) != 0 && !is_jumpdest(pre.ctx.code@, peek(s, 0))
            ==> post.halt == Halt::BadJump && post.gas == pre.gas && post.pc == pre.pc
            && stack_drop(s, 2, post.stack@))
    })
    &&& (op == 0x5B ==> post.halt == Halt::Running && post.stack@ == s && post.memory@ == m
        && post.returndata@ == pre.returndata@ && post.gas == pre.gas && keeps_pc(pre, post)
        && chain_unchanged(pre_chain, post_chain))
    &&& (0x80 <= op <= 0x8F ==> {
        let n = (op - 0x7F) as int;
        &&& keeps_pc(pre, post)
        &&& post.memory@ == m
        &&& post.returndata@ == pre.returndata@
        &&& chain_unchanged(pre_chain, post_chain)
        &&& (s.len() >= n && s.len() < stack_limit() ==> post.halt == Halt::Running
            && post.gas == pre.gas && post.stack@ == s.push(s[s.len() - n]))
        &&& (s.len() < n || s.len() >= stack_limit() ==> post.stack_fault())
    })
    &&& (0x90 <= op <= 0x9F ==> {
        let n = (op - 0x8F) as int;
        &&& keeps_pc(pre, post)
        &&& post.memory@ == m
        &&& post.returndata@ == pre.returndata@
        &&& chain_unchanged(pre_chain, post_chain)
        &&& (s.len() >= n + 1 ==> post.halt == Halt::Running && post.gas == pre.gas
            && post.stack@ == s.update(s.len() - 1, s[s.len() - 1 - n]).update(
            s.len() - 1 - n,
            s.last(),
        ))
        &&& (s.len() < n + 1 ==> post.stack_fault())
    })
    &&& (0xA0 <= op <= 0xA4 ==> {
        let n = (op - 0xA0) as int;
        &&& keeps_pc(pre, post)
        &&& post.returndata@ == pre.returndata@
        &&& post_chain.accounts@ == pre_chain.accounts@
        &&& post_chain.blocks@ == pre_chain.blocks@
        &&& post_chain.destroy_list@ == pre_chain.destroy_list@
        &&& (pre.is_static ==> post.halt == Halt::StaticViolation && post_chain.logs@
            == pre_chain.logs@)
        &&& (!pre.is_static && s.len() < n + 2 ==> post.stack_fault() && post_chain.logs@
            == pre_chain.logs@)
        &&& (!pre.is_static && s.len() >= n + 2 && sat_usize(peek(s, 0)) + sat_usize(
            peek(s, 1),
        ) > usize::MAX ==> post.halt == Halt::OutOfBounds && post_chain.logs@
            == pre_chain.logs@)
        &&& (!pre.is_static && s.len() >= n + 2 && sat_usize(peek(s, 0)) + sat_usize(
            peek(s, 1),
        ) <= usize::MAX ==> post.halt == Halt::Running && post.gas == pre.gas && stack_drop(
            s,
            n + 2,
            post.stack@,
        ) && post_chain.logs@.len() == pre_chain.logs@.len() + 1 && post_chain.logs@
            .drop_last() == pre_chain.logs@ && post_chain.logs@.last().data@ == mem_slice(
            m,
            sat_usize(peek(s, 0)),
            sat_usize(peek(s, 1)),
        ) && post_chain.logs@.last().topic1@ == (if n >= 1 {
            peek(s, 2)
        } else {
            0
        }) && post_chain.logs@.last().topic2@ == (if n >= 2 {
            peek(s, 3)
        } else {
            0
        }) && post_chain.logs@.last().topic3@ == (if n >= 3 {
            peek(s, 4)
        } else {
            0
        }) && post_chain.logs@.last().topic4@ == (if n >= 4 {
            peek(s, 5)
        } else {
            0
        }))
    })
    &&& (op == 0xF3 || op == 0xFD ==> {
        &&& keeps_pc(pre, post)
        &&& post.returndata@ == pre.returndata@
        &&& chain_unchanged(pre_chain, post_chain)
        &&& (s.len() < 2 ==> post.stack_fault() && out.len() == 0)
        &&& (s.len() >= 2 && sat_usize(peek(s, 0)) + sat_usize(peek(s, 1)) > usize::MAX
            ==> post.halt == Halt::OutOfBounds && out.len() == 0)
        &&& (s.len() >= 2 && sat_usize(peek(s, 0)) + sat_usize(peek(s, 1)) <= usize::MAX
            ==> post.halt == (if op == 0xFD {
            Halt::Reverted
        } else {
            Halt::Returned
        }) && post.gas == pre.gas && stack_drop(s, 2, post.stack@) && out == mem_slice(
            m,
            sat_usize(peek(s, 0)),
            sat_usize(peek(s, 1)),
        ))
    })
    &&& (op == 0xFE ==> post.halt == Halt::InvalidOpcode && post.gas@ == 0 && post.stack@
        == s && post.memory@ == m && post.returndata@ == pre.returndata@ && keeps_pc(
        pre,
        post,
    ) && chain_unchanged(pre_chain, post_chain))
    &&& (op == 0xFF ==> {
        &&& keeps_pc(pre, post)
        &&& post.memory@ == m
        &&& post.returndata@ == pre.returndata@
        &&& post_chain.blocks@ == pre_chain.blocks@
        &&& post_chain.logs@ == pre_chain.logs@
        &&& (pre.is_static ==> post.halt == Halt::StaticViolation && post_chain.accounts@
            == pre_chain.accounts@ && post_chain.destroy_list@ == pre_chain.destroy_list@)
        &&& (!pre.is_static && s.len() < 1 ==> post.stack_fault() && post_chain.accounts@
            == pre_chain.accounts@ && post_chain.destroy_list@ == pre_chain.destroy_list@)
        &&& (!pre.is_static && s.len() >= 1 ==> {
            let beneficiary = peek(s, 0) % crate::arith::p160();
            let addr = pre.ctx.address@;
            &&& post.halt == Halt::Stopped
            &&& post.gas == pre.gas
            &&& stack_drop(s, 1, post.stack@)
            &&& (addr != beneficiary ==> crate::blockchain::balance_of(
                post_chain.accounts@,
                addr,
            ) == 0 && crate::blockchain::balance_of(post_chain.accounts@, beneficiary) == (
            crate::blockchain::balance_of(pre_chain.accounts@, beneficiary)
                + crate::blockchain::balance_of(pre_chain.accounts@, addr))
                % crate::word::p256())
            &&& (addr == beneficiary ==> crate::blockchain::balance_of(
                post_chain.accounts@,
                beneficiary,
            ) == crate::blockchain::balance_of(pre_chain.accounts@, beneficiary))
            &&& (forall|a: nat|
                a != addr && a != beneficiary ==> crate::blockchain::account_of(
                    post_chain.accounts@,
                    a,
                ) == crate::blockchain::account_of(pre_chain.accounts@, a))
            &&& (crate::blockchain::contains_addr(pre_chain.destroy_list@, addr)
                ==> post_chain.destroy_list@ == pre_chain.destroy_list@)
            &&& (!crate::blockchain::contains_addr(pre_chain.destroy_list@, addr)
                ==> post_chain.destroy_list@.len() == pre_chain.destroy_list@.len() + 1
                && post_chain.destroy_list@.last()@ == addr && post_chain.destroy_list@
                .drop_last() == pre_chain.destroy_list@)
        })
    })
    &&& (op == 0xF1 || op == 0xF2 || op == 0xF4 || op == 0xFA ==> {
        let kind = if op == 0xF1 {
            CallKind::Call
        } else if op == 0xF2 {
            CallKind::CallCode
        } else if op == 0xF4 {
            CallKind::DelegateCall
        } else {
            CallKind::StaticCall
        };
        &&& keeps_pc(pre, post)
        &&& post_chain.blocks@ == pre_chain.blocks@
        &&& (s.len() < 7 ==> post.stack_fault())
        &&& (post.halt != Halt::Running ==> chain_unchanged(pre_chain, post_chain))
        &&& (s.len() >= 7 && call_static_violation(pre, kind) ==> post.halt
            == Halt::StaticViolation)
        &&& (s.len() >= 7 && !call_static_violation(pre, kind) && call_out_of_range(pre)
            ==> post.halt == Halt::OutOfBounds)
        &&& (s.len() >= 7 && !call_static_violation(pre, kind) && !call_out_of_range(pre)
            && pre.depth < depth_limit() ==> call_completed(pre, post))
        &&& (s.len() >= 7 && !call_static_violation(pre, kind) && !call_out_of_range(pre)
            && pre.depth >= depth_limit() ==> post.halt == Halt::Running && post.gas
            == pre.gas && post.stack@.len() == s.len() - 6 && post.stack@.last()@ == 0
            && post.returndata@.len() == 0 && post.memory@ == m && chain_unchanged(
            pre_chain,
            post_chain,
        ))
    })
    &&& (op == 0xF0 || op == 0xF5 ==> {
        let salted = op == 0xF5;
        &&& keeps_pc(pre, post)
        &&& post.returndata@ == pre.returndata@
        &&& post_chain.blocks@ == pre_chain.blocks@
        &&& (pre.is_static ==> post.halt == Halt::StaticViolation)
        &&& (post.halt != Halt::Running ==> chain_unchanged(pre_chain, post_chain))
        &&& (!pre.is_static && s.len() < (if salted {
            4int
        } else {
            3int
        }) ==> post.stack_fault())
        &&& (post.halt == Halt::Running ==> post.gas == pre.gas && post.stack@.len()
            == s.len() - (if salted {
            3int
        } else {
            2int
        }) && post.stack@.subrange(0, post.stack@.len() - 1) == s.subrange(
            0,
            s.len() - (if salted {
                4int
            } else {
                3int
            }),
        ))
        &&& (post.halt == Halt::Running && !salted ==> (post.stack@.last()@ == 0
            || post.stack@.last()@ == be_nat(
            crate::utils::keccak256_of(
                crate::utils::rlp_of(
                    crate::utils::addr_bytes_of(pre.ctx.address@),
                    nonce_of(pre_chain.accounts@, pre.ctx.address@),
                ),
            ).subrange(12, 32),
        )))
        &&& (post.halt == Halt::Running && salted ==> (post.stack@.last()@ == 0
            || post.stack@.last()@ == be_nat(
            crate::utils::keccak256_of(
                crate::utils::create2_preimage(
                    pre.ctx.address@,
                    peek(s, 3),
                    mem_slice(m, sat_usize(peek(s, 1)), sat_usize(peek(s, 2))),
                ),
            ).subrange(12, 32),
        )))
        &&& (post.halt == Halt::Running && post.stack@.last()@ != 0
            ==> crate::blockchain::account_of(post_chain.accounts@, post.stack@.last()@)
            is Some)
    })
}

impl EVM {
    /// Build and run a child frame for one of the four call-family
    /// opcodes, splice its returndata back, and push its success flag.
    ///
    /// The child's code comes from the target account; its storage context
    /// stays with the caller for CALLCODE and DELEGATECALL; a STATICCALL
    /// child (and every frame below it) may not mutate the world. The
    /// caller's gas is never touched: the child runs on the popped gas
    /// operand alone.
    pub fn op_call_family(&mut self, chain: &mut BlockChain, kind: CallKind)
        requires
            old(self).halt == Halt::Running,
            old(self).wf(),
        ensures
            final(self).wf(),
            EVM::keeps_env(*old(self), *final(self)),
            final(self).pc == old(self).pc,
            final(self).gas@ <= old(self).gas@,
            final(self).memory@.len() >= old(self).memory@.len(),
            old(self).stack@.len() < 7 ==> final(self).stack_fault(),
            final(self).halt == Halt::Running || final(self).halt == Halt::StackUnderflow
                || final(self).halt == Halt::StackOverflow || final(self).halt
                == Halt::StaticViolation || final(self).halt == Halt::OutOfBounds,
            old(self).stack@.len() >= 7 && call_static_violation(*old(self), kind) ==> final(self).halt == Halt::StaticViolation,
            old(self).stack@.len() >= 7 && !call_static_violation(*old(self), kind)
                && call_out_of_range(*old(self)) ==> final(self).halt == Halt::OutOfBounds,
            old(self).stack@.len() >= 7 && !call_static_violation(*old(self), kind)
                && !call_out_of_range(*old(self)) && old(self).depth >= depth_limit()
                ==> final(self).halt == Halt::Running && final(self).gas == old(self).gas
                && final(self).stack@.len() == old(self).stack@.len() - 6 && final(self).stack@.subrange(0, final(self).stack@.len() - 1) == old(self).stack@.subrange(
                0,
                old(self).stack@.len() - 7,
            ) && final(self).stack@.last()@ == 0 && final(self).returndata@.len() == 0
                && final(self).memory@ == old(self).memory@ && chain_unchanged(
                *old(chain),
                *final(chain),
            ),
            old(self).stack@.len() >= 7 && !call_static_violation(*old(self), kind)
                && !call_out_of_range(*old(self)) && old(self).depth < depth_limit()
                ==> call_completed(*old(self), *final(self)) && call_child_ran(
                *old(self),
                *old(chain),
                *final(self),
                *final(chain),
                kind,
            ),
            final(self).halt != Halt::Running ==> chain_unchanged(*old(chain), *final(chain)),
            final(chain).blocks@ == old(chain).blocks@,
            final(self).halt == Halt::Running ==> final(self).gas == old(self).gas && final(self).stack@.len() == old(self).stack@.len() - 6 && final(self).stack@.subrange(
                0,
                final(self).stack@.len() - 1,
            ) == old(self).stack@.subrange(0, old(self).stack@.len() - 7) && (final(self).stack@.last()@ == 0 || final(self).stack@.last()@ == 1),
        decreases 1024 - self.depth, 1int,
    {
        let gas = match self.stack_pop() {
            Some(w) => w,
            None => {
                return ;
            },
        };
        let target = match self.stack_pop() {
            Some(w) => w,
            None => {
                return ;
            },
        };
        let value = match self.stack_pop() {
            Some(w) => w,
            None => {
                return ;
            },
        };
        let args_offset_w = match self.stack_pop() {
            Some(w) => w,
            None => {
                return ;
            },
        };
        let args_size_w = match self.stack_pop() {
            Some(w) => w,
            None => {
                return ;
            },
        };
        let ret_offset_w = match self.stack_pop() {
            Some(w) => w,
            None => {
                return ;
            },
        };
        let ret_size_w = match self.stack_pop() {
            Some(w) => w,
            None => {
                return ;
            },
        };
        if self.is_static && matches!(kind, CallKind::Call) && !value.is_zero() {
            self.halt = Halt::StaticViolation;
            return ;
        }
        let args_offset = args_offset_w.as_usize_saturating();
        let args_size = args_size_w.as_usize_saturating();
        let ret_offset = ret_offset_w.as_usize_saturating();
        let ret_size = ret_size_w.as_usize_saturating();
        if args_size > usize::MAX - args_offset || ret_size > usize::MAX - ret_offset {
            self.halt = Halt::OutOfBounds;
            return ;
        }
        if self.depth >= 1024 {
            // The depth cap makes the call fail without running a frame.
            self.returndata = Vec::new();
            let flag = crate::utils::bool_to_u256(false);
            self.stack_push(flag);
            proof {
                assert(self.stack@.subrange(0, self.stack@.len() - 1) =~= old(
                    self,
                ).stack@.subrange(0, old(self).stack@.len() - 7));
            }
            return ;
        }
        let masked = target.mask_address();
        let account = chain.get_account(&masked);
        let ghost mid_chain = *chain;
        let calldata = self.memory_load(args_offset, args_size);
        let ghost extended = self.memory@;
        proof {
            assert forall|i: int| 0 <= i implies mem_read(extended, 0, i) == mem_read(
                old(self).memory@,
                0,
                i,
            ) by {}
        }
        let child_address = match kind {
            CallKind::Call => masked,
            CallKind::StaticCall => masked,
            CallKind::CallCode => self.ctx.address,
            CallKind::DelegateCall => self.ctx.address,
        };
        let child_static = self.is_static || matches!(kind, CallKind::StaticCall);
        let msg = MSG::new(self.ctx.address, masked, calldata, value, gas);
        let ctx = CTX::new(self.ctx.tx, msg, child_address, account.code);
        let mut child = EVM::new_frame(ctx, self.depth + 1, child_static);
        let ghost child0 = child;
        proof {
            assert(child0.ctx.msg.calldata@ =~= mem_slice(
                old(self).memory@,
                sat_usize(peek(old(self).stack@, 3)),
                sat_usize(peek(old(self).stack@, 4)),
            ));
        }
        let (success, rdata) = child.run(chain);
        if ret_size > 0 {
            let spliced = padded_slice(&rdata, 0, ret_size);
            self.memory_store(ret_offset, &spliced);
            proof {
                assert forall|i: int|
                    0 <= i < self.memory@.len() && !(ret_offset <= i < ret_offset
                        + ret_size) implies self.memory@[i] == mem_read(
                    old(self).memory@,
                    0,
                    i,
                ) by {
                    assert(self.memory@[i] == mem_read(extended, 0, i));
                }
                assert forall|i: int| 0 <= i < ret_size implies self.memory@[ret_offset
                    + i] == mem_read(rdata@, 0, i) by {
                    assert(self.memory@[ret_offset + i] == spliced@[i]);
                    assert(spliced@[i] == mem_read(rdata@, 0, i));
                }
            }
        }
        self.returndata = rdata;
        let flag = crate::utils::bool_to_u256(success);
        self.stack_push(flag);
        proof {
            assert(self.stack@.subrange(0, self.stack@.len() - 1) =~= old(
                self,
            ).stack@.subrange(0, old(self).stack@.len() - 7));
            assert(chain_observed(*old(chain), mid_chain) && runs_to(
                child0,
                mid_chain,
                child,
                *chain,
                self.returndata@,
            ));
        }
    }

    /// Build and run an initcode frame for CREATE or CREATE2, derive the
    /// new account's address, and on success install the frame's
    /// returndata as the account's code and bump the creator's nonce.
    ///
    /// CREATE derives the address from the Keccak-256 hash of the RLP
    /// encoding of `[creator, nonce]`; CREATE2 pops a salt and derives it
    /// from `0xFF`, the creator, the salt and the initcode hash. The
    /// initcode runs on a fixed budget of 10000 gas with empty call data;
    /// a failed creation pushes zero.
    pub fn op_create(&mut self, chain: &mut BlockChain, salted: bool)
        requires
            old(self).halt == Halt::Running,
            old(self).wf(),
        ensures
            final(self).wf(),
            EVM::keeps_env(*old(self), *final(self)),
            final(self).pc == old(self).pc,
            final(self).gas@ <= old(self).gas@,
            final(self).memory@.len() >= old(self).memory@.len(),
            final(self).returndata@ == old(self).returndata@,
            final(self).halt == Halt::Running || final(self).halt == Halt::StackUnderflow
                || final(self).halt == Halt::StackOverflow || final(self).halt
                == Halt::StaticViolation || final(self).halt == Halt::OutOfBounds,
            old(self).is_static ==> final(self).halt == Halt::StaticViolation,
            !old(self).is_static && old(self).stack@.len() < (if salted {
                4int
            } else {
                3int
            }) ==> final(self).stack_fault(),
            final(self).halt != Halt::Running ==> chain_unchanged(*old(chain), *final(chain)),
            final(chain).blocks@ == old(chain).blocks@,
            !old(self).is_static && old(self).stack@.len() >= (if salted {
                4int
            } else {
                3int
            }) && sat_usize(peek(old(self).stack@, 1)) + sat_usize(peek(old(self).stack@, 2))
                > usize::MAX ==> final(self).halt == Halt::OutOfBounds,
            !old(self).is_static && old(self).stack@.len() >= (if salted {
                4int
            } else {
                3int
            }) && sat_usize(peek(old(self).stack@, 1)) + sat_usize(peek(old(self).stack@, 2))
                <= usize::MAX && old(self).depth < depth_limit() ==> create_child_ran(
                *old(self),
                *old(chain),
                *final(self),
                *final(chain),
                salted,
            ),
            !old(self).is_static && old(self).stack@.len() >= (if salted {
                4int
            } else {
                3int
            }) && sat_usize(peek(old(self).stack@, 1)) + sat_usize(peek(old(self).stack@, 2))
                <= usize::MAX && old(self).depth >= depth_limit() ==> final(self).halt
                == Halt::Running && final(self).stack@.last()@ == 0
                && crate::blockchain::observes_eq(final(chain).accounts@, old(chain).accounts@)
                && final(chain).logs@ == old(chain).logs@ && final(chain).destroy_list@
                == old(chain).destroy_list@,
            final(self).halt == Halt::Running && final(self).stack@.last()@ != 0
                ==> crate::blockchain::account_of(
                final(chain).accounts@,
                final(self).stack@.last()@,
            ) is Some,
            final(self).halt == Halt::Running && final(self).stack@.last()@ != 0 && final(self).stack@.last()@ != old(self).ctx.address@
                ==> (crate::blockchain::account_of(
                final(chain).accounts@,
                final(self).stack@.last()@,
            ) matches Some(acc) && acc.nonce@ == 0 && acc.balance@ == 0 && acc.storage@.len()
                == 0),
            final(self).halt == Halt::Running ==> final(self).gas == old(self).gas && final(self).stack@.len() == old(self).stack@.len() - (if salted {
                3int
            } else {
                2int
            }) && final(self).stack@.subrange(0, final(self).stack@.len() - 1) == old(self).stack@.subrange(
                0,
                old(self).stack@.len() - (if salted {
                    4int
                } else {
                    3int
                }),
            ),
            final(self).halt == Halt::Running && !salted ==> (final(self).stack@.last()@
                == 0 || final(self).stack@.last()@ == be_nat(
                crate::utils::keccak256_of(
                    crate::utils::rlp_of(
                        crate::utils::addr_bytes_of(old(self).ctx.address@),
                        nonce_of(old(chain).accounts@, old(self).ctx.address@),
                    ),
                ).subrange(12, 32),
            )),
            final(self).halt == Halt::Running && salted ==> (final(self).stack@.last()@ == 0
                || final(self).stack@.last()@ == be_nat(
                crate::utils::keccak256_of(
                    crate::utils::create2_preimage(
                        old(self).ctx.address@,
                        peek(old(self).stack@, 3),
                        mem_slice(
                            old(self).memory@,
                            sat_usize(peek(old(self).stack@, 1)),
                            sat_usize(peek(old(self).stack@, 2)),
                        ),
                    ),
                ).subrange(12, 32),
            )),
        decreases 1024 - self.depth, 1int,
    {
        if self.is_static {
            self.halt = Halt::StaticViolation;
            return ;
        }
        let value = match self.stack_pop() {
            Some(w) => w,
            None => {
                return ;
            },
        };
        let offset_w = match self.stack_pop() {
            Some(w) => w,
            None => {
                return ;
            },
        };
        let size_w = match self.stack_pop() {
            Some(w) => w,
            None => {
                return ;
            },
        };
        let salt = if salted {
            match self.stack_pop() {
                Some(w) => w,
                None => {
                    return ;
                },
            }
        } else {
            Word::zero()
        };
        let offset = offset_w.as_usize_saturating();
        let size = size_w.as_usize_saturating();
        if size > usize::MAX - offset {
            self.halt = Halt::OutOfBounds;
            return ;
        }
        let initcode = self.memory_load(offset, size);
        proof {
            assert(initcode@ =~= mem_slice(
                old(self).memory@,
                sat_usize(peek(old(self).stack@, 1)),
                sat_usize(peek(old(self).stack@, 2)),
            ));
        }
        let contract_address = if salted {
            crate::utils::create2_address(&self.ctx.address, &salt, &initcode)
        } else {
            let creator = chain.get_account(&self.ctx.address);
            crate::utils::create_address(&self.ctx.address, creator.nonce)
        };
        let ghost mid1 = *chain;
        if self.depth >= 1024 {
            let zero = Word::zero();
            self.stack_push(zero);
            proof {
                if salted {
                    assert(self.stack@.subrange(0, self.stack@.len() - 1) =~= old(
                        self,
                    ).stack@.subrange(0, old(self).stack@.len() - 4));
                } else {
                    assert(self.stack@.subrange(0, self.stack@.len() - 1) =~= old(
                        self,
                    ).stack@.subrange(0, old(self).stack@.len() - 3));
                }
            }
            return ;
        }
        let msg = MSG::new(
            self.ctx.address,
            contract_address,
            Vec::new(),
            value,
            Word::from_u64(10000),
        );
        let ctx = CTX::new(self.ctx.tx, msg, contract_address, initcode);
        let mut child = EVM::new_frame(ctx, self.depth + 1, false);
        let ghost child0 = child;
        let (success, rdata) = child.run(chain);
        let ghost mid2 = *chain;
        let ghost out_g = rdata@;
        let pushed: Word = if success {
            chain.add_contract_bin(contract_address, rdata);
            let ghost mid3 = *chain;
            chain.bump_nonce(&self.ctx.address);
            proof {
                if contract_address@ != self.ctx.address@ {
                    assert(crate::blockchain::account_of(chain.accounts@, contract_address@)
                        == crate::blockchain::account_of(mid3.accounts@, contract_address@));
                } else {
                    assert(crate::blockchain::account_of(chain.accounts@, contract_address@)
                        is Some);
                    let acc = crate::blockchain::account_of(
                        chain.accounts@,
                        contract_address@,
                    )->Some_0;
                    assert(acc.code@ == crate::blockchain::code_of(
                        chain.accounts@,
                        contract_address@,
                    ));
                    assert(acc.code@ == out_g);
                    assert(acc.balance@ == 0);
                    assert forall|k: nat| crate::blockchain::slot_of(acc.storage@, k)
                        == 0 by {
                        assert(crate::blockchain::slot_of(acc.storage@, k)
                            == crate::blockchain::storage_of(
                            chain.accounts@,
                            contract_address@,
                            k,
                        ));
                    }
                }
            }
            contract_address
        } else {
            Word::zero()
        };
        self.stack_push(pushed);
        proof {
            if salted {
                assert(self.stack@.subrange(0, self.stack@.len() - 1) =~= old(
                    self,
                ).stack@.subrange(0, old(self).stack@.len() - 4));
            } else {
                assert(self.stack@.subrange(0, self.stack@.len() - 1) =~= old(
                    self,
                ).stack@.subrange(0, old(self).stack@.len() - 3));
            }
            assert(chain_observed(*old(chain), mid1) && runs_to(
                child0,
                mid1,
                child,
                mid2,
                out_g,
            ));
        }
    }
}

impl EVM {
    /// Execute one decoded opcode (never a push): route it to its handler.
    /// Returns the frame's output bytes when the opcode halted it. The
    /// whole per-opcode meaning is `dispatch_post`, which forwards each
    /// handler's exact contract.
    pub fn dispatch(&mut self, chain: &mut BlockChain, op: u8) -> (out: Vec<u8>)
        requires
            is_defined(op),
            !(0x60 <= op <= 0x7F),
            old(self).halt == Halt::Running,
            old(self).wf(),
        ensures
            final(self).wf(),
            EVM::keeps_env(*old(self), *final(self)),
            final(self).gas@ <= old(self).gas@,
            final(self).memory@.len() >= old(self).memory@.len(),
            final(self).halt == Halt::Running ==> final(self).stack@.len() == old(self).stack@.len() + stack_delta(op),
            op == 0x00 || op == 0xF3 || op == 0xFD || op == 0xFE ==> final(self).halt
                != Halt::Running,
            op == 0x56 && final(self).halt == Halt::Running ==> crate::ops::is_jumpdest(
                final(self).ctx.code@,
                final(self).pc as nat,
            ),
            op == 0x57 && final(self).halt == Halt::Running ==> final(self).pc == old(self).pc || crate::ops::is_jumpdest(final(self).ctx.code@, final(self).pc as nat),
            final(self).halt != Halt::OutOfGas,
            final(chain).blocks@ == old(chain).blocks@,
            dispatch_post(op, *old(self), *final(self), *old(chain), *final(chain), out@),
            final(self).halt == Halt::BadJump ==> out@ == bad_jump_bytes(),
            final(self).halt == Halt::Running || final(self).halt == Halt::Stopped || final(self).halt == Halt::InvalidOpcode || final(self).halt == Halt::StackUnderflow
                || final(self).halt == Halt::StackOverflow || final(self).halt
                == Halt::StaticViolation || final(self).halt == Halt::OutOfBounds ==> out@.len()
                == 0,
        decreases 1024 - self.depth, 2int,
    {
        proof {
            reveal(dispatch_post);
        }
        if op == 0x00 {
            self.halt = Halt::Stopped;
            Vec::new()
        } else if (0x01 <= op && op <= 0x07) || op == 0x0A || op == 0x0B || (0x10 <= op
            && op <= 0x14) || (0x16 <= op && op <= 0x18) || (0x1A <= op && op <= 0x1D) {
            self.op_alu2(op);
            Vec::new()
        } else if op == 0x15 || op == 0x19 {
            self.op_alu1(op);
            Vec::new()
        } else if op == 0x08 || op == 0x09 {
            self.op_alu3(op);
            Vec::new()
        } else if op == 0x20 {
            self.op_sha3();
            Vec::new()
        } else if op == 0x30 || op == 0x32 || op == 0x33 || op == 0x34 || op == 0x36 || op
            == 0x38 || op == 0x3A || op == 0x3D || op == 0x58 || op == 0x59 || op == 0x5A
            || op == 0x5F {
            self.op_env_push(op);
            Vec::new()
        } else if op == 0x31 {
            self.op_balance(chain);
            Vec::new()
        } else if op == 0x35 {
            self.op_calldataload();
            Vec::new()
        } else if op == 0x37 {
            self.op_calldatacopy();
            Vec::new()
        } else if op == 0x39 {
            self.op_codecopy();
            Vec::new()
        } else if op == 0x3B {
            self.op_extcodesize(chain);
            Vec::new()
        } else if op == 0x3C {
            self.op_extcodecopy(chain);
            Vec::new()
        } else if op == 0x3E {
            self.op_returndatacopy();
            Vec::new()
        } else if op == 0x3F {
            self.op_extcodehash(chain);
            Vec::new()
        } else if (0x40 <= op && op <= 0x46) || op == 0x48 {
            self.op_block_push(chain, op);
            Vec::new()
        } else if op == 0x47 {
            self.op_selfbalance(chain);
            Vec::new()
        } else if op == 0x50 {
            self.op_pop();
            Vec::new()
        } else if op == 0x51 {
            self.op_mload();
            Vec::new()
        } else if op == 0x52 {
            self.op_mstore();
            Vec::new()
        } else if op == 0x53 {
            self.op_mstore8();
            Vec::new()
        } else if op == 0x54 {
            self.op_sload(chain);
            Vec::new()
        } else if op == 0x55 {
            self.op_sstore(chain);
            Vec::new()
        } else if op == 0x56 {
            self.op_jump();
            if matches!(self.halt, Halt::BadJump) {
                bad_jump_message()
            } else {
                Vec::new()
            }
        } else if op == 0x57 {
            self.op_jumpi();
            if matches!(self.halt, Halt::BadJump) {
                bad_jump_message()
            } else {
                Vec::new()
            }
        } else if op == 0x5B {
            Vec::new()
        } else if 0x80 <= op && op <= 0x8F {
            self.op_dup((op - 0x7F) as usize);
            Vec::new()
        } else if 0x90 <= op && op <= 0x9F {
            self.op_swap((op - 0x8F) as usize);
            Vec::new()
        } else if 0xA0 <= op && op <= 0xA4 {
            self.op_log(chain, (op - 0xA0) as usize);
            Vec::new()
        } else if op == 0xF0 {
            self.op_create(chain, false);
            Vec::new()
        } else if op == 0xF5 {
            self.op_create(chain, true);
            Vec::new()
        } else if op == 0xF1 {
            self.op_call_family(chain, CallKind::Call);
            Vec::new()
        } else if op == 0xF2 {
            self.op_call_family(chain, CallKind::CallCode);
            Vec::new()
        } else if op == 0xF4 {
            self.op_call_family(chain, CallKind::DelegateCall);
            Vec::new()
        } else if op == 0xFA {
            self.op_call_family(chain, CallKind::StaticCall);
            Vec::new()
        } else if op == 0xF3 {
            self.op_return_or_revert(false)
        } else if op == 0xFD {
            self.op_return_or_revert(true)
        } else if op == 0xFE {
            self.op_invalid();
            Vec::new()
        } else {
            self.op_selfdestruct(chain);
            Vec::new()
        }
    }

    /// Execute one iteration of the interpreter loop: fetch the opcode at
    /// the counter, decode it, charge its fixed gas, and run it (reading the
    /// inline operand for a push). Returns `None` while the frame keeps
    /// running and `Some` of the frame's output once it halted.
    pub fn step(&mut self, chain: &mut BlockChain) -> (r: Option<Vec<u8>>)
        requires
            old(self).halt == Halt::Running,
            old(self).wf(),
        ensures
            final(self).wf(),
            EVM::keeps_env(*old(self), *final(self)),
            final(self).gas@ <= old(self).gas@,
            final(self).memory@.len() >= old(self).memory@.len(),
            final(chain).blocks@ == old(chain).blocks@,
            (r is None) == (final(self).halt == Halt::Running),
            r is None ==> final(self).gas@ < old(self).gas@,
            final(self).halt == Halt::OutOfGas ==> (r matches Some(o) && o@ == oog_bytes()),
            final(self).halt == Halt::BadJump ==> (r matches Some(o) && o@
                == bad_jump_bytes()),
            final(self).halt == Halt::Stopped || final(self).halt == Halt::InvalidOpcode
                || final(self).halt == Halt::StackUnderflow || final(self).halt
                == Halt::StackOverflow || final(self).halt == Halt::StaticViolation || final(self).halt == Halt::OutOfBounds ==> (r matches Some(o) && o@.len() == 0),
            old(self).pc >= old(self).ctx.code@.len() ==> final(self).halt == Halt::Stopped
                && final(self).stack@ == old(self).stack@ && final(self).memory@ == old(self).memory@ && final(self).returndata@ == old(self).returndata@ && final(self).gas
                == old(self).gas && chain_unchanged(*old(chain), *final(chain)),
            old(self).pc < old(self).ctx.code@.len() && !is_defined(
                old(self).ctx.code@[old(self).pc as int],
            ) ==> final(self).halt == Halt::InvalidOpcode && final(self).gas@ == 0 && final(self).stack@ == old(self).stack@ && final(self).memory@ == old(self).memory@
                && final(self).returndata@ == old(self).returndata@ && chain_unchanged(
                *old(chain),
                *final(chain),
            ),
            old(self).pc < old(self).ctx.code@.len() && is_defined(
                old(self).ctx.code@[old(self).pc as int],
            ) && old(self).gas@ < crate::instructions::gas_of(
                old(self).ctx.code@[old(self).pc as int],
            ) ==> final(self).halt == Halt::OutOfGas && final(self).gas == old(self).gas
                && final(self).stack@ == old(self).stack@ && final(self).memory@ == old(self).memory@ && final(self).returndata@ == old(self).returndata@
                && chain_unchanged(*old(chain), *final(chain)),
            ({
                let op = old(self).ctx.code@[old(self).pc as int];
                old(self).pc < old(self).ctx.code@.len() && is_defined(op) && old(self).gas@
                    >= crate::instructions::gas_of(op) && 0x60 <= op <= 0x7F
            }) ==> ({
                let op = old(self).ctx.code@[old(self).pc as int];
                &&& final(self).memory@ == old(self).memory@
                &&& final(self).returndata@ == old(self).returndata@
                &&& chain_unchanged(*old(chain), *final(chain))
                &&& (old(self).stack@.len() < stack_limit() ==> final(self).halt
                    == Halt::Running && final(self).gas@ == old(self).gas@
                    - crate::instructions::gas_of(op) && final(self).stack@.len() == old(self).stack@.len() + 1 && final(self).stack@.drop_last() == old(self).stack@
                    && final(self).stack@.last()@ == be_nat(
                    mem_slice(
                        old(self).ctx.code@,
                        (old(self).pc + 1) as nat,
                        crate::instructions::operands_of(op) as nat,
                    ),
                ) && final(self).pc == (if old(self).pc + 1
                    + crate::instructions::operands_of(op) <= old(self).ctx.code@.len() {
                    old(self).pc + 1 + crate::instructions::operands_of(op)
                } else {
                    old(self).ctx.code@.len() as int
                }))
                &&& (old(self).stack@.len() >= stack_limit() ==> final(self).halt
                    == Halt::StackOverflow && final(self).gas@ == 0)
            }),
            ({
                let op = old(self).ctx.code@[old(self).pc as int];
                old(self).pc < old(self).ctx.code@.len() && is_defined(op) && old(self).gas@
                    >= crate::instructions::gas_of(op) && !(0x60 <= op <= 0x7F)
            }) ==> ({
                let op = old(self).ctx.code@[old(self).pc as int];
                let charged = charged_frame(*old(self), crate::instructions::gas_of(op) as nat);
                &&& (r matches Some(o) ==> dispatch_post(
                    op,
                    charged,
                    *final(self),
                    *old(chain),
                    *final(chain),
                    o@,
                ))
                &&& (r is None ==> exists|o: Seq<u8>|
                    dispatch_post(op, charged, *final(self), *old(chain), *final(chain), o))
            }),
            r matches Some(halted) ==> step_rel(
                *old(self),
                *old(chain),
                *final(self),
                *final(chain),
                Some(halted@),
            ),
            r is None ==> step_rel(
                *old(self),
                *old(chain),
                *final(self),
                *final(chain),
                None,
            ),
        decreases 1024 - self.depth, 3int,
    {
        let code_len = self.ctx.code.len();
        if self.pc >= code_len {
            self.halt = Halt::Stopped;
            return Some(Vec::new());
        }
        let op = self.ctx.code[self.pc];
        self.pc = self.pc + 1;
        let instruction = match lookup(op) {
            Some(ins) => ins,
            None => {
                self.halt = Halt::InvalidOpcode;
                self.gas = Word::zero();
                return Some(Vec::new());
            },
        };
        let cost = Word::from_u64(instruction.gas_cost as u64);
        if self.gas.lt(&cost) {
            self.halt = Halt::OutOfGas;
            return Some(oog_message());
        }
        proof {
            crate::word::lemma_word_view_bound(self.gas);
        }
        self.gas = self.gas.wrapping_sub(&cost);
        proof {
            lemma_zero_gas_halts(op);
        }
        if 0x60 <= op && op <= 0x7F {
            // A push: read the inline operand, zero-padded past the code's
            // end, and step the counter over it.
            let n = instruction.operands;
            let base = self.pc;
            let mut buf: Vec<u8> = Vec::new();
            let mut i: usize = 0;
            while i < 32 - n
                invariant
                    n <= 32,
                    i <= 32 - n,
                    buf@.len() == i,
                    forall|u: int| 0 <= u < i ==> buf@[u] == 0,
                decreases 32 - n - i,
            {
                buf.push(0);
                i = i + 1;
            }
            let mut j: usize = 0;
            while j < n
                invariant
                    n <= 32,
                    j <= n,
                    buf@.len() == 32 - n + j,
                    forall|u: int| 0 <= u < 32 - n ==> buf@[u] == 0,
                    code_len == self.ctx.code@.len(),
                    base == self.pc,
                    forall|u: int|
                        0 <= u < j ==> buf@[32 - n + u] == mem_read(
                            self.ctx.code@,
                            base as int,
                            u,
                        ),
                decreases n - j,
            {
                let b: u8 = if self.pc < code_len && j < code_len - self.pc {
                    self.ctx.code[self.pc + j]
                } else {
                    0
                };
                buf.push(b);
                j = j + 1;
            }
            let value = Word::from_be_bytes(&buf);
            proof {
                crate::word::lemma_be_nat_split(buf@, (32 - n) as int);
                crate::utils::lemma_be_nat_zeros(buf@.subrange(0, (32 - n) as int));
                assert(buf@.subrange((32 - n) as int, 32) =~= mem_slice(
                    self.ctx.code@,
                    base as nat,
                    n as nat,
                ));
            }
            self.stack_push(value);
            if !matches!(self.halt, Halt::Running) {
                return Some(Vec::new());
            }
            if n <= code_len && self.pc <= code_len - n {
                self.pc = self.pc + n;
            } else {
                self.pc = code_len;
            }
            proof {
                let pre = *old(self);
                let op_g = pre.ctx.code@[pre.pc as int];
                assert(self.stack@.drop_last() =~= old(self).stack@);
                assert(op_g == op);
                assert(crate::instructions::operands_of(op_g) == n);
                assert(self.stack@.last()@ == be_nat(
                    mem_slice(
                        pre.ctx.code@,
                        (pre.pc + 1) as nat,
                        crate::instructions::operands_of(op_g) as nat,
                    ),
                ));
                assert(self.pc == (if pre.pc + 1 + crate::instructions::operands_of(op_g)
                    <= pre.ctx.code@.len() {
                    pre.pc + 1 + crate::instructions::operands_of(op_g)
                } else {
                    pre.ctx.code@.len() as int
                }));
                assert(step_rel(*old(self), *old(chain), *self, *chain, None));
            }
            return None;
        }
        proof {
            crate::word::lemma_word_of_view(self.gas);
            assert(*self == charged_frame(
                *old(self),
                crate::instructions::gas_of(op) as nat,
            ));
        }
        let dispatched = self.dispatch(chain, op);
        if !matches!(self.halt, Halt::Running) {
            return Some(dispatched);
        }
        proof {
            assert(dispatch_post(
                op,
                charged_frame(*old(self), crate::instructions::gas_of(op) as nat),
                *self,
                *old(chain),
                *chain,
                dispatched@,
            ));
        }
        None
    }

    /// Drive the frame to completion: fetch, decode, charge gas, dispatch,
    /// until the frame halts or the program counter runs off the code.
    ///
    /// The result is the success flag (stopped or returned) and the frame's
    /// output bytes: the returned or reverted memory region, a diagnostic
    /// message for out-of-gas and bad jumps, and empty bytes otherwise.
    /// Remaining gas never increases, memory never shrinks, and the block
    /// headers are never written. The contract further fixes the outcome
    /// whenever the first fetch already halts the frame: a counter past the
    /// code's end stops it cleanly, an unknown byte is an invalid opcode
    /// that consumes all gas, and an unaffordable first charge is an
    /// out-of-gas failure, each leaving the rest of the frame and the world
    /// untouched.
    ///
    /// Above all, the whole run is a chain of exactly-specified single
    /// steps: `runs_to` relates the initial frame and world to the final
    /// ones and the output through the closure of the one-step relation
    /// `step_rel`, so the outcome of a program is pinned down to the
    /// precision of that relation.
    pub fn run(&mut self, chain: &mut BlockChain) -> (r: (bool, Vec<u8>))
        requires
            old(self).halt == Halt::Running,
            old(self).wf(),
        ensures
            final(self).wf(),
            EVM::keeps_env(*old(self), *final(self)),
            final(self).halt != Halt::Running,
            r.0 == is_success(final(self).halt),
            final(self).gas@ <= old(self).gas@,
            final(self).memory@.len() >= old(self).memory@.len(),
            final(chain).blocks@ == old(chain).blocks@,
            final(self).halt == Halt::OutOfGas ==> r.1@ == oog_bytes(),
            final(self).halt == Halt::BadJump ==> r.1@ == bad_jump_bytes(),
            final(self).halt == Halt::Stopped || final(self).halt == Halt::InvalidOpcode
                || final(self).halt == Halt::StackUnderflow || final(self).halt
                == Halt::StackOverflow || final(self).halt == Halt::StaticViolation || final(self).halt == Halt::OutOfBounds ==> r.1@.len() == 0,
            old(self).pc >= old(self).ctx.code@.len() ==> final(self).halt == Halt::Stopped
                && r.0 && r.1@.len() == 0 && final(self).stack@ == old(self).stack@ && final(self).memory@ == old(self).memory@ && final(self).gas == old(self).gas
                && chain_unchanged(*old(chain), *final(chain)),
            old(self).pc < old(self).ctx.code@.len() && !is_defined(
                old(self).ctx.code@[old(self).pc as int],
            ) ==> final(self).halt == Halt::InvalidOpcode && !r.0 && r.1@.len() == 0 && final(self).gas@ == 0 && final(self).stack@ == old(self).stack@ && final(self).memory@
                == old(self).memory@ && chain_unchanged(*old(chain), *final(chain)),
            old(self).pc < old(self).ctx.code@.len() && is_defined(
                old(self).ctx.code@[old(self).pc as int],
            ) && old(self).gas@ < crate::instructions::gas_of(
                old(self).ctx.code@[old(self).pc as int],
            ) ==> final(self).halt == Halt::OutOfGas && !r.0 && r.1@ == oog_bytes() && final(self).gas == old(self).gas && final(self).stack@ == old(self).stack@ && final(self).memory@ == old(self).memory@ && chain_unchanged(*old(chain), *final(chain)),
            runs_to(*old(self), *old(chain), *final(self), *final(chain), r.1@),
        decreases 1024 - self.depth, 4int,
    {
        match self.step(chain) {
            Some(first) => {
                proof {
                    lemma_steps_to_refl(*old(self), *old(chain));
                    lemma_runs_to_compose(
                        *old(self),
                        *old(chain),
                        *old(self),
                        *old(chain),
                        *self,
                        *chain,
                        first@,
                    );
                }
                let success = matches!(self.halt, Halt::Stopped) || matches!(
                    self.halt,
                    Halt::Returned,
                );
                return (success, first);
            },
            None => {},
        }
        proof {
            lemma_steps_to_refl(*old(self), *old(chain));
            lemma_steps_to_extend(
                *old(self),
                *old(chain),
                *old(self),
                *old(chain),
                *self,
                *chain,
            );
        }
        let mut out: Vec<u8> = Vec::new();
        loop
            invariant_except_break
                out@.len() == 0,
                self.halt == Halt::Running,
                chain.blocks@ == old(chain).blocks@,
                steps_to(*old(self), *old(chain), *self, *chain),
                self.wf(),
                self.depth == old(self).depth,
                self.ctx == old(self).ctx,
                self.is_static == old(self).is_static,
                self.gas@ <= old(self).gas@,
                self.memory@.len() >= old(self).memory@.len(),
                self.depth <= 1024,
            ensures
                self.wf(),
                self.depth == old(self).depth,
                self.ctx == old(self).ctx,
                self.is_static == old(self).is_static,
                self.gas@ <= old(self).gas@,
                self.memory@.len() >= old(self).memory@.len(),
                chain.blocks@ == old(chain).blocks@,
                self.halt != Halt::Running,
                runs_to(*old(self), *old(chain), *self, *chain, out@),
                self.halt == Halt::OutOfGas ==> out@ == oog_bytes(),
                self.halt == Halt::BadJump ==> out@ == bad_jump_bytes(),
                self.halt == Halt::Stopped || self.halt == Halt::InvalidOpcode || self.halt
                    == Halt::StackUnderflow || self.halt == Halt::StackOverflow || self.halt
                    == Halt::StaticViolation || self.halt == Halt::OutOfBounds ==> out@.len()
                    == 0,
            decreases self.gas@,
        {
            let ghost prev = *self;
            let ghost prev_chain = *chain;
            match self.step(chain) {
                Some(halted) => {
                    proof {
                        lemma_runs_to_compose(
                            *old(self),
                            *old(chain),
                            prev,
                            prev_chain,
                            *self,
                            *chain,
                            halted@,
                        );
                    }
                    out = halted;
                    break ;
                },
                None => {
                    proof {
                        lemma_steps_to_extend(
                            *old(self),
                            *old(chain),
                            prev,
                            prev_chain,
                            *self,
                            *chain,
                        );
                    }
                },
            }
        }
        let success = matches!(self.halt, Halt::Stopped) || matches!(
            self.halt,
            Halt::Returned,
        );
        (success, out)
    }
}


} // verus!