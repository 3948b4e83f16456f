//! The interpreter frame: program counter, stack, memory, last returndata,
//! remaining gas and halt status, with the stack and memory primitives the
//! opcode handlers build on.

use vstd::prelude::*;

use crate::context::CTX;
use crate::word::Word;

verus! {

/// How a frame has halted, if it has. Exceptional kinds carry the error
/// taxonomy: out of gas, a bad jump target, an invalid opcode, a stack
/// fault, a state-changing opcode under a static call, or an out-of-range
/// buffer access.
#[derive(Clone, Copy, PartialEq, Eq, Structural, Debug)]
pub enum Halt {
    Running,
    Stopped,
    Returned,
    Reverted,
    OutOfGas,
    BadJump,
    InvalidOpcode,
    StackUnderflow,
    StackOverflow,
    StaticViolation,
    OutOfBounds,
}

/// Whether a halted frame counts as successful.
pub open spec fn is_success(h: Halt) -> bool {
    h == Halt::Stopped || h == Halt::Returned
}

/// The greatest stack depth a frame may reach.
pub open spec fn stack_limit() -> nat {
    1024
}

/// The greatest call depth the interpreter recurses to.
pub open spec fn depth_limit() -> nat {
    1024
}

/// One call frame of the virtual machine.
pub struct EVM {
    pub pc: usize,
    pub stack: Vec<Word>,
    pub memory: Vec<u8>,
    pub returndata: Vec<u8>,
    pub ctx: CTX,
    pub gas: Word,
    pub halt: Halt,
    pub depth: usize,
    pub is_static: bool,
}

/// The view of the stack slot `k` places below the top.
pub open spec fn peek(s: Seq<Word>, k: int) -> nat {
    s[s.len() - 1 - k]@
}

/// The new stack pops `n` operands off the old one and pushes one word
/// holding `v`.
pub open spec fn stack_replace(pre: Seq<Word>, n: int, post: Seq<Word>, v: nat) -> bool {
    &&& post.len() == pre.len() - n + 1
    &&& post.subrange(0, post.len() - 1) == pre.subrange(0, pre.len() - n)
    &&& post.last()@ == v
}

/// The new stack pops `n` operands off the old one and pushes nothing.
pub open spec fn stack_drop(pre: Seq<Word>, n: int, post: Seq<Word>) -> bool {
    post == pre.subrange(0, pre.len() - n)
}

/// The byte at offset `off + i` of a memory image, zero when past its end.
pub open spec fn mem_read(m: Seq<u8>, off: int, i: int) -> u8 {
    if off + i < m.len() {
        m[off + i]
    } else {
        0
    }
}

/// A word offset saturated to the machine's address range.
pub open spec fn sat_usize(v: nat) -> nat {
    if v <= usize::MAX {
        v
    } else {
        usize::MAX as nat
    }
}

impl EVM {
    /// Frame well-formedness: the stack and the call depth respect their
    /// limits.
    pub open spec fn wf(self) -> bool {
        self.stack@.len() <= stack_limit() && self.depth <= depth_limit()
    }

    /// The fields a plain (non-call) opcode can never touch.
    pub open spec fn keeps_env(pre: EVM, post: EVM) -> bool {
        post.ctx == pre.ctx && post.depth == pre.depth && post.is_static == pre.is_static
    }

    /// A frame that has just failed on a stack fault: the offending kind is
    /// set and all gas is consumed.
    pub open spec fn stack_fault(self) -> bool {
        (self.halt == Halt::StackUnderflow || self.halt == Halt::StackOverflow) && self.gas@
            == 0
    }

    /// A fresh top-level frame for the given context: counters and buffers
    /// empty, gas drawn from the message, not static.
    pub fn new(ctx: CTX) -> (r: EVM)
        ensures
            r.pc == 0,
            r.stack@.len() == 0,
            r.memory@.len() == 0,
            r.returndata@.len() == 0,
            r.gas == ctx.msg.gas,
            r.halt == Halt::Running,
            r.depth == 0,
            r.is_static == false,
            r.ctx == ctx,
            r.wf(),
    {
        let gas = ctx.msg.gas;
        EVM {
            pc: 0,
            stack: Vec::new(),
            memory: Vec::new(),
            returndata: Vec::new(),
            ctx,
            gas,
            halt: Halt::Running,
            depth: 0,
            is_static: false,
        }
    }

    /// A child frame at the given call depth and static flag.
    pub fn new_frame(ctx: CTX, depth: usize, is_static: bool) -> (r: EVM)
        requires
            depth <= depth_limit(),
        ensures
            r.pc == 0,
            r.stack@.len() == 0,
            r.memory@.len() == 0,
            r.returndata@.len() == 0,
            r.gas == ctx.msg.gas,
            r.halt == Halt::Running,
            r.depth == depth,
            r.is_static == is_static,
            r.ctx == ctx,
            r.wf(),
    {
        let gas = ctx.msg.gas;
        EVM {
            pc: 0,
            stack: Vec::new(),
            memory: Vec::new(),
            returndata: Vec::new(),
            ctx,
            gas,
            halt: Halt::Running,
            depth,
            is_static,
        }
    }

    /// Pop the top of the stack; an empty stack halts the frame with a
    /// stack underflow and consumes all gas.
    pub(crate) fn stack_pop(&mut self) -> (r: Option<Word>)
        ensures
            EVM::keeps_env(*old(self), *final(self)),
            final(self).pc == old(self).pc,
            final(self).memory@ == old(self).memory@,
            final(self).returndata@ == old(self).returndata@,
            old(self).stack@.len() > 0 ==> r == Some(old(self).stack@.last())
                && final(self).stack@ == old(self).stack@.drop_last() && final(self).halt
                == old(self).halt && final(self).gas == old(self).gas,
            old(self).stack@.len() == 0 ==> r is None && final(self).stack@ == old(
                self,
            ).stack@ && final(self).halt == Halt::StackUnderflow && final(self).gas@ == 0,
    {
        match self.stack.pop() {
            Some(w) => Some(w),
            None => {
                self.halt = Halt::StackUnderflow;
                self.gas = Word::zero();
                None
            },
        }
    }

    /// Push a word; a full stack halts the frame with a stack overflow and
    /// consumes all gas.
    pub(crate) fn stack_push(&mut self, value: Word) -> (r: bool)
        ensures
            EVM::keeps_env(*old(self), *final(self)),
            final(self).pc == old(self).pc,
            final(self).memory@ == old(self).memory@,
            final(self).returndata@ == old(self).returndata@,
            old(self).stack@.len() < stack_limit() ==> r && final(self).stack@ == old(
                self,
            ).stack@.push(value) && final(self).halt == old(self).halt && final(self).gas
                == old(self).gas,
            old(self).stack@.len() >= stack_limit() ==> !r && final(self).stack@ == old(
                self,
            ).stack@ && final(self).halt == Halt::StackOverflow && final(self).gas@ == 0,
    {
        if self.stack.len() < 1024 {
            self.stack.push(value);
            true
        } else {
            self.halt = Halt::StackOverflow;
            self.gas = Word::zero();
            false
        }
    }

    /// Grow memory with zero bytes so that it covers at least `end` bytes.
    pub fn memory_extend(&mut self, end: usize)
        ensures
            EVM::keeps_env(*old(self), *final(self)),
            final(self).pc == old(self).pc,
            final(self).stack@ == old(self).stack@,
            final(self).returndata@ == old(self).returndata@,
            final(self).halt == old(self).halt,
            final(self).gas == old(self).gas,
            final(self).memory@.len() == if old(self).memory@.len() >= end {
                old(self).memory@.len()
            } else {
                end as nat
            },
            forall|i: int|
                0 <= i < old(self).memory@.len() ==> final(self).memory@[i] == old(
                    self,
                ).memory@[i],
            forall|i: int|
                old(self).memory@.len() <= i < final(self).memory@.len() ==> final(self).memory@[i] == 0,
    {
        while self.memory.len() < end
            invariant
                old(self).memory@.len() <= self.memory@.len(),
                self.memory@.len() <= vstd::math::max(old(self).memory@.len() as int, end as int),
                forall|i: int|
                    0 <= i < old(self).memory@.len() ==> self.memory@[i] == old(
                        self,
                    ).memory@[i],
                forall|i: int|
                    old(self).memory@.len() <= i < self.memory@.len() ==> self.memory@[i]
                        == 0,
                self.pc == old(self).pc,
                self.stack@ == old(self).stack@,
                self.returndata@ == old(self).returndata@,
                self.halt == old(self).halt,
                self.gas == old(self).gas,
                self.ctx == old(self).ctx,
                self.depth == old(self).depth,
                self.is_static == old(self).is_static,
            decreases end - self.memory@.len(),
        {
            self.memory.push(0);
        }
    }

    /// Read `size` bytes of memory at `offset`, zero-extending memory up to
    /// `offset + size` first; bytes past the old length read as zero.
    pub fn memory_load(&mut self, offset: usize, size: usize) -> (r: Vec<u8>)
        requires
            offset + size <= usize::MAX,
        ensures
            EVM::keeps_env(*old(self), *final(self)),
            final(self).pc == old(self).pc,
            final(self).stack@ == old(self).stack@,
            final(self).returndata@ == old(self).returndata@,
            final(self).halt == old(self).halt,
            final(self).gas == old(self).gas,
            final(self).memory@.len() == vstd::math::max(
                old(self).memory@.len() as int,
                offset + size,
            ),
            forall|i: int|
                0 <= i < old(self).memory@.len() ==> final(self).memory@[i] == old(
                    self,
                ).memory@[i],
            forall|i: int|
                old(self).memory@.len() <= i < final(self).memory@.len() ==> final(self).memory@[i] == 0,
            r@.len() == size,
            forall|i: int| 0 <= i < size ==> r@[i] == mem_read(old(self).memory@, offset as int, i),
    {
        self.memory_extend(offset + size);
        let mut out: Vec<u8> = Vec::new();
        let mut i: usize = 0;
        while i < size
            invariant
                offset + size <= usize::MAX,
                offset + size <= self.memory@.len(),
                i <= size,
                out@.len() == i,
                forall|j: int| 0 <= j < i ==> out@[j] == self.memory@[offset + j],
            decreases size - i,
        {
            out.push(self.memory[offset + i]);
            i = i + 1;
        }
        out
    }

    /// Write `data` into memory at `offset`, zero-extending memory up to
    /// the end of the write first.
    pub fn memory_store(&mut self, offset: usize, data: &Vec<u8>)
        requires
            offset + data@.len() <= usize::MAX,
        ensures
            EVM::keeps_env(*old(self), *final(self)),
            final(self).pc == old(self).pc,
            final(self).stack@ == old(self).stack@,
            final(self).returndata@ == old(self).returndata@,
            final(self).halt == old(self).halt,
            final(self).gas == old(self).gas,
            final(self).memory@.len() == vstd::math::max(
                old(self).memory@.len() as int,
                offset + data@.len(),
            ),
            forall|i: int|
                0 <= i < data@.len() ==> final(self).memory@[offset + i] == data@[i],
            forall|i: int|
                0 <= i < final(self).memory@.len() && !(offset <= i < offset + data@.len())
                    ==> final(self).memory@[i] == mem_read(old(self).memory@, 0, i),
    {
        self.memory_extend(offset + data.len());
        let mut i: usize = 0;
        while i < data.len()
            invariant
                offset + data@.len() <= usize::MAX,
                offset + data@.len() <= self.memory@.len(),
                i <= data@.len(),
                EVM::keeps_env(*old(self), *self),
                self.pc == old(self).pc,
                self.stack@ == old(self).stack@,
                self.returndata@ == old(self).returndata@,
                self.halt == old(self).halt,
                self.gas == old(self).gas,
                self.memory@.len() == vstd::math::max(
                    old(self).memory@.len() as int,
                    offset + data@.len(),
                ),
                forall|j: int| 0 <= j < i ==> self.memory@[offset + j] == data@[j],
                forall|j: int|
                    0 <= j < self.memory@.len() && !(offset <= j < offset + i) ==> self
                        .memory@[j] == mem_read(old(self).memory@, 0, j),
            decreases data@.len() - i,
        {
            self.memory[offset + i] = data[i];
            i = i + 1;
        }
    }
}

} // verus!
