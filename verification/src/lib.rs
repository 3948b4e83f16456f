//! A verified interpreter for the stack-based virtual machine of a public
//! smart-contract blockchain: 256-bit word arithmetic, the instruction
//! table, the world state, the fetch-decode-charge-dispatch loop, nested
//! calls and contract creation with its RLP/Keccak address derivation.

pub mod arith;
pub mod blockchain;
pub mod context;
pub mod evm;
pub mod instructions;
pub mod interp;
pub mod ops;
pub mod utils;
pub mod word;
