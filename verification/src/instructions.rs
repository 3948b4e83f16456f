//! The instruction table: opcode byte to mnemonic, fixed gas cost and
//! inline-operand length. Operand length is nonzero only for the push
//! opcodes (`0x60`..`0x7F`). Bytes missing from the table are invalid
//! opcodes.

use vstd::prelude::*;

verus! {

/// One table entry: mnemonic, fixed gas cost, inline-operand length.
pub struct Instruction {
    pub name: &'static str,
    pub gas_cost: u32,
    pub operands: usize,
}

impl Instruction {
    /// A table entry with the given fields.
    pub fn new(name: &'static str, gas_cost: u32, operands: usize) -> (r: Instruction)
        ensures
            r.name@ == name@,
            r.gas_cost == gas_cost,
            r.operands == operands,
    {
        Instruction { name, gas_cost, operands }
    }
}

/// Whether the opcode byte is in the instruction table.
pub open spec fn is_defined(op: u8) -> bool {
    (0x00 <= op <= 0x0B) || (0x10 <= op <= 0x1D) || op == 0x20 || (0x30 <= op <= 0x48) || (
    0x50 <= op <= 0x5B) || (0x5F <= op <= 0xA4) || op == 0xF0 || op == 0xF1 || op == 0xF2
        || op == 0xF3 || op == 0xF4 || op == 0xF5 || op == 0xFA || op == 0xFD || op == 0xFE
        || op == 0xFF
}

/// The fixed gas cost of a defined opcode.
pub open spec fn gas_of(op: u8) -> u32 {
    if op == 0x00 {
        0
    } else if op == 0x01 || op == 0x03 {
        3
    } else if 0x04 <= op <= 0x07 || op == 0x02 || op == 0x0B {
        5
    } else if op == 0x08 || op == 0x09 {
        8
    } else if op == 0x0A {
        10
    } else if 0x10 <= op <= 0x1D {
        3
    } else if op == 0x20 {
        30
    } else if op == 0x31 || op == 0x3B || op == 0x3C || op == 0x3F || op == 0x54 || op
        == 0x55 {
        100
    } else if op == 0x35 || op == 0x37 || op == 0x39 || op == 0x3E {
        3
    } else if 0x30 <= op <= 0x3D {
        2
    } else if op == 0x40 {
        20
    } else if op == 0x47 {
        5
    } else if 0x41 <= op <= 0x48 {
        2
    } else if op == 0x50 {
        2
    } else if 0x51 <= op <= 0x53 {
        3
    } else if op == 0x56 {
        8
    } else if op == 0x57 {
        10
    } else if 0x58 <= op <= 0x5A {
        2
    } else if op == 0x5B {
        1
    } else if op == 0x5F {
        2
    } else if 0x60 <= op <= 0x9F {
        3
    } else if op == 0xA0 {
        375
    } else if op == 0xA1 {
        750
    } else if op == 0xA2 {
        1125
    } else if op == 0xA3 {
        1500
    } else if op == 0xA4 {
        1875
    } else if op == 0xF0 || op == 0xF5 {
        32000
    } else if op == 0xF1 || op == 0xF2 || op == 0xF4 || op == 0xFA {
        100
    } else if op == 0xFF {
        5000
    } else {
        // RETURN, REVERT and INVALID are free.
        0
    }
}

/// The inline-operand length of a defined opcode: `1..32` for the push
/// opcodes, zero otherwise.
pub open spec fn operands_of(op: u8) -> usize {
    if 0x60 <= op <= 0x7F {
        (op - 0x5F) as usize
    } else {
        0
    }
}

/// A defined opcode with zero gas cost always halts the frame: it is STOP,
/// RETURN, REVERT or INVALID.
pub proof fn lemma_zero_gas_halts(op: u8)
    ensures
        is_defined(op) && gas_of(op) == 0 ==> op == 0x00 || op == 0xF3 || op == 0xFD || op
            == 0xFE,
{
}

/// The table lookup: the entry for a defined opcode, `None` for an invalid
/// byte.
pub fn lookup(op: u8) -> (r: Option<Instruction>)
    ensures
        r is Some <==> is_defined(op),
        r matches Some(instr) ==> instr.gas_cost == gas_of(op) && instr.operands
            == operands_of(op),
{
    let r = match op {
        0x00 => Some(Instruction::new("STOP", 0, 0)),
        0x01 => Some(Instruction::new("ADD", 3, 0)),
        0x02 => Some(Instruction::new("MUL", 5, 0)),
        0x03 => Some(Instruction::new("SUB", 3, 0)),
        0x04 => Some(Instruction::new("DIV", 5, 0)),
        0x05 => Some(Instruction::new("SDIV", 5, 0)),
        0x06 => Some(Instruction::new("MOD", 5, 0)),
        0x07 => Some(Instruction::new("SMOD", 5, 0)),
        0x08 => Some(Instruction::new("ADDMOD", 8, 0)),
        0x09 => Some(Instruction::new("MULMOD", 8, 0)),
        0x0A => Some(Instruction::new("EXP", 10, 0)),
        0x0B => Some(Instruction::new("SIGNEXTEND", 5, 0)),
        0x10 => Some(Instruction::new("LT", 3, 0)),
        0x11 => Some(Instruction::new("GT", 3, 0)),
        0x12 => Some(Instruction::new("SLT", 3, 0)),
        0x13 => Some(Instruction::new("SGT", 3, 0)),
        0x14 => Some(Instruction::new("EQ", 3, 0)),
        0x15 => Some(Instruction::new("ISZERO", 3, 0)),
        0x16 => Some(Instruction::new("AND", 3, 0)),
        0x17 => Some(Instruction::new("OR", 3, 0)),
        0x18 => Some(Instruction::new("XOR", 3, 0)),
        0x19 => Some(Instruction::new("NOT", 3, 0)),
        0x1A => Some(Instruction::new("BYTE", 3, 0)),
        0x1B => Some(Instruction::new("SHL", 3, 0)),
        0x1C => Some(Instruction::new("SHR", 3, 0)),
        0x1D => Some(Instruction::new("SAR", 3, 0)),
        0x20 => Some(Instruction::new("SHA3", 30, 0)),
        0x30 => Some(Instruction::new("ADDRESS", 2, 0)),
        0x31 => Some(Instruction::new("BALANCE", 100, 0)),
        0x32 => Some(Instruction::new("ORIGIN", 2, 0)),
        0x33 => Some(Instruction::new("CALLER", 2, 0)),
        0x34 => Some(Instruction::new("CALLVALUE", 2, 0)),
        0x35 => Some(Instruction::new("CALLDATALOAD", 3, 0)),
        0x36 => Some(Instruction::new("CALLDATASIZE", 2, 0)),
        0x37 => Some(Instruction::new("CALLDATACOPY", 3, 0)),
        0x38 => Some(Instruction::new("CODESIZE", 2, 0)),
        0x39 => Some(Instruction::new("CODECOPY", 3, 0)),
        0x3A => Some(Instruction::new("GASPRICE", 2, 0)),
        0x3B => Some(Instruction::new("EXTCODESIZE", 100, 0)),
        0x3C => Some(Instruction::new("EXTCODECOPY", 100, 0)),
        0x3D => Some(Instruction::new("RETURNDATASIZE", 2, 0)),
        0x3E => Some(Instruction::new("RETURNDATACOPY", 3, 0)),
        0x3F => Some(Instruction::new("EXTCODEHASH", 100, 0)),
        0x40 => Some(Instruction::new("BLOCKHASH", 20, 0)),
        0x41 => Some(Instruction::new("COINBASE", 2, 0)),
        0x42 => Some(Instruction::new("TIMESTAMP", 2, 0)),
        0x43 => Some(Instruction::new("NUMBER", 2, 0)),
        0x44 => Some(Instruction::new("DIFFICULTY", 2, 0)),
        0x45 => Some(Instruction::new("GASLIMIT", 2, 0)),
        0x46 => Some(Instruction::new("CHAINID", 2, 0)),
        0x47 => Some(Instruction::new("SELFBALANCE", 5, 0)),
        0x48 => Some(Instruction::new("BASEFEE", 2, 0)),
        0x50 => Some(Instruction::new("POP", 2, 0)),
        0x51 => Some(Instruction::new("MLOAD", 3, 0)),
        0x52 => Some(Instruction::new("MSTORE", 3, 0)),
        0x53 => Some(Instruction::new("MSTORE8", 3, 0)),
        0x54 => Some(Instruction::new("SLOAD", 100, 0)),
        0x55 => Some(Instruction::new("SSTORE", 100, 0)),
        0x56 => Some(Instruction::new("JUMP", 8, 0)),
        0x57 => Some(Instruction::new("JUMPI", 10, 0)),
        0x58 => Some(Instruction::new("PC", 2, 0)),
        0x59 => Some(Instruction::new("MSIZE", 2, 0)),
        0x5A => Some(Instruction::new("GAS", 2, 0)),
        0x5B => Some(Instruction::new("JUMPDEST", 1, 0)),
        0x5F => Some(Instruction::new("PUSH0", 2, 0)),
        0x60..=0x7F => Some(Instruction::new("PUSH", 3, (op - 0x5F) as usize)),
        0x80..=0x8F => Some(Instruction::new("DUP", 3, 0)),
        0x90..=0x9F => Some(Instruction::new("SWAP", 3, 0)),
        0xA0 => Some(Instruction::new("LOG0", 375, 0)),
        0xA1 => Some(Instruction::new("LOG1", 750, 0)),
        0xA2 => Some(Instruction::new("LOG2", 1125, 0)),
        0xA3 => Some(Instruction::new("LOG3", 1500, 0)),
        0xA4 => Some(Instruction::new("LOG4", 1875, 0)),
        0xF0 => Some(Instruction::new("CREATE", 32000, 0)),
        0xF1 => Some(Instruction::new("CALL", 100, 0)),
        0xF2 => Some(Instruction::new("CALLCODE", 100, 0)),
        0xF3 => Some(Instruction::new("RETURN", 0, 0)),
        0xF4 => Some(Instruction::new("DELEGATECALL", 100, 0)),
        0xF5 => Some(Instruction::new("CREATE2", 32000, 0)),
        0xFA => Some(Instruction::new("STATICCALL", 100, 0)),
        0xFD => Some(Instruction::new("REVERT", 0, 0)),
        0xFE => Some(Instruction::new("INVALID", 0, 0)),
        0xFF => Some(Instruction::new("SELFDESTRUCT", 5000, 0)),
        _ => None,
    };
    r
}

} // verus!
