//! Immutable per-frame call descriptors: the transaction envelope, the
//! message, and the execution context.

use vstd::prelude::*;

use crate::word::Word;

verus! {

/// The transaction envelope, constant across the whole call tree.
#[derive(Clone, Copy)]
pub struct TX {
    pub origin: Word,
    pub gasprice: Word,
}

impl TX {
    /// A transaction envelope with the given origin and gas price.
    pub fn new(origin: Word, gasprice: Word) -> (r: TX)
        ensures
            r.origin == origin,
            r.gasprice == gasprice,
    {
        TX { origin, gasprice }
    }
}

/// The message of one frame: caller, callee, call data, value and gas
/// budget.
pub struct MSG {
    pub from: Word,
    pub to: Word,
    pub calldata: Vec<u8>,
    pub value: Word,
    pub gas: Word,
}

impl MSG {
    /// A message with the given fields.
    pub fn new(from: Word, to: Word, calldata: Vec<u8>, value: Word, gas: Word) -> (r: MSG)
        ensures
            r.from == from,
            r.to == to,
            r.calldata@ == calldata@,
            r.value == value,
            r.gas == gas,
    {
        MSG { from, to, calldata, value, gas }
    }
}

/// The immutable context of one frame: the transaction, the message, the
/// account whose storage applies, and the code being executed.
pub struct CTX {
    pub tx: TX,
    pub msg: MSG,
    pub address: Word,
    pub code: Vec<u8>,
}

impl CTX {
    /// A context with the given fields.
    pub fn new(tx: TX, msg: MSG, address: Word, code: Vec<u8>) -> (r: CTX)
        ensures
            r.tx == tx,
            r.msg.from == msg.from,
            r.msg.to == msg.to,
            r.msg.calldata@ == msg.calldata@,
            r.msg.value == msg.value,
            r.msg.gas == msg.gas,
            r.address == address,
            r.code@ == code@,
    {
        CTX { tx, msg, address, code }
    }
}

} // verus!
