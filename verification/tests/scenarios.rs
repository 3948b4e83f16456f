//! End-to-end runs of small programs through the interpreter.

use evmcore::blockchain::BlockChain;
use evmcore::context::{CTX, MSG, TX};
use evmcore::evm::{Halt, EVM};
use evmcore::word::Word;

const GAS_BUDGET: u64 = 10_000_000;

fn run_with(code_hex: &str, callvalue: u64, gas: u64) -> (bool, Vec<u8>, EVM, BlockChain) {
    let bytecode = hex::decode(code_hex).unwrap();
    let mut chain = BlockChain::new();
    let tx = TX::new(Word::from_u64(0x41414141), Word::from_u64(1000));
    let msg = MSG::new(
        Word::from_u64(0x41414141),
        Word::from_u64(0x42424242),
        Vec::new(),
        Word::from_u64(callvalue),
        Word::from_u64(gas),
    );
    let ctx = CTX::new(tx, msg, Word::from_u64(0x42424242), bytecode);
    let mut vm = EVM::new(ctx);
    let (ok, data) = vm.run(&mut chain);
    (ok, data, vm, chain)
}

fn run_code(code_hex: &str, callvalue: u64) -> (bool, Vec<u8>, EVM, BlockChain) {
    run_with(code_hex, callvalue, GAS_BUDGET)
}

#[test]
fn returns_stored_word() {
    let (ok, data, vm, _) = run_code("604260005260206000F3", 0);
    assert!(ok);
    assert!(matches!(vm.halt, Halt::Returned));
    let mut expected = vec![0u8; 32];
    expected[31] = 0x42;
    assert_eq!(data, expected);
}

#[test]
fn jump_on_callvalue_eight_succeeds() {
    let (ok, data, vm, _) = run_code("3456FDFDFDFDFDFD5B00", 8);
    assert!(ok);
    assert!(matches!(vm.halt, Halt::Stopped));
    assert!(data.is_empty());
}

#[test]
fn jump_on_callvalue_seven_is_bad_jump() {
    let (ok, data, vm, _) = run_code("3456FDFDFDFDFDFD5B00", 7);
    assert!(!ok);
    assert!(matches!(vm.halt, Halt::BadJump));
    assert_eq!(data, b"destination is not a JUMPDEST".to_vec());
}

#[test]
fn revert_reports_memory_region() {
    // REVERT pops offset 0 and size 1; memory is zero-extended, so the
    // reverted data is the single zero byte.
    let (ok, data, vm, _) = run_code("60016000FD", 0);
    assert!(!ok);
    assert!(matches!(vm.halt, Halt::Reverted));
    assert_eq!(data, vec![0u8]);
}

#[test]
fn sub_of_equal_operands_and_gas_accounting() {
    let (ok, _, vm, _) = run_code("6005600503", 0);
    assert!(ok);
    assert_eq!(*vm.stack.last().unwrap(), Word::zero());
    assert_eq!(vm.gas, Word::from_u64(GAS_BUDGET - 9));
}

#[test]
fn mstore8_writes_single_byte() {
    let (ok, _, vm, _) = run_code("60FF6000530060005160F8", 0);
    assert!(ok);
    assert!(matches!(vm.halt, Halt::Stopped));
    assert_eq!(vm.memory[0], 0xFF);
}

#[test]
fn mstore8_then_mload_reads_high_byte() {
    // MSTORE8 of 0xFF at offset 0, then MLOAD at offset 0 pushes
    // 0xFF00..00 (the byte sits at the most significant end of the word).
    let (ok, _, vm, _) = run_code("60FF60005360005100", 0);
    assert!(ok);
    let top = *vm.stack.last().unwrap();
    assert_eq!(top, Word::new(0xFF00_0000_0000_0000_0000_0000_0000_0000, 0));
}

#[test]
fn exp_computes_power() {
    // PUSH 3, PUSH 10, EXP: base 10 raised to 3.
    let (ok, _, vm, _) = run_code("6003600A0A", 0);
    assert!(ok);
    assert_eq!(*vm.stack.last().unwrap(), Word::from_u64(1000));
}

#[test]
fn div_by_zero_yields_zero() {
    let (ok, _, vm, _) = run_code("6000600504", 0);
    assert!(ok);
    assert_eq!(*vm.stack.last().unwrap(), Word::zero());
}

#[test]
fn mod_by_zero_yields_zero() {
    let (ok, _, vm, _) = run_code("6000600506", 0);
    assert!(ok);
    assert_eq!(*vm.stack.last().unwrap(), Word::zero());
}

#[test]
fn mulmod_reduces_wide_product() {
    // MULMOD(5, 3, 7) = 15 mod 7 = 1.
    let (ok, _, vm, _) = run_code("60076003600509", 0);
    assert!(ok);
    assert_eq!(*vm.stack.last().unwrap(), Word::from_u64(1));
}

#[test]
fn addmod_with_zero_modulus_yields_zero() {
    let (ok, _, vm, _) = run_code("60006003600508", 0);
    assert!(ok);
    assert_eq!(*vm.stack.last().unwrap(), Word::zero());
}

#[test]
fn sdiv_of_negative_by_positive() {
    // Build -4 as 0 - 4; the stack holds [2, -4], so SDIV pops -4 then 2
    // and pushes -2.
    let (ok, _, vm, _) = run_code("6002600460000305", 0);
    assert!(ok);
    assert_eq!(*vm.stack.last().unwrap(), Word::new(u128::MAX, u128::MAX - 1));
}

#[test]
fn sar_shifts_arithmetically() {
    // Build -8, then SAR by 1 gives -4.
    let (ok, _, vm, _) = run_code("600860000360011D", 0);
    assert!(ok);
    assert_eq!(*vm.stack.last().unwrap(), Word::new(u128::MAX, u128::MAX - 3));
}

#[test]
fn shl_and_shr() {
    // SHL(4, 1) = 16.
    let (ok, _, vm, _) = run_code("600160041B", 0);
    assert!(ok);
    assert_eq!(*vm.stack.last().unwrap(), Word::from_u64(16));
    // SHR(4, 0xF0) = 0x0F.
    let (ok2, _, vm2, _) = run_code("60F060041C", 0);
    assert!(ok2);
    assert_eq!(*vm2.stack.last().unwrap(), Word::from_u64(0x0F));
}

#[test]
fn shr_by_256_or_more_yields_zero() {
    let (ok, _, vm, _) = run_code("60FF6101001C", 0);
    assert!(ok);
    assert_eq!(*vm.stack.last().unwrap(), Word::zero());
}

#[test]
fn byte_extracts_least_significant() {
    let (ok, _, vm, _) = run_code("60FF601F1A", 0);
    assert!(ok);
    assert_eq!(*vm.stack.last().unwrap(), Word::from_u64(0xFF));
}

#[test]
fn signextend_fills_high_bits() {
    let (ok, _, vm, _) = run_code("60FF60000B", 0);
    assert!(ok);
    assert_eq!(*vm.stack.last().unwrap(), Word::new(u128::MAX, u128::MAX));
}

#[test]
fn sstore_then_sload_roundtrips() {
    let (ok, _, vm, chain) = run_code("600560015560015400", 0);
    assert!(ok);
    assert_eq!(*vm.stack.last().unwrap(), Word::from_u64(5));
    let mut chain = chain;
    let account = chain.get_account(&Word::from_u64(0x42424242));
    assert_eq!(account.storage.last().unwrap().1, Word::from_u64(5));
}

#[test]
fn log1_appends_entry() {
    // PUSH topic 0xAA, PUSH size 0, PUSH offset 0, LOG1.
    let (ok, _, _, chain) = run_code("60AA60006000A100", 0);
    assert!(ok);
    assert_eq!(chain.logs.len(), 1);
    assert!(chain.logs[0].data.is_empty());
    assert_eq!(chain.logs[0].topic1, Word::from_u64(0xAA));
    assert_eq!(chain.logs[0].topic2, Word::zero());
}

#[test]
fn add_on_empty_stack_underflows() {
    let (ok, data, vm, _) = run_code("01", 0);
    assert!(!ok);
    assert!(matches!(vm.halt, Halt::StackUnderflow));
    assert!(data.is_empty());
    assert_eq!(vm.gas, Word::zero());
}

#[test]
fn exhausted_gas_reports_out_of_gas() {
    let (ok, data, vm, _) = run_with("6001", 0, 1);
    assert!(!ok);
    assert!(matches!(vm.halt, Halt::OutOfGas));
    assert_eq!(data, b"out of gas".to_vec());
}

#[test]
fn unknown_byte_is_invalid_opcode() {
    let (ok, data, vm, _) = run_code("21", 0);
    assert!(!ok);
    assert!(matches!(vm.halt, Halt::InvalidOpcode));
    assert!(data.is_empty());
    assert_eq!(vm.gas, Word::zero());
}

#[test]
fn explicit_invalid_consumes_gas() {
    let (ok, data, vm, _) = run_code("FE", 0);
    assert!(!ok);
    assert!(matches!(vm.halt, Halt::InvalidOpcode));
    assert!(data.is_empty());
    assert_eq!(vm.gas, Word::zero());
}

#[test]
fn stack_past_limit_overflows() {
    // 1025 PUSH0 opcodes: the last one exceeds the depth limit.
    let code = "5F".repeat(1025);
    let (ok, data, vm, _) = run_code(&code, 0);
    assert!(!ok);
    assert!(matches!(vm.halt, Halt::StackOverflow));
    assert!(data.is_empty());
    assert_eq!(vm.stack.len(), 1024);
}

#[test]
fn mload_at_absurd_offset_is_out_of_range() {
    // MLOAD at an offset beyond the address space cannot extend memory.
    let code = format!("7F{}51", "FF".repeat(32));
    let (ok, data, vm, _) = run_code(&code, 0);
    assert!(!ok);
    assert!(matches!(vm.halt, Halt::OutOfBounds));
    assert!(data.is_empty());
}

#[test]
fn dup_and_swap_rearrange() {
    let (ok, _, vm, _) = run_code("6001600290", 0);
    assert!(ok);
    assert_eq!(vm.stack[0], Word::from_u64(2));
    assert_eq!(vm.stack[1], Word::from_u64(1));
    let (ok2, _, vm2, _) = run_code("6007600380", 0);
    assert!(ok2);
    assert_eq!(vm2.stack.len(), 3);
    assert_eq!(vm2.stack[2], Word::from_u64(3));
}

#[test]
fn push_operand_is_zero_padded_past_code_end() {
    // PUSH2 with only one operand byte available reads it and pads the
    // missing byte with zero.
    let (ok, _, vm, _) = run_code("61FF", 0);
    assert!(ok);
    assert_eq!(*vm.stack.last().unwrap(), Word::from_u64(0xFF00));
}

#[test]
fn identical_runs_are_identical() {
    let code = "604260005260206000F3";
    let (ok1, data1, vm1, _) = run_code(code, 0);
    let (ok2, data2, vm2, _) = run_code(code, 0);
    assert_eq!(ok1, ok2);
    assert_eq!(data1, data2);
    assert_eq!(vm1.stack, vm2.stack);
    assert_eq!(vm1.memory, vm2.memory);
    assert_eq!(vm1.gas, vm2.gas);
}

#[test]
fn calldataload_zero_pads_past_end() {
    let mut chain = BlockChain::new();
    let tx = TX::new(Word::from_u64(0x41414141), Word::from_u64(1000));
    let msg = MSG::new(
        Word::from_u64(0x41414141),
        Word::from_u64(0x42424242),
        hex::decode("FFFFFF").unwrap(),
        Word::zero(),
        Word::from_u64(GAS_BUDGET),
    );
    let ctx = CTX::new(
        tx,
        msg,
        Word::from_u64(0x42424242),
        hex::decode("60003500").unwrap(),
    );
    let mut vm = EVM::new(ctx);
    let (ok, _) = vm.run(&mut chain);
    assert!(ok);
    assert_eq!(
        *vm.stack.last().unwrap(),
        Word::new(0xFFFF_FF00_0000_0000_0000_0000_0000_0000, 0)
    );
}

#[test]
fn codecopy_writes_code_into_memory() {
    let (ok, _, vm, _) = run_code("6004600060003900", 0);
    assert!(ok);
    assert_eq!(&vm.memory[0..4], &[0x60, 0x04, 0x60, 0x00]);
}

#[test]
fn block_info_reads_latest_header() {
    let mut chain = BlockChain::new();
    chain.blocks.push(evmcore::blockchain::Block {
        blockhash: Word::from_u64(0x1111),
        coinbase: Word::from_u64(0x2222),
        timestamp: Word::from_u64(0x3333),
        number: Word::from_u64(0x4444),
        difficulty: Word::from_u64(0x5555),
        gaslimit: Word::from_u64(0x6666),
        chainid: Word::from_u64(0x7777),
        basefee: Word::from_u64(0x8888),
    });
    let tx = TX::new(Word::from_u64(0x41414141), Word::from_u64(1000));
    let msg = MSG::new(
        Word::from_u64(0x41414141),
        Word::from_u64(0x42424242),
        Vec::new(),
        Word::zero(),
        Word::from_u64(GAS_BUDGET),
    );
    let ctx = CTX::new(tx, msg, Word::from_u64(0x42424242), hex::decode("4300").unwrap());
    let mut vm = EVM::new(ctx);
    let (ok, _) = vm.run(&mut chain);
    assert!(ok);
    assert_eq!(*vm.stack.last().unwrap(), Word::from_u64(0x4444));
}

#[test]
fn call_splices_child_returndata() {
    let mut chain = BlockChain::new();
    // The callee returns the 32-byte word 0x2A.
    chain.add_contract("0x43434343", hex::decode("602A60005260206000F3").unwrap());
    let caller_code = hex::decode("60206000600060006000634343434361FFFFF100").unwrap();
    let tx = TX::new(Word::from_u64(0x41414141), Word::from_u64(1000));
    let msg = MSG::new(
        Word::from_u64(0x41414141),
        Word::from_u64(0x42424242),
        Vec::new(),
        Word::zero(),
        Word::from_u64(GAS_BUDGET),
    );
    let ctx = CTX::new(tx, msg, Word::from_u64(0x42424242), caller_code);
    let mut vm = EVM::new(ctx);
    let (ok, _) = vm.run(&mut chain);
    assert!(ok);
    assert_eq!(*vm.stack.last().unwrap(), Word::from_u64(1));
    assert_eq!(vm.returndata.len(), 32);
    assert_eq!(vm.returndata[31], 0x2A);
    assert_eq!(vm.memory[31], 0x2A);
}

#[test]
fn staticcall_blocks_sstore_in_child() {
    let mut chain = BlockChain::new();
    // The callee tries to write storage.
    chain.add_contract("0x43434343", hex::decode("600160015500").unwrap());
    let caller_code = hex::decode("60006000600060006000634343434361FFFFFA00").unwrap();
    let tx = TX::new(Word::from_u64(0x41414141), Word::from_u64(1000));
    let msg = MSG::new(
        Word::from_u64(0x41414141),
        Word::from_u64(0x42424242),
        Vec::new(),
        Word::zero(),
        Word::from_u64(GAS_BUDGET),
    );
    let ctx = CTX::new(tx, msg, Word::from_u64(0x42424242), caller_code);
    let mut vm = EVM::new(ctx);
    let (ok, _) = vm.run(&mut chain);
    assert!(ok);
    // The child failed, so the call pushed zero.
    assert_eq!(*vm.stack.last().unwrap(), Word::zero());
}

#[test]
fn selfdestruct_moves_balance_and_defers_removal() {
    let mut chain = BlockChain::new();
    chain.add_contract("0x42424242", hex::decode("63414141FFFF00").unwrap());
    // Give the contract a balance by editing its account journal directly.
    {
        let account = chain.get_account(&Word::from_u64(0x42424242));
        let mut funded = account;
        funded.balance = Word::from_u64(900);
        chain.accounts.push((Word::from_u64(0x42424242), funded));
    }
    let code = chain.get_account(&Word::from_u64(0x42424242)).code.clone();
    let tx = TX::new(Word::from_u64(0x41414141), Word::from_u64(1000));
    let msg = MSG::new(
        Word::from_u64(0x41414141),
        Word::from_u64(0x42424242),
        Vec::new(),
        Word::zero(),
        Word::from_u64(GAS_BUDGET),
    );
    let ctx = CTX::new(tx, msg, Word::from_u64(0x42424242), code);
    let mut vm = EVM::new(ctx);
    let (ok, _) = vm.run(&mut chain);
    assert!(ok);
    // Balance moved to the beneficiary; the account still resolves until
    // clean_contracts runs.
    let beneficiary = chain.get_account(&Word::from_u64(0x414141FF));
    assert_eq!(beneficiary.balance, Word::from_u64(900));
    assert_eq!(chain.destroy_list.len(), 1);
    chain.clean_contracts();
    let after: Vec<&(Word, evmcore::blockchain::Account)> = chain
        .accounts
        .iter()
        .filter(|e| e.0 == Word::from_u64(0x42424242))
        .collect();
    assert!(after.is_empty());
}
