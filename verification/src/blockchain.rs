//! The world state: accounts, block headers, logs and the self-destruct set.
//!
//! Accounts and per-account storage are kept as append-only journals of
//! `(key, value)` entries; the most recent entry for a key is its current
//! value, and absent keys read as zero. The spec functions `account_of`,
//! `balance_of`, `nonce_of`, `code_of` and `storage_of` give the journals
//! their map reading, and every method's contract is stated over them.

use vstd::prelude::*;
use vstd::string::StringSliceAdditionalSpecFns;

use crate::word::{p256, Word};

verus! {

/// A block header; only the most recent block is queryable.
#[derive(Clone, Copy)]
pub struct Block {
    pub blockhash: Word,
    pub coinbase: Word,
    pub timestamp: Word,
    pub number: Word,
    pub difficulty: Word,
    pub gaslimit: Word,
    pub chainid: Word,
    pub basefee: Word,
}

/// An account: nonce, balance, storage journal and immutable code.
pub struct Account {
    pub nonce: Word,
    pub balance: Word,
    pub storage: Vec<(Word, Word)>,
    pub code: Vec<u8>,
}

/// An emitted log entry: payload plus up to four topics (absent topics are
/// zero).
pub struct Log {
    pub data: Vec<u8>,
    pub topic1: Word,
    pub topic2: Word,
    pub topic3: Word,
    pub topic4: Word,
}

/// The world state threaded through a transaction's call tree.
pub struct BlockChain {
    pub blocks: Vec<Block>,
    pub accounts: Vec<(Word, Account)>,
    pub logs: Vec<Log>,
    pub destroy_list: Vec<Word>,
}

/// The current value of `key` in a storage journal; zero when absent.
pub open spec fn slot_of(s: Seq<(Word, Word)>, key: nat) -> nat
    decreases s.len(),
{
    if s.len() == 0 {
        0
    } else if s.last().0@ == key {
        s.last().1@
    } else {
        slot_of(s.drop_last(), key)
    }
}

/// The current account under `addr` in an account journal.
pub open spec fn account_of(s: Seq<(Word, Account)>, addr: nat) -> Option<Account>
    decreases s.len(),
{
    if s.len() == 0 {
        None
    } else if s.last().0@ == addr {
        Some(s.last().1)
    } else {
        account_of(s.drop_last(), addr)
    }
}

/// The balance under `addr`; absent accounts have zero balance.
pub open spec fn balance_of(s: Seq<(Word, Account)>, addr: nat) -> nat {
    match account_of(s, addr) {
        Some(a) => a.balance@,
        None => 0,
    }
}

/// The nonce under `addr`; absent accounts have zero nonce.
pub open spec fn nonce_of(s: Seq<(Word, Account)>, addr: nat) -> nat {
    match account_of(s, addr) {
        Some(a) => a.nonce@,
        None => 0,
    }
}

/// The code under `addr`; absent accounts have empty code.
pub open spec fn code_of(s: Seq<(Word, Account)>, addr: nat) -> Seq<u8> {
    match account_of(s, addr) {
        Some(a) => a.code@,
        None => Seq::empty(),
    }
}

/// The storage slot `key` of the account under `addr`.
pub open spec fn storage_of(s: Seq<(Word, Account)>, addr: nat, key: nat) -> nat {
    match account_of(s, addr) {
        Some(a) => slot_of(a.storage@, key),
        None => 0,
    }
}

/// An account with all fields zero and no code.
pub open spec fn is_zero_account(a: Account) -> bool {
    a.nonce@ == 0 && a.balance@ == 0 && a.storage@.len() == 0 && a.code@.len() == 0
}

/// Whether two account journals agree on every observable: balances,
/// nonces, code and storage of every address. Creating a zeroed account for
/// an absent address preserves this relation.
pub open spec fn observes_eq(a: Seq<(Word, Account)>, b: Seq<(Word, Account)>) -> bool {
    &&& forall|x: nat| balance_of(a, x) == balance_of(b, x)
    &&& forall|x: nat| nonce_of(a, x) == nonce_of(b, x)
    &&& forall|x: nat| code_of(a, x) == code_of(b, x)
    &&& forall|x: nat, k: nat| storage_of(a, x, k) == storage_of(b, x, k)
}

/// Whether two optional accounts agree in every observable field.
pub open spec fn same_account(x: Option<Account>, y: Option<Account>) -> bool {
    match (x, y) {
        (Option::None, Option::None) => true,
        (Option::Some(p), Option::Some(q)) => p.nonce == q.nonce && p.balance == q.balance
            && p.storage@ == q.storage@ && p.code@ == q.code@,
        _ => false,
    }
}

/// Whether an address occurs in a list of words.
pub open spec fn contains_addr(s: Seq<Word>, addr: nat) -> bool {
    exists|i: int| 0 <= i < s.len() && s[i]@ == addr
}

/// The current value of `key` in a storage journal, by backward scan.
pub(crate) fn slot_lookup(s: &Vec<(Word, Word)>, key: &Word) -> (r: Word)
    ensures
        r@ == slot_of(s@, key@),
{
    let mut i: usize = s.len();
    proof {
        assert(s@.subrange(0, s@.len() as int) =~= s@);
    }
    while i > 0
        invariant
            i <= s@.len(),
            slot_of(s@, key@) == slot_of(s@.subrange(0, i as int), key@),
        decreases i,
    {
        proof {
            assert(s@.subrange(0, i as int).drop_last() =~= s@.subrange(0, i - 1));
            assert(s@.subrange(0, i as int).last() == s@[i - 1]);
        }
        i = i - 1;
        let (k, v) = s[i];
        if k.eq_word(key) {
            return v;
        }
    }
    proof {
        assert(s@.subrange(0, 0) =~= Seq::<(Word, Word)>::empty());
    }
    Word::zero()
}

/// The index of the current journal entry for `addr`, if any.
fn account_lookup(s: &Vec<(Word, Account)>, addr: &Word) -> (r: Option<usize>)
    ensures
        match r {
            Some(i) => i < s@.len() && s@[i as int].0@ == addr@ && account_of(s@, addr@)
                == Some(s@[i as int].1),
            None => account_of(s@, addr@) is None,
        },
{
    let mut i: usize = s.len();
    proof {
        assert(s@.subrange(0, s@.len() as int) =~= s@);
    }
    while i > 0
        invariant
            i <= s@.len(),
            account_of(s@, addr@) == account_of(s@.subrange(0, i as int), addr@),
        decreases i,
    {
        proof {
            assert(s@.subrange(0, i as int).drop_last() =~= s@.subrange(0, i - 1));
            assert(s@.subrange(0, i as int).last() == s@[i - 1]);
        }
        i = i - 1;
        if s[i].0.eq_word(addr) {
            return Some(i);
        }
    }
    proof {
        assert(s@.subrange(0, 0) =~= Seq::<(Word, Account)>::empty());
    }
    None
}

/// A bytewise copy of a byte vector.
pub fn copy_bytes(v: &Vec<u8>) -> (r: Vec<u8>)
    ensures
        r@ == v@,
{
    let mut out: Vec<u8> = Vec::new();
    let mut i: usize = 0;
    while i < v.len()
        invariant
            i <= v@.len(),
            out@ == v@.subrange(0, i as int),
        decreases v@.len() - i,
    {
        out.push(v[i]);
        proof {
            assert(out@ =~= v@.subrange(0, i + 1));
        }
        i = i + 1;
    }
    proof {
        assert(out@ =~= v@);
    }
    out
}

/// An entrywise copy of a storage journal.
fn copy_slots(v: &Vec<(Word, Word)>) -> (r: Vec<(Word, Word)>)
    ensures
        r@ == v@,
{
    let mut out: Vec<(Word, Word)> = Vec::new();
    let mut i: usize = 0;
    while i < v.len()
        invariant
            i <= v@.len(),
            out@ == v@.subrange(0, i as int),
        decreases v@.len() - i,
    {
        out.push(v[i]);
        proof {
            assert(out@ =~= v@.subrange(0, i + 1));
        }
        i = i + 1;
    }
    proof {
        assert(out@ =~= v@);
    }
    out
}

impl Account {
    /// A field-for-field copy of the account.
    pub fn duplicate(&self) -> (r: Account)
        ensures
            r.nonce == self.nonce,
            r.balance == self.balance,
            r.storage@ == self.storage@,
            r.code@ == self.code@,
    {
        Account {
            nonce: self.nonce,
            balance: self.balance,
            storage: copy_slots(&self.storage),
            code: copy_bytes(&self.code),
        }
    }
}

impl BlockChain {
    /// An empty world: no blocks, no accounts, no logs, nothing to destroy.
    pub fn new() -> (r: BlockChain)
        ensures
            r.blocks@.len() == 0,
            r.accounts@.len() == 0,
            r.logs@.len() == 0,
            r.destroy_list@.len() == 0,
    {
        BlockChain {
            blocks: Vec::new(),
            accounts: Vec::new(),
            logs: Vec::new(),
            destroy_list: Vec::new(),
        }
    }

    /// The most recent block header.
    pub fn get_current_block(&self) -> (r: Block)
        requires
            self.blocks@.len() > 0,
        ensures
            r == self.blocks@.last(),
    {
        self.blocks[self.blocks.len() - 1]
    }

    /// Install a fresh account with the given code under `address`,
    /// shadowing any previous account there.
    pub fn add_contract_bin(&mut self, address: Word, bytecode: Vec<u8>)
        ensures
            final(self).accounts@.len() == old(self).accounts@.len() + 1,
            account_of(final(self).accounts@, address@) == Some(final(self).accounts@.last().1),
            final(self).accounts@.last().0 == address,
            final(self).accounts@.last().1.nonce@ == 0,
            final(self).accounts@.last().1.balance@ == 0,
            final(self).accounts@.last().1.storage@.len() == 0,
            final(self).accounts@.last().1.code@ == bytecode@,
            forall|a: nat|
                a != address@ ==> account_of(final(self).accounts@, a) == account_of(
                    old(self).accounts@,
                    a,
                ),
            final(self).blocks@ == old(self).blocks@,
            final(self).logs@ == old(self).logs@,
            final(self).destroy_list@ == old(self).destroy_list@,
    {
        let account = Account {
            nonce: Word::zero(),
            balance: Word::zero(),
            storage: Vec::new(),
            code: bytecode,
        };
        self.accounts.push((address, account));
        proof {
            assert(self.accounts@.drop_last() =~= old(self).accounts@);
        }
    }

    /// Install a fresh account with the given code under a `0x`-prefixed
    /// hexadecimal address literal.
    pub fn add_contract(&mut self, address: &str, bytecode: Vec<u8>)
        requires
            crate::utils::is_hex_word_str(address.spec_bytes()),
        ensures
            final(self).accounts@.len() == old(self).accounts@.len() + 1,
            final(self).accounts@.last().0@ == crate::utils::hex_val(
                address.spec_bytes().subrange(2, address.spec_bytes().len() as int),
            ),
            account_of(final(self).accounts@, final(self).accounts@.last().0@) == Some(
                final(self).accounts@.last().1,
            ),
            final(self).accounts@.last().1.nonce@ == 0,
            final(self).accounts@.last().1.balance@ == 0,
            final(self).accounts@.last().1.storage@.len() == 0,
            final(self).accounts@.last().1.code@ == bytecode@,
            forall|a: nat|
                a != final(self).accounts@.last().0@ ==> account_of(final(self).accounts@, a)
                    == account_of(old(self).accounts@, a),
            final(self).blocks@ == old(self).blocks@,
            final(self).logs@ == old(self).logs@,
            final(self).destroy_list@ == old(self).destroy_list@,
    {
        let w = crate::utils::parse_hex_word(address);
        self.add_contract_bin(w, bytecode);
    }

    /// The current account under `address`, created as a zeroed account in
    /// place when absent, so that later reads see zero fields.
    pub fn get_account(&mut self, address: &Word) -> (a: Account)
        ensures
            account_of(final(self).accounts@, address@) matches Some(cur) && a.nonce == cur.nonce
                && a.balance == cur.balance && a.storage@ == cur.storage@ && a.code@
                == cur.code@,
            match account_of(old(self).accounts@, address@) {
                Some(cur) => final(self).accounts@ == old(self).accounts@,
                None => {
                    &&& final(self).accounts@.len() == old(self).accounts@.len() + 1
                    &&& final(self).accounts@.last().0@ == address@
                    &&& is_zero_account(final(self).accounts@.last().1)
                    &&& forall|x: nat|
                        x != address@ ==> account_of(final(self).accounts@, x) == account_of(
                            old(self).accounts@,
                            x,
                        )
                },
            },
            final(self).blocks@ == old(self).blocks@,
            final(self).logs@ == old(self).logs@,
            final(self).destroy_list@ == old(self).destroy_list@,
            observes_eq(final(self).accounts@, old(self).accounts@),
            a.balance@ == balance_of(old(self).accounts@, address@),
            a.nonce@ == nonce_of(old(self).accounts@, address@),
            a.code@ == code_of(old(self).accounts@, address@),
            forall|k: nat| slot_of(a.storage@, k) == storage_of(old(self).accounts@, address@, k),
    {
        proof {
            let s0 = self.accounts@;
            if account_of(s0, address@) is None {
                assert(code_of(s0, address@) =~= Seq::<u8>::empty());
            }
        }
        match account_lookup(&self.accounts, address) {
            Some(i) => self.accounts[i].1.duplicate(),
            None => {
                let fresh = Account {
                    nonce: Word::zero(),
                    balance: Word::zero(),
                    storage: Vec::new(),
                    code: Vec::new(),
                };
                self.accounts.push((*address, fresh));
                proof {
                    assert(self.accounts@.drop_last() =~= old(self).accounts@);
                }
                let n = self.accounts.len();
                self.accounts[n - 1].1.duplicate()
            },
        }
    }

    /// Write `value` to storage slot `key` of the account under `address`
    /// (creating the account when absent); every other slot and account is
    /// untouched.
    pub fn set_storage(&mut self, address: &Word, key: &Word, value: &Word)
        ensures
            storage_of(final(self).accounts@, address@, key@) == value@,
            forall|k: nat|
                k != key@ ==> storage_of(final(self).accounts@, address@, k) == storage_of(
                    old(self).accounts@,
                    address@,
                    k,
                ),
            balance_of(final(self).accounts@, address@) == balance_of(old(self).accounts@, address@),
            nonce_of(final(self).accounts@, address@) == nonce_of(old(self).accounts@, address@),
            code_of(final(self).accounts@, address@) == code_of(old(self).accounts@, address@),
            forall|a: nat|
                a != address@ ==> account_of(final(self).accounts@, a) == account_of(
                    old(self).accounts@,
                    a,
                ),
            final(self).blocks@ == old(self).blocks@,
            final(self).logs@ == old(self).logs@,
            final(self).destroy_list@ == old(self).destroy_list@,
    {
        let mut account = self.get_account(address);
        let ghost mid = self.accounts@;
        let ghost stor0 = account.storage@;
        account.storage.push((*key, *value));
        self.accounts.push((*address, account));
        proof {
            assert(self.accounts@.drop_last() =~= mid);
            let acct = self.accounts@.last().1;
            assert(acct.storage@.drop_last() =~= stor0);
            assert(account_of(self.accounts@, address@) == Some(acct));
            if account_of(old(self).accounts@, address@) is None {
                assert(code_of(old(self).accounts@, address@) =~= acct.code@);
            }
            assert forall|k: nat| k != key@ implies storage_of(self.accounts@, address@, k)
                == storage_of(old(self).accounts@, address@, k) by {
                assert(slot_of(acct.storage@, k) == slot_of(stor0, k));
                if account_of(old(self).accounts@, address@) is Some {
                    assert(account_of(mid, address@) == account_of(
                        old(self).accounts@,
                        address@,
                    ));
                }
            }
        }
    }

    /// Increment the nonce of the account under `address`, wrapping modulo
    /// `2^256`.
    pub fn bump_nonce(&mut self, address: &Word)
        ensures
            account_of(final(self).accounts@, address@) is Some,
            nonce_of(final(self).accounts@, address@) == (nonce_of(old(self).accounts@, address@)
                + 1) % p256(),
            balance_of(final(self).accounts@, address@) == balance_of(old(self).accounts@, address@),
            code_of(final(self).accounts@, address@) == code_of(old(self).accounts@, address@),
            forall|k: nat|
                storage_of(final(self).accounts@, address@, k) == storage_of(
                    old(self).accounts@,
                    address@,
                    k,
                ),
            forall|a: nat|
                a != address@ ==> account_of(final(self).accounts@, a) == account_of(
                    old(self).accounts@,
                    a,
                ),
            final(self).blocks@ == old(self).blocks@,
            final(self).logs@ == old(self).logs@,
            final(self).destroy_list@ == old(self).destroy_list@,
    {
        let mut account = self.get_account(address);
        let ghost mid = self.accounts@;
        let one = Word::one();
        account.nonce = account.nonce.wrapping_add(&one);
        self.accounts.push((*address, account));
        proof {
            assert(self.accounts@.drop_last() =~= mid);
            if account_of(old(self).accounts@, address@) is None {
                assert(code_of(old(self).accounts@, address@) =~= self.accounts@.last().1.code@);
            }
        }
    }

    /// Move the balance of `address` to `recipient` (the addressee keeps its
    /// own balance in the degenerate self-transfer), zero the source balance,
    /// and mark `address` for destruction, without duplicating it in the
    /// destroy set.
    pub fn register_to_destroy(&mut self, address: Word, recipient: Word)
        ensures
            address@ != recipient@ ==> balance_of(final(self).accounts@, address@) == 0,
            address@ != recipient@ ==> balance_of(final(self).accounts@, recipient@) == (balance_of(
                old(self).accounts@,
                recipient@,
            ) + balance_of(old(self).accounts@, address@)) % p256(),
            address@ == recipient@ ==> balance_of(final(self).accounts@, recipient@) == balance_of(
                old(self).accounts@,
                recipient@,
            ),
            forall|a: nat|
                a != address@ && a != recipient@ ==> account_of(final(self).accounts@, a)
                    == account_of(old(self).accounts@, a),
            nonce_of(final(self).accounts@, address@) == nonce_of(old(self).accounts@, address@),
            code_of(final(self).accounts@, address@) == code_of(old(self).accounts@, address@),
            forall|k: nat|
                storage_of(final(self).accounts@, address@, k) == storage_of(
                    old(self).accounts@,
                    address@,
                    k,
                ),
            nonce_of(final(self).accounts@, recipient@) == nonce_of(
                old(self).accounts@,
                recipient@,
            ),
            code_of(final(self).accounts@, recipient@) == code_of(
                old(self).accounts@,
                recipient@,
            ),
            forall|k: nat|
                storage_of(final(self).accounts@, recipient@, k) == storage_of(
                    old(self).accounts@,
                    recipient@,
                    k,
                ),
            account_of(final(self).accounts@, address@) is Some,
            contains_addr(old(self).destroy_list@, address@) ==> final(self).destroy_list@ == old(self).destroy_list@,
            !contains_addr(old(self).destroy_list@, address@) ==> final(self).destroy_list@ == old(self).destroy_list@.push(address),
            final(self).blocks@ == old(self).blocks@,
            final(self).logs@ == old(self).logs@,
    {
        let mut source = self.get_account(&address);
        let ghost mid1 = self.accounts@;
        let moved = source.balance;
        source.balance = Word::zero();
        self.accounts.push((address, source));
        let ghost s1 = self.accounts@;
        proof {
            assert(s1.drop_last() =~= mid1);
        }
        let mut target = self.get_account(&recipient);
        let ghost mid2 = self.accounts@;
        proof {
            crate::word::lemma_word_view_bound(target.balance);
            crate::word::lemma_word_view_bound(moved);
            if address@ == recipient@ {
                vstd::arithmetic::div_mod::lemma_small_mod(moved@, p256());
            }
        }
        target.balance = target.balance.wrapping_add(&moved);
        self.accounts.push((recipient, target));
        proof {
            assert(self.accounts@.drop_last() =~= mid2);
            assert(account_of(self.accounts@, recipient@) == Some(self.accounts@.last().1));
            assert forall|a: nat| a != address@ && a != recipient@ implies account_of(
                self.accounts@,
                a,
            ) == account_of(old(self).accounts@, a) by {
                assert(account_of(self.accounts@, a) == account_of(mid2, a));
                assert(account_of(mid2, a) == account_of(s1, a));
                assert(account_of(s1, a) == account_of(mid1, a));
                assert(account_of(mid1, a) == account_of(old(self).accounts@, a));
            }
            if address@ != recipient@ {
                assert(account_of(self.accounts@, address@) == account_of(mid2, address@));
                assert(account_of(mid2, address@) == account_of(s1, address@));
                assert(account_of(s1, address@) == Some(s1.last().1));
            }
        }
        if !self.destroy_contains(&address) {
            self.destroy_list.push(address);
        }
    }

    /// Whether `address` is already marked for destruction.
    fn destroy_contains(&self, address: &Word) -> (r: bool)
        ensures
            r == contains_addr(self.destroy_list@, address@),
    {
        let mut i: usize = 0;
        while i < self.destroy_list.len()
            invariant
                i <= self.destroy_list@.len(),
                forall|j: int| 0 <= j < i ==> self.destroy_list@[j]@ != address@,
            decreases self.destroy_list@.len() - i,
        {
            if self.destroy_list[i].eq_word(address) {
                return true;
            }
            i = i + 1;
        }
        false
    }

    /// Delete every account marked for destruction; every other account
    /// keeps its current state.
    pub fn clean_contracts(&mut self)
        ensures
            forall|a: nat|
                contains_addr(final(self).destroy_list@, a) ==> account_of(final(self).accounts@, a)
                    is None,
            forall|a: nat|
                !contains_addr(final(self).destroy_list@, a) ==> same_account(
                    account_of(final(self).accounts@, a),
                    account_of(old(self).accounts@, a),
                ),
            final(self).destroy_list@ == old(self).destroy_list@,
            final(self).blocks@ == old(self).blocks@,
            final(self).logs@ == old(self).logs@,
    {
        let mut kept: Vec<(Word, Account)> = Vec::new();
        let n = self.accounts.len();
        let mut i: usize = 0;
        proof {
            assert(self.accounts@.subrange(0, 0) =~= Seq::<(Word, Account)>::empty());
        }
        while i < n
            invariant
                n == self.accounts@.len(),
                i <= n,
                self.accounts@ == old(self).accounts@,
                self.destroy_list@ == old(self).destroy_list@,
                self.blocks@ == old(self).blocks@,
                self.logs@ == old(self).logs@,
                forall|a: nat|
                    contains_addr(self.destroy_list@, a) ==> account_of(kept@, a) is None,
                forall|a: nat|
                    !contains_addr(self.destroy_list@, a) ==> same_account(
                        account_of(kept@, a),
                        account_of(self.accounts@.subrange(0, i as int), a),
                    ),
            decreases n - i,
        {
            proof {
                assert(self.accounts@.subrange(0, i + 1).drop_last() =~= self.accounts@
                    .subrange(0, i as int));
                assert(self.accounts@.subrange(0, i + 1).last() == self.accounts@[i as int]);
            }
            let keep = !self.destroy_contains(&self.accounts[i].0);
            if keep {
                let entry_addr = self.accounts[i].0;
                let entry_account = self.accounts[i].1.duplicate();
                let ghost kept0 = kept@;
                kept.push((entry_addr, entry_account));
                proof {
                    assert(kept@.drop_last() =~= kept0);
                    let pushed = kept@.last();
                    assert(pushed.0 == self.accounts@[i as int].0);
                    assert forall|a: nat| !contains_addr(self.destroy_list@, a)
                        implies same_account(
                        account_of(kept@, a),
                        account_of(self.accounts@.subrange(0, i + 1), a),
                    ) by {
                        if a != pushed.0@ {
                            assert(account_of(kept@, a) == account_of(kept0, a));
                        } else {
                            assert(account_of(kept@, a) == Some(pushed.1));
                            assert(account_of(self.accounts@.subrange(0, i + 1), a)
                                == Some(self.accounts@[i as int].1));
                        }
                    }
                    assert forall|a: nat| contains_addr(self.destroy_list@, a)
                        implies account_of(kept@, a) is None by {
                        assert(a != pushed.0@);
                        assert(account_of(kept@, a) == account_of(kept0, a));
                    }
                }
            }
            i = i + 1;
        }
        proof {
            assert(self.accounts@.subrange(0, n as int) =~= self.accounts@);
        }
        self.accounts = kept;
    }

    /// Append a log entry with no topics.
    pub fn add_log0(&mut self, data: Vec<u8>)
        ensures
            final(self).logs@.len() == old(self).logs@.len() + 1,
            final(self).logs@.last().data@ == data@,
            final(self).logs@.last().topic1@ == 0 && final(self).logs@.last().topic2@ == 0,
            final(self).logs@.last().topic3@ == 0 && final(self).logs@.last().topic4@ == 0,
            final(self).logs@.drop_last() == old(self).logs@,
            final(self).accounts@ == old(self).accounts@,
            final(self).blocks@ == old(self).blocks@,
            final(self).destroy_list@ == old(self).destroy_list@,
    {
        let log = Log {
            data,
            topic1: Word::zero(),
            topic2: Word::zero(),
            topic3: Word::zero(),
            topic4: Word::zero(),
        };
        self.logs.push(log);
    }

    /// Append a log entry with one topic.
    pub fn add_log1(&mut self, data: Vec<u8>, topic1: Word)
        ensures
            final(self).logs@.len() == old(self).logs@.len() + 1,
            final(self).logs@.last().data@ == data@,
            final(self).logs@.last().topic1 == topic1 && final(self).logs@.last().topic2@ == 0,
            final(self).logs@.last().topic3@ == 0 && final(self).logs@.last().topic4@ == 0,
            final(self).logs@.drop_last() == old(self).logs@,
            final(self).accounts@ == old(self).accounts@,
            final(self).blocks@ == old(self).blocks@,
            final(self).destroy_list@ == old(self).destroy_list@,
    {
        let log = Log {
            data,
            topic1,
            topic2: Word::zero(),
            topic3: Word::zero(),
            topic4: Word::zero(),
        };
        self.logs.push(log);
    }

    /// Append a log entry with two topics.
    pub fn add_log2(&mut self, data: Vec<u8>, topic1: Word, topic2: Word)
        ensures
            final(self).logs@.len() == old(self).logs@.len() + 1,
            final(self).logs@.last().data@ == data@,
            final(self).logs@.last().topic1 == topic1 && final(self).logs@.last().topic2 == topic2,
            final(self).logs@.last().topic3@ == 0 && final(self).logs@.last().topic4@ == 0,
            final(self).logs@.drop_last() == old(self).logs@,
            final(self).accounts@ == old(self).accounts@,
            final(self).blocks@ == old(self).blocks@,
            final(self).destroy_list@ == old(self).destroy_list@,
    {
        let log = Log { data, topic1, topic2, topic3: Word::zero(), topic4: Word::zero() };
        self.logs.push(log);
    }

    /// Append a log entry with three topics.
    pub fn add_log3(&mut self, data: Vec<u8>, topic1: Word, topic2: Word, topic3: Word)
        ensures
            final(self).logs@.len() == old(self).logs@.len() + 1,
            final(self).logs@.last().data@ == data@,
            final(self).logs@.last().topic1 == topic1 && final(self).logs@.last().topic2 == topic2,
            final(self).logs@.last().topic3 == topic3 && final(self).logs@.last().topic4@ == 0,
            final(self).logs@.drop_last() == old(self).logs@,
            final(self).accounts@ == old(self).accounts@,
            final(self).blocks@ == old(self).blocks@,
            final(self).destroy_list@ == old(self).destroy_list@,
    {
        let log = Log { data, topic1, topic2, topic3, topic4: Word::zero() };
        self.logs.push(log);
    }

    /// Append a log entry with four topics.
    pub fn add_log4(&mut self, data: Vec<u8>, topic1: Word, topic2: Word, topic3: Word, topic4: Word)
        ensures
            final(self).logs@.len() == old(self).logs@.len() + 1,
            final(self).logs@.last().data@ == data@,
            final(self).logs@.last().topic1 == topic1 && final(self).logs@.last().topic2 == topic2,
            final(self).logs@.last().topic3 == topic3 && final(self).logs@.last().topic4 == topic4,
            final(self).logs@.drop_last() == old(self).logs@,
            final(self).accounts@ == old(self).accounts@,
            final(self).blocks@ == old(self).blocks@,
            final(self).destroy_list@ == old(self).destroy_list@,
    {
        let log = Log { data, topic1, topic2, topic3, topic4 };
        self.logs.push(log);
    }
}

} // verus!
