//! The transactional backend: the account store of [`crate::state`]
//! beneath a stack of substate snapshots, plus the mock block
//! environment the interpreter reads.
//!
//! A substate is opened by taking a full snapshot of the store and
//! closed by either keeping the present store (commit) or restoring
//! the snapshot (revert and discard — the two differ only in intent,
//! not in effect on state). Restoration is exact, so a failed nested
//! scope leaves no observable trace, coldness included.

use vstd::prelude::*;

use crate::errors::Fault;
use crate::state::{
    clone_vec_copy, Account, AccountState, LogRecord, StateV,
};
use crate::words::{Address, W256};

verus! {

/// How a substate is closed: merge its mutations into the parent
/// (`Commit`), undo them after a failure (`Revert`), or abandon them
/// deliberately (`Discard`, used for read-only probing; identical to
/// `Revert` in effect on state).
#[derive(Clone, Copy, PartialEq, Eq, Structural, Debug)]
pub enum MergeStrategy {
    Commit,
    Revert,
    Discard,
}

/// The block environment the interpreter reads; fixed for a run.
#[derive(Clone, Copy, Debug)]
pub struct MockBlock {
    pub block_hash: W256,
    pub block_number: W256,
    pub block_coinbase: Address,
    pub block_timestamp: W256,
    pub block_difficulty: W256,
    pub block_randomness: Option<W256>,
    pub block_gas_limit: W256,
    pub block_base_fee_per_gas: W256,
    pub chain_id: W256,
}

/// The authoritative ledger, its stack of substate snapshots, and the
/// block environment.
#[derive(Debug)]
pub struct MyBackend {
    pub state: AccountState,
    pub frames: Vec<AccountState>,
    pub mock_block: MockBlock,
}

/// The abstract value of a [`MyBackend`].
#[verifier::ext_equal]
pub struct BackendV {
    pub state: StateV,
    pub frames: Seq<StateV>,
    pub block: MockBlock,
}

impl View for MyBackend {
    type V = BackendV;

    open spec fn view(&self) -> BackendV {
        BackendV {
            state: self.state@,
            frames: self.frames@.map_values(|s: AccountState| s@),
            block: self.mock_block,
        }
    }
}

impl BackendV {
    /// Well-formedness: the live state and every snapshot are
    /// well-formed stores.
    pub open spec fn wf(self) -> bool {
        &&& self.state.wf()
        &&& forall|i: int| 0 <= i < self.frames.len() ==> (#[trigger] self.frames[i]).wf()
    }

    /// `push_substate`: opens a nested scope by snapshotting the live
    /// state.
    pub open spec fn spec_push(self) -> BackendV {
        BackendV { frames: self.frames.push(self.state), ..self }
    }

    /// `pop_substate`: closes the innermost scope. Meaningful only
    /// when a scope is open.
    pub open spec fn spec_pop(self, strategy: MergeStrategy) -> BackendV {
        BackendV {
            state: if strategy == MergeStrategy::Commit {
                self.state
            } else {
                self.frames.last()
            },
            frames: self.frames.drop_last(),
            ..self
        }
    }

    /// Lifts a store transform over the backend: the live state
    /// changes, snapshots and block do not.
    pub open spec fn with_state(self, s: StateV) -> BackendV {
        BackendV { state: s, ..self }
    }
}

/// A deep copy of one account.
fn clone_account(a: &Account) -> (r: Account)
    ensures
        r@ == a@,
{
    let r = Account {
        address: a.address,
        balance: a.balance,
        nonce: a.nonce,
        code: clone_vec_copy(&a.code),
        storage: clone_vec_copy(&a.storage),
        cold: a.cold,
        warm_keys: clone_vec_copy(&a.warm_keys),
        deleted: a.deleted,
    };
    proof {
        assert(r@ =~~= a@);
    }
    r
}

/// A deep copy of one log record.
pub(crate) fn clone_log(l: &LogRecord) -> (r: LogRecord)
    ensures
        r@ == l@,
{
    let r = LogRecord {
        address: l.address,
        topics: clone_vec_copy(&l.topics),
        data: clone_vec_copy(&l.data),
    };
    proof {
        assert(r@ =~~= l@);
    }
    r
}

/// A deep copy of the whole store, used as a substate snapshot.
fn clone_state(s: &AccountState) -> (r: AccountState)
    ensures
        r@ == s@,
{
    let n_accounts = s.accounts.len();
    let mut accounts: Vec<Account> = Vec::new();
    let mut i: usize = 0;
    while i < n_accounts
        invariant
            n_accounts == s.accounts@.len(),
            i <= n_accounts,
            accounts@.len() == i,
            forall|j: int| 0 <= j < i ==> accounts@[j]@ == s.accounts@[j]@,
        decreases n_accounts - i,
    {
        accounts.push(clone_account(&s.accounts[i]));
        i = i + 1;
    }
    let n_logs = s.logs.len();
    let mut logs: Vec<LogRecord> = Vec::new();
    let mut p: usize = 0;
    while p < n_logs
        invariant
            n_logs == s.logs@.len(),
            p <= n_logs,
            logs@.len() == p,
            forall|j: int| 0 <= j < p ==> logs@[j]@ == s.logs@[j]@,
        decreases n_logs - p,
    {
        logs.push(clone_log(&s.logs[p]));
        p = p + 1;
    }
    let r = AccountState { accounts, logs, originals: clone_vec_copy(&s.originals) };
    proof {
        assert(r@ =~~= s@);
    }
    r
}

impl MyBackend {
    /// A backend with an empty ledger, no open substate, and a fixed
    /// all-zero block environment (chain id 1173). The environment is
    /// deliberately deterministic; a caller that needs another one
    /// uses [`MyBackend::with_block`].
    pub fn new() -> (r: MyBackend)
        ensures
            r@.wf(),
            r@.state.accounts.len() == 0,
            r@.state.logs.len() == 0,
            r@.state.originals.len() == 0,
            r@.frames.len() == 0,
            r.mock_block.block_hash == W256::spec_zero(),
            r.mock_block.block_number == W256::spec_zero(),
            r.mock_block.block_coinbase == Address::spec_zero(),
            r.mock_block.block_timestamp == W256::spec_zero(),
            r.mock_block.block_difficulty == W256::spec_zero(),
            r.mock_block.block_randomness == Some(W256::spec_zero()),
            r.mock_block.block_gas_limit == W256::spec_zero(),
            r.mock_block.block_base_fee_per_gas == W256::spec_zero(),
            r.mock_block.chain_id.as_nat() == 1173,
    {
        let mock_block = MockBlock {
            block_hash: W256::zero(),
            block_number: W256::zero(),
            block_coinbase: Address::zero(),
            block_timestamp: W256::zero(),
            block_difficulty: W256::zero(),
            block_randomness: Some(W256::zero()),
            block_gas_limit: W256::zero(),
            block_base_fee_per_gas: W256::zero(),
            chain_id: W256::from_u64(1173),
        };
        MyBackend { state: AccountState::empty(), frames: Vec::new(), mock_block }
    }

    /// A backend with an empty ledger and the given block environment.
    pub fn with_block(mock_block: MockBlock) -> (r: MyBackend)
        ensures
            r@.wf(),
            r@.state.accounts.len() == 0,
            r@.state.logs.len() == 0,
            r@.state.originals.len() == 0,
            r@.frames.len() == 0,
            r.mock_block == mock_block,
    {
        MyBackend { state: AccountState::empty(), frames: Vec::new(), mock_block }
    }

    /// `push_substate`: opens a nested scope; everything mutated from
    /// now on can be undone by popping with `Revert` or `Discard`.
    pub fn push_substate(&mut self)
        requires
            old(self)@.wf(),
        ensures
            final(self)@.wf(),
            final(self)@ == old(self)@.spec_push(),
    {
        let snap = clone_state(&self.state);
        self.frames.push(snap);
        proof {
            assert(final(self)@ =~~= old(self)@.spec_push());
        }
    }

    /// `pop_substate`: closes the innermost scope. Popping with no
    /// scope open is a caller-protocol violation and excluded by
    /// contract; nothing here panics.
    pub fn pop_substate(&mut self, strategy: MergeStrategy)
        requires
            old(self)@.wf(),
            old(self)@.frames.len() > 0,
        ensures
            final(self)@.wf(),
            final(self)@ == old(self)@.spec_pop(strategy),
    {
        let snap = self.frames.pop().unwrap();
        match strategy {
            MergeStrategy::Commit => {
                proof {
                    assert(final(self)@ =~~= old(self)@.spec_pop(strategy));
                }
            },
            MergeStrategy::Revert => {
                self.state = snap;
                proof {
                    assert(final(self)@ =~~= old(self)@.spec_pop(strategy));
                }
            },
            MergeStrategy::Discard => {
                self.state = snap;
                proof {
                    assert(final(self)@ =~~= old(self)@.spec_pop(strategy));
                }
            },
        }
    }

    /// The number of open substate scopes.
    pub fn substate_depth(&self) -> (r: usize)
        ensures
            r == self@.frames.len(),
    {
        self.frames.len()
    }

    /// The balance of `a`; zero for absent addresses. Never fails.
    pub fn balance(&self, a: Address) -> (r: W256)
        requires
            self@.wf(),
        ensures
            r.as_nat() == self@.state.balance_of(a),
    {
        self.state.balance(a)
    }

    /// The code of `a`; empty for absent addresses. Never fails.
    pub fn code(&self, a: Address) -> (r: Vec<u8>)
        requires
            self@.wf(),
        ensures
            r@ == self@.state.code_of(a),
    {
        self.state.code(a)
    }

    /// The storage word of `a` under `k`; the zero word for unknown
    /// addresses and unknown keys. Never fails.
    pub fn storage(&self, a: Address, k: W256) -> (r: W256)
        requires
            self@.wf(),
        ensures
            r == self@.state.storage_at(a, k),
    {
        self.state.storage(a, k)
    }

    /// Whether the shell of `a` has been materialized. Never fails.
    pub fn account_exists(&self, a: Address) -> (r: bool)
        requires
            self@.wf(),
        ensures
            r == self@.state.has_account(a),
    {
        self.state.account_exists(a)
    }

    /// The nonce of `a`; zero for absent addresses. Never fails.
    pub fn nonce(&self, a: Address) -> (r: W256)
        requires
            self@.wf(),
        ensures
            r.as_nat() == self@.state.nonce_of(a),
    {
        self.state.nonce(a)
    }

    /// The value `(a, k)` held when the enclosing transaction began,
    /// before any substate mutation; used for refund computation.
    pub fn original_storage(&self, a: Address, k: W256) -> (r: W256)
        requires
            self@.wf(),
        ensures
            r == self@.state.original_at(a, k),
    {
        self.state.original_storage(a, k)
    }

    /// Whether `a` is tombstoned; absent addresses are not.
    pub fn deleted(&self, a: Address) -> (r: bool)
        requires
            self@.wf(),
        ensures
            r == self@.state.deleted_of(a),
    {
        self.state.deleted(a)
    }

    /// Whether `a` — or, with `Some(k)`, its storage key `k` — has not
    /// been touched yet in this transaction.
    pub fn is_cold(&self, a: Address, k: Option<W256>) -> (r: bool)
        requires
            self@.wf(),
        ensures
            r == self@.state.is_cold(a, k),
    {
        self.state.is_cold(a, k)
    }

    /// `mark_hot`: warms the address (or one of its storage keys); a
    /// no-op for absent addresses. Never fails.
    pub fn mark_hot(&mut self, a: Address, k: Option<W256>)
        requires
            old(self)@.wf(),
        ensures
            final(self)@.wf(),
            final(self)@ == old(self)@.with_state(old(self)@.state.spec_mark_hot(a, k)),
    {
        self.state.mark_hot(a, k);
        proof {
            assert(final(self)@ =~~= old(self)@.with_state(old(self)@.state.spec_mark_hot(a, k)));
        }
    }

    /// `set_storage`: fails with `AccountNotFound` — a fatal protocol
    /// violation — exactly when the shell does not exist; otherwise
    /// writes the slot, recording its pre-transaction value on first
    /// write.
    pub fn set_storage(&mut self, a: Address, k: W256, v: W256) -> (r: Result<(), Fault>)
        requires
            old(self)@.wf(),
        ensures
            final(self)@.wf(),
            match r {
                Ok(()) => old(self)@.state.has_account(a) && final(self)@ == old(
                    self,
                )@.with_state(old(self)@.state.spec_set_storage(a, k, v)),
                Err(f) => f == Fault::AccountNotFound && !old(self)@.state.has_account(a)
                    && final(self)@ == old(self)@,
            },
    {
        let r = self.state.set_storage(a, k, v);
        proof {
            if r is Ok {
                assert(final(self)@ =~~= old(self)@.with_state(
                    old(self)@.state.spec_set_storage(a, k, v),
                ));
            } else {
                assert(final(self)@ =~~= old(self)@);
            }
        }
        r
    }

    /// `log`: appends one record (at most four topics) to the
    /// append-only log sequence. Always succeeds.
    pub fn log(&mut self, l: LogRecord) -> (r: Result<(), Fault>)
        requires
            old(self)@.wf(),
            l@.topics.len() <= 4,
        ensures
            final(self)@.wf(),
            r == Ok::<(), Fault>(()),
            final(self)@ == old(self)@.with_state(old(self)@.state.spec_log(l@)),
    {
        let ghost pre = self@;
        let r = self.state.log(l);
        proof {
            assert(final(self)@ =~~= pre.with_state(pre.state.spec_log(l@)));
        }
        r
    }

    /// `mark_delete`: tombstones the account; a no-op for absent
    /// addresses. Never fails.
    pub fn mark_delete(&mut self, a: Address)
        requires
            old(self)@.wf(),
        ensures
            final(self)@.wf(),
            final(self)@ == old(self)@.with_state(old(self)@.state.spec_mark_delete(a)),
    {
        self.state.mark_delete(a);
        proof {
            assert(final(self)@ =~~= old(self)@.with_state(old(self)@.state.spec_mark_delete(a)));
        }
    }

    /// `reset_storage`: clears the account's storage without removing
    /// the shell; a no-op for absent addresses. Never fails.
    pub fn reset_storage(&mut self, a: Address)
        requires
            old(self)@.wf(),
        ensures
            final(self)@.wf(),
            final(self)@ == old(self)@.with_state(old(self)@.state.spec_reset_storage(a)),
    {
        self.state.reset_storage(a);
        proof {
            assert(final(self)@ =~~= old(self)@.with_state(old(self)@.state.spec_reset_storage(a)));
        }
    }

    /// `set_code`: fails with `AccountNotFound` — a fatal protocol
    /// violation — exactly when the shell does not exist; otherwise
    /// replaces the account's code.
    pub fn set_code(&mut self, a: Address, code: Vec<u8>) -> (r: Result<(), Fault>)
        requires
            old(self)@.wf(),
        ensures
            final(self)@.wf(),
            match r {
                Ok(()) => old(self)@.state.has_account(a) && final(self)@ == old(
                    self,
                )@.with_state(old(self)@.state.spec_set_code(a, code@)),
                Err(f) => f == Fault::AccountNotFound && !old(self)@.state.has_account(a)
                    && final(self)@ == old(self)@,
            },
    {
        let r = self.state.set_code(a, code);
        proof {
            if r is Ok {
                assert(final(self)@ =~~= old(self)@.with_state(
                    old(self)@.state.spec_set_code(a, code@),
                ));
            } else {
                assert(final(self)@ =~~= old(self)@);
            }
        }
        r
    }

    /// `reset_balance`: zeroes the account's balance without removing
    /// the shell; a no-op for absent addresses. Never fails.
    pub fn reset_balance(&mut self, a: Address)
        requires
            old(self)@.wf(),
        ensures
            final(self)@.wf(),
            final(self)@ == old(self)@.with_state(old(self)@.state.spec_reset_balance(a)),
    {
        self.state.reset_balance(a);
        proof {
            assert(final(self)@ =~~= old(self)@.with_state(old(self)@.state.spec_reset_balance(a)));
        }
    }

    /// `deposit`: creates the account shell if absent, adds the amount
    /// to the balance (saturating at the largest word). Always
    /// succeeds.
    pub fn deposit(&mut self, a: Address, v: W256)
        requires
            old(self)@.wf(),
        ensures
            final(self)@.wf(),
            final(self)@ == old(self)@.with_state(old(self)@.state.spec_deposit(a, v.as_nat())),
    {
        self.state.deposit(a, v);
        proof {
            assert(final(self)@ =~~= old(self)@.with_state(
                old(self)@.state.spec_deposit(a, v.as_nat()),
            ));
        }
    }

    /// `withdrawal`: fails with `InsufficientFunds`, leaving the
    /// ledger unchanged, exactly when the amount exceeds the balance;
    /// otherwise subtracts.
    pub fn withdrawal(&mut self, a: Address, v: W256) -> (r: Result<(), Fault>)
        requires
            old(self)@.wf(),
        ensures
            final(self)@.wf(),
            match r {
                Ok(()) => v.as_nat() <= old(self)@.state.balance_of(a) && final(self)@ == old(
                    self,
                )@.with_state(old(self)@.state.spec_withdraw(a, v.as_nat())),
                Err(f) => f == Fault::InsufficientFunds && v.as_nat() > old(
                    self,
                )@.state.balance_of(a) && final(self)@ == old(self)@,
            },
    {
        let r = self.state.withdrawal(a, v);
        proof {
            if r is Ok {
                assert(final(self)@ =~~= old(self)@.with_state(
                    old(self)@.state.spec_withdraw(a, v.as_nat()),
                ));
            } else {
                assert(final(self)@ =~~= old(self)@);
            }
        }
        r
    }

    /// `inc_nonce`: fails with `AccountNotFound` — a fatal protocol
    /// violation — exactly when the shell does not exist; otherwise
    /// the nonce grows by one.
    pub fn inc_nonce(&mut self, a: Address) -> (r: Result<(), Fault>)
        requires
            old(self)@.wf(),
        ensures
            final(self)@.wf(),
            match r {
                Ok(()) => old(self)@.state.has_account(a) && final(self)@ == old(
                    self,
                )@.with_state(old(self)@.state.spec_inc_nonce(a)) && final(self)@.state.nonce_of(a)
                    == StateV::add_clamped(old(self)@.state.nonce_of(a), 1),
                Err(f) => f == Fault::AccountNotFound && !old(self)@.state.has_account(a)
                    && final(self)@ == old(self)@,
            },
    {
        let r = self.state.inc_nonce(a);
        proof {
            if r is Ok {
                assert(final(self)@ =~~= old(self)@.with_state(
                    old(self)@.state.spec_inc_nonce(a),
                ));
            } else {
                assert(final(self)@ =~~= old(self)@);
            }
        }
        r
    }

    /// `set_nonce`: fails with `AccountNotFound` exactly when the
    /// shell does not exist; otherwise writes an absolute nonce. Used
    /// when the interpreter's final account-change set is applied.
    pub(crate) fn set_nonce(&mut self, a: Address, n: W256) -> (r: Result<(), Fault>)
        requires
            old(self)@.wf(),
        ensures
            final(self)@.wf(),
            match r {
                Ok(()) => old(self)@.state.has_account(a) && final(self)@ == old(
                    self,
                )@.with_state(old(self)@.state.spec_set_nonce(a, n.as_nat())),
                Err(f) => f == Fault::AccountNotFound && !old(self)@.state.has_account(a)
                    && final(self)@ == old(self)@,
            },
    {
        let r = self.state.set_nonce(a, n);
        proof {
            if r is Ok {
                assert(final(self)@ =~~= old(self)@.with_state(
                    old(self)@.state.spec_set_nonce(a, n.as_nat()),
                ));
            } else {
                assert(final(self)@ =~~= old(self)@);
            }
        }
        r
    }

    /// `begin_transaction`: marks the present state as the start of
    /// the enclosing transaction for `original_storage`.
    pub fn begin_transaction(&mut self)
        requires
            old(self)@.wf(),
        ensures
            final(self)@.wf(),
            final(self)@ == old(self)@.with_state(old(self)@.state.spec_begin_transaction()),
    {
        self.state.begin_transaction();
        proof {
            assert(final(self)@ =~~= old(self)@.with_state(
                old(self)@.state.spec_begin_transaction(),
            ));
        }
    }

    /// The environment's block hash; this mock environment reports one
    /// fixed hash whatever the queried number.
    pub fn block_hash(&self, _number: W256) -> (r: W256)
        ensures
            r == self.mock_block.block_hash,
    {
        self.mock_block.block_hash
    }

    /// The environment's block number.
    pub fn block_number(&self) -> (r: W256)
        ensures
            r == self.mock_block.block_number,
    {
        self.mock_block.block_number
    }

    /// The environment's coinbase address.
    pub fn block_coinbase(&self) -> (r: Address)
        ensures
            r == self.mock_block.block_coinbase,
    {
        self.mock_block.block_coinbase
    }

    /// The environment's timestamp.
    pub fn block_timestamp(&self) -> (r: W256)
        ensures
            r == self.mock_block.block_timestamp,
    {
        self.mock_block.block_timestamp
    }

    /// The environment's difficulty.
    pub fn block_difficulty(&self) -> (r: W256)
        ensures
            r == self.mock_block.block_difficulty,
    {
        self.mock_block.block_difficulty
    }

    /// The environment's randomness beacon, if any.
    pub fn block_randomness(&self) -> (r: Option<W256>)
        ensures
            r == self.mock_block.block_randomness,
    {
        self.mock_block.block_randomness
    }

    /// The environment's gas limit.
    pub fn block_gas_limit(&self) -> (r: W256)
        ensures
            r == self.mock_block.block_gas_limit,
    {
        self.mock_block.block_gas_limit
    }

    /// The environment's base fee per gas.
    pub fn block_base_fee_per_gas(&self) -> (r: W256)
        ensures
            r == self.mock_block.block_base_fee_per_gas,
    {
        self.mock_block.block_base_fee_per_gas
    }

    /// The environment's chain id.
    pub fn chain_id(&self) -> (r: W256)
        ensures
            r == self.mock_block.chain_id,
    {
        self.mock_block.chain_id
    }
}

} // verus!
