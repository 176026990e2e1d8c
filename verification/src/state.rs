//! The account store: an authoritative in-memory ledger of accounts
//! (balance, nonce, code, storage, access coldness), emitted logs, and
//! the record of pre-transaction storage values.
//!
//! The store is a vector of accounts with pairwise distinct addresses.
//! Absent addresses read as an implicit zero account; they are
//! materialized on first mutation. Deletion is a tombstone: the account
//! keeps its shell and balance, loses code and storage, and is flagged
//! deleted (finalizing tombstones at a transaction boundary is outside
//! this store).

use vstd::prelude::*;

use crate::errors::Fault;
use crate::words::{pow256, Address, W256};

verus! {

/// One storage slot of an account.
#[derive(Clone, Copy, PartialEq, Eq, Structural, Debug)]
pub struct StorageSlot {
    pub key: W256,
    pub value: W256,
}

/// The value one storage slot held when the enclosing transaction
/// began, recorded on the slot's first write.
#[derive(Clone, Copy, PartialEq, Eq, Structural, Debug)]
pub struct OriginalSlot {
    pub address: Address,
    pub key: W256,
    pub value: W256,
}

/// One log record emitted during execution: the emitting address, up
/// to four topic words, and opaque data bytes.
#[derive(Debug)]
pub struct LogRecord {
    pub address: Address,
    pub topics: Vec<W256>,
    pub data: Vec<u8>,
}

/// The abstract value of a [`LogRecord`].
#[verifier::ext_equal]
pub struct LogV {
    pub address: Address,
    pub topics: Seq<W256>,
    pub data: Seq<u8>,
}

impl View for LogRecord {
    type V = LogV;

    open spec fn view(&self) -> LogV {
        LogV { address: self.address, topics: self.topics@, data: self.data@ }
    }
}

/// One nested execution context entered during a run: the call's
/// destination, gas allowance, transferred value, and input data.
#[derive(Debug)]
pub struct CallContext {
    pub destination: Address,
    pub gas_limit: W256,
    pub value: W256,
    pub data: Vec<u8>,
}

/// One entry of the interpreter's final account-change set, applied
/// into the store once a run succeeds.
#[derive(Debug)]
pub enum AccountChange {
    /// The account's absolute balance, nonce and code, plus the
    /// storage slots that changed.
    Full {
        address: Address,
        balance: W256,
        nonce: W256,
        code: Vec<u8>,
        changing_storage: Vec<StorageSlot>,
    },
    /// A newly created account with its full storage.
    Create {
        address: Address,
        balance: W256,
        nonce: W256,
        code: Vec<u8>,
        storage: Vec<StorageSlot>,
    },
    /// Only the balance grew, by the given amount.
    IncreaseBalance { address: Address, amount: W256 },
    /// The account ends the run nonexistent: it is tombstoned and
    /// its balance cleared.
    Nonexist(Address),
}

/// One account of the ledger.
#[derive(Debug)]
pub struct Account {
    pub address: Address,
    pub balance: W256,
    pub nonce: W256,
    pub code: Vec<u8>,
    pub storage: Vec<StorageSlot>,
    /// Whether the address itself has not yet been touched in this
    /// transaction.
    pub cold: bool,
    /// The storage keys touched in this transaction; per-key coldness
    /// is independent of the address's own coldness.
    pub warm_keys: Vec<W256>,
    /// The tombstone left by `mark_delete`.
    pub deleted: bool,
}

/// The abstract value of an [`Account`]: balance and nonce as
/// mathematical integers, code as a byte sequence, storage as a
/// sequence of key-distinct slots.
#[verifier::ext_equal]
pub struct AccountV {
    pub address: Address,
    pub balance: nat,
    pub nonce: nat,
    pub code: Seq<u8>,
    pub storage: Seq<StorageSlot>,
    pub cold: bool,
    pub warm_keys: Seq<W256>,
    pub deleted: bool,
}

impl View for Account {
    type V = AccountV;

    open spec fn view(&self) -> AccountV {
        AccountV {
            address: self.address,
            balance: self.balance.as_nat(),
            nonce: self.nonce.as_nat(),
            code: self.code@,
            storage: self.storage@,
            cold: self.cold,
            warm_keys: self.warm_keys@,
            deleted: self.deleted,
        }
    }
}

/// The implicit value of an address that was never materialized.
pub open spec fn zero_account(a: Address) -> AccountV {
    AccountV {
        address: a,
        balance: 0,
        nonce: 0,
        code: Seq::empty(),
        storage: Seq::empty(),
        cold: true,
        warm_keys: Seq::empty(),
        deleted: false,
    }
}

/// Whether some slot of `st` has key `k`.
pub open spec fn has_slot(st: Seq<StorageSlot>, k: W256) -> bool {
    exists|i: int| 0 <= i < st.len() && st[i].key == k
}

/// The index of the slot with key `k`; meaningful only under
/// [`has_slot`] and slot-key uniqueness.
pub open spec fn slot_idx(st: Seq<StorageSlot>, k: W256) -> int {
    choose|i: int| 0 <= i < st.len() && st[i].key == k
}

/// The value stored under `k`, or the zero word when no slot has it.
pub open spec fn slot_value(st: Seq<StorageSlot>, k: W256) -> W256 {
    if has_slot(st, k) {
        st[slot_idx(st, k)].value
    } else {
        W256::spec_zero()
    }
}

/// Whether the slot keys of `st` are pairwise distinct.
pub open spec fn slots_unique(st: Seq<StorageSlot>) -> bool {
    forall|i: int, j: int| 0 <= i < j < st.len() ==> st[i].key != st[j].key
}

/// Whether `w` contains the key `k`.
pub open spec fn warm_contains(w: Seq<W256>, k: W256) -> bool {
    exists|i: int| 0 <= i < w.len() && w[i] == k
}

/// The store's authoritative contents.
#[derive(Debug)]
pub struct AccountState {
    pub accounts: Vec<Account>,
    pub logs: Vec<LogRecord>,
    pub originals: Vec<OriginalSlot>,
}

/// The abstract value of an [`AccountState`].
#[verifier::ext_equal]
pub struct StateV {
    pub accounts: Seq<AccountV>,
    pub logs: Seq<LogV>,
    pub originals: Seq<OriginalSlot>,
}

impl View for AccountState {
    type V = StateV;

    open spec fn view(&self) -> StateV {
        StateV {
            accounts: self.accounts@.map_values(|a: Account| a@),
            logs: self.logs@.map_values(|l: LogRecord| l@),
            originals: self.originals@,
        }
    }
}

/// Whether some account of `accts` has address `a`.
pub open spec fn accounts_has(accts: Seq<AccountV>, a: Address) -> bool {
    exists|i: int| 0 <= i < accts.len() && accts[i].address == a
}

/// The index of `a`'s account in `accts`; meaningful only under
/// [`accounts_has`] and address uniqueness.
pub open spec fn accounts_idx(accts: Seq<AccountV>, a: Address) -> int {
    choose|i: int| 0 <= i < accts.len() && accts[i].address == a
}

/// Whether some original-value record of `origs` covers `(a, k)`.
pub open spec fn originals_has(origs: Seq<OriginalSlot>, a: Address, k: W256) -> bool {
    exists|i: int| 0 <= i < origs.len() && origs[i].address == a && origs[i].key == k
}

/// The index of that record; meaningful only under
/// [`originals_has`] and pair uniqueness.
pub open spec fn originals_idx(origs: Seq<OriginalSlot>, a: Address, k: W256) -> int {
    choose|i: int| 0 <= i < origs.len() && origs[i].address == a && origs[i].key == k
}

impl StateV {
    /// Whether an account shell for `a` has been materialized.
    pub open spec fn has_account(self, a: Address) -> bool {
        accounts_has(self.accounts, a)
    }

    /// The index of `a`'s account; meaningful only under
    /// [`StateV::has_account`] and well-formedness.
    pub open spec fn idx_of(self, a: Address) -> int {
        accounts_idx(self.accounts, a)
    }

    /// The account recorded for `a`, or the implicit zero account.
    pub open spec fn account_or_zero(self, a: Address) -> AccountV {
        if self.has_account(a) {
            self.accounts[self.idx_of(a)]
        } else {
            zero_account(a)
        }
    }

    /// The balance of `a`; zero for absent addresses.
    pub open spec fn balance_of(self, a: Address) -> nat {
        self.account_or_zero(a).balance
    }

    /// The nonce of `a`; zero for absent addresses.
    pub open spec fn nonce_of(self, a: Address) -> nat {
        self.account_or_zero(a).nonce
    }

    /// The code of `a`; empty for absent addresses.
    pub open spec fn code_of(self, a: Address) -> Seq<u8> {
        self.account_or_zero(a).code
    }

    /// The current storage word of `a` under `k`; zero when absent.
    pub open spec fn storage_at(self, a: Address, k: W256) -> W256 {
        slot_value(self.account_or_zero(a).storage, k)
    }

    /// Whether `a` is tombstoned.
    pub open spec fn deleted_of(self, a: Address) -> bool {
        self.account_or_zero(a).deleted
    }

    /// First-touch-in-transaction state: an address, or one of its
    /// storage keys, is cold until marked hot. Absent addresses are
    /// cold.
    pub open spec fn is_cold(self, a: Address, k: Option<W256>) -> bool {
        match k {
            Option::None => self.account_or_zero(a).cold,
            Option::Some(key) => !warm_contains(self.account_or_zero(a).warm_keys, key),
        }
    }

    /// Whether the pre-transaction value of `(a, k)` has been recorded.
    pub open spec fn has_original(self, a: Address, k: W256) -> bool {
        originals_has(self.originals, a, k)
    }

    /// The index of that record; meaningful only under
    /// [`StateV::has_original`] and well-formedness.
    pub open spec fn original_idx(self, a: Address, k: W256) -> int {
        originals_idx(self.originals, a, k)
    }

    /// The value `(a, k)` held when the enclosing transaction began: the
    /// recorded pre-write value if the slot has been written, else the
    /// never-written slot's current value.
    pub open spec fn original_at(self, a: Address, k: W256) -> W256 {
        if self.has_original(a, k) {
            self.originals[self.original_idx(a, k)].value
        } else {
            self.storage_at(a, k)
        }
    }

    /// Well-formedness: addresses pairwise distinct, each account's
    /// slot keys pairwise distinct, the original-value records keyed by
    /// pairwise distinct (address, key) pairs, and each log carrying at
    /// most four topics.
    pub open spec fn wf(self) -> bool {
        &&& forall|i: int, j: int|
            0 <= i < j < self.accounts.len() ==> self.accounts[i].address
                != self.accounts[j].address
        &&& forall|i: int| 0 <= i < self.accounts.len() ==> slots_unique(#[trigger] self.accounts[i].storage)
        &&& forall|i: int, j: int|
            0 <= i < j < self.originals.len() ==> !(self.originals[i].address
                == self.originals[j].address && self.originals[i].key == self.originals[j].key)
        &&& forall|i: int| 0 <= i < self.logs.len() ==> (#[trigger] self.logs[i].topics).len() <= 4
    }

    /// Under address uniqueness, any index holding `a` is the index
    /// `idx_of` picks.
    pub proof fn lemma_idx_of(self, a: Address, i: int)
        requires
            forall|p: int, q: int|
                0 <= p < q < self.accounts.len() ==> self.accounts[p].address
                    != self.accounts[q].address,
            0 <= i < self.accounts.len(),
            self.accounts[i].address == a,
        ensures
            self.has_account(a),
            self.idx_of(a) == i,
    {
        let j = self.idx_of(a);
        if i != j {
            assert(self.accounts[i].address != self.accounts[j].address);
        }
    }

}

/// Under key uniqueness, any index holding `k` is the index
/// `slot_idx` picks.
pub proof fn lemma_slot_idx(st: Seq<StorageSlot>, k: W256, i: int)
    requires
        slots_unique(st),
        0 <= i < st.len(),
        st[i].key == k,
    ensures
        has_slot(st, k),
        slot_idx(st, k) == i,
{
    let j = slot_idx(st, k);
    if i != j {
        assert(st[i].key != st[j].key);
    }
}

/// Under pair uniqueness, any index holding `(a, k)` is the index
/// `original_idx` picks.
pub proof fn lemma_original_idx(s: StateV, a: Address, k: W256, i: int)
    requires
        s.wf(),
        0 <= i < s.originals.len(),
        s.originals[i].address == a,
        s.originals[i].key == k,
    ensures
        s.has_original(a, k),
        s.original_idx(a, k) == i,
{
    let j = s.original_idx(a, k);
    if i != j {
        assert(!(s.originals[i].address == s.originals[j].address && s.originals[i].key
            == s.originals[j].key));
    }
}

impl StateV {
    /// The balance `b + v` would leave, saturating at the largest
    /// representable word.
    pub open spec fn add_clamped(b: nat, v: nat) -> nat {
        if b + v < pow256() {
            (b + v) as nat
        } else {
            (pow256() - 1) as nat
        }
    }

    /// `deposit`: creates the account shell if absent, adds the amount
    /// to the balance.
    pub open spec fn spec_deposit(self, a: Address, v: nat) -> StateV {
        if self.has_account(a) {
            let i = self.idx_of(a);
            let acct = self.accounts[i];
            StateV {
                accounts: self.accounts.update(
                    i,
                    AccountV { balance: Self::add_clamped(acct.balance, v), ..acct },
                ),
                ..self
            }
        } else {
            StateV {
                accounts: self.accounts.push(
                    AccountV { balance: Self::add_clamped(0, v), ..zero_account(a) },
                ),
                ..self
            }
        }
    }

    /// `withdrawal` on success: subtracts from the balance,
    /// materializing the shell of an absent address first. Meaningful
    /// only when `v <= self.balance_of(a)`.
    pub open spec fn spec_withdraw(self, a: Address, v: nat) -> StateV {
        if self.has_account(a) {
            let i = self.idx_of(a);
            let acct = self.accounts[i];
            StateV {
                accounts: self.accounts.update(
                    i,
                    AccountV { balance: (acct.balance - v) as nat, ..acct },
                ),
                ..self
            }
        } else {
            StateV { accounts: self.accounts.push(zero_account(a)), ..self }
        }
    }

    /// `inc_nonce` on success: the nonce grows by one, saturating at
    /// the largest representable word. Meaningful only when the shell
    /// exists.
    pub open spec fn spec_inc_nonce(self, a: Address) -> StateV {
        let i = self.idx_of(a);
        let acct = self.accounts[i];
        StateV {
            accounts: self.accounts.update(
                i,
                AccountV { nonce: Self::add_clamped(acct.nonce, 1), ..acct },
            ),
            ..self
        }
    }

    /// `set_storage` on success: the slot under `k` takes `v`, and the
    /// slot's pre-transaction value is recorded if this is its first
    /// write. Meaningful only when the shell exists.
    pub open spec fn spec_set_storage(self, a: Address, k: W256, v: W256) -> StateV {
        let i = self.idx_of(a);
        let acct = self.accounts[i];
        let st = acct.storage;
        let st2 = if has_slot(st, k) {
            st.update(slot_idx(st, k), StorageSlot { key: k, value: v })
        } else {
            st.push(StorageSlot { key: k, value: v })
        };
        let origs2 = if self.has_original(a, k) {
            self.originals
        } else {
            self.originals.push(OriginalSlot { address: a, key: k, value: slot_value(st, k) })
        };
        StateV {
            accounts: self.accounts.update(i, AccountV { storage: st2, ..acct }),
            originals: origs2,
            ..self
        }
    }

    /// `set_code` on success: the account's code becomes `code`.
    /// Meaningful only when the shell exists.
    pub open spec fn spec_set_code(self, a: Address, code: Seq<u8>) -> StateV {
        let i = self.idx_of(a);
        let acct = self.accounts[i];
        StateV { accounts: self.accounts.update(i, AccountV { code: code, ..acct }), ..self }
    }

    /// `reset_storage`: clears the account's storage without removing
    /// the shell; a no-op for absent addresses.
    pub open spec fn spec_reset_storage(self, a: Address) -> StateV {
        if self.has_account(a) {
            let i = self.idx_of(a);
            let acct = self.accounts[i];
            StateV {
                accounts: self.accounts.update(i, AccountV { storage: Seq::empty(), ..acct }),
                ..self
            }
        } else {
            self
        }
    }

    /// `reset_balance`: zeroes the account's balance without removing
    /// the shell; a no-op for absent addresses.
    pub open spec fn spec_reset_balance(self, a: Address) -> StateV {
        if self.has_account(a) {
            let i = self.idx_of(a);
            let acct = self.accounts[i];
            StateV { accounts: self.accounts.update(i, AccountV { balance: 0, ..acct }), ..self }
        } else {
            self
        }
    }

    /// `mark_delete`: tombstones the account — code and storage gone,
    /// the deleted flag set, the shell kept; a no-op for absent
    /// addresses.
    pub open spec fn spec_mark_delete(self, a: Address) -> StateV {
        if self.has_account(a) {
            let i = self.idx_of(a);
            let acct = self.accounts[i];
            StateV {
                accounts: self.accounts.update(
                    i,
                    AccountV { code: Seq::empty(), storage: Seq::empty(), deleted: true, ..acct },
                ),
                ..self
            }
        } else {
            self
        }
    }

    /// `mark_hot`: warms the address, or one of its storage keys;
    /// coldness only ever transitions cold to warm. A no-op for absent
    /// addresses.
    pub open spec fn spec_mark_hot(self, a: Address, k: Option<W256>) -> StateV {
        if self.has_account(a) {
            let i = self.idx_of(a);
            let acct = self.accounts[i];
            match k {
                Option::None => StateV {
                    accounts: self.accounts.update(i, AccountV { cold: false, ..acct }),
                    ..self
                },
                Option::Some(key) => if warm_contains(acct.warm_keys, key) {
                    self
                } else {
                    StateV {
                        accounts: self.accounts.update(
                            i,
                            AccountV { warm_keys: acct.warm_keys.push(key), ..acct },
                        ),
                        ..self
                    }
                },
            }
        } else {
            self
        }
    }

    /// `set_nonce` on success: the nonce takes an absolute value, as
    /// reported in the interpreter's final account-change set.
    /// Meaningful only when the shell exists.
    pub open spec fn spec_set_nonce(self, a: Address, n: nat) -> StateV {
        let i = self.idx_of(a);
        let acct = self.accounts[i];
        StateV { accounts: self.accounts.update(i, AccountV { nonce: n, ..acct }), ..self }
    }

    /// `log`: appends one record to the append-only log sequence.
    pub open spec fn spec_log(self, l: LogV) -> StateV {
        StateV { logs: self.logs.push(l), ..self }
    }

    /// `begin_transaction`: forgets the recorded pre-transaction
    /// values, so that `original_at` reads the state as it stands now.
    pub open spec fn spec_begin_transaction(self) -> StateV {
        StateV { originals: Seq::empty(), ..self }
    }
}

/// A copy of a vector of plain values, element for element.
pub fn clone_vec_copy<T: Copy>(v: &Vec<T>) -> (r: Vec<T>)
    ensures
        r@ == v@,
{
    let n = v.len();
    let mut r: Vec<T> = Vec::new();
    let mut i: usize = 0;
    while i < n
        invariant
            n == v@.len(),
            i <= n,
            r@.len() == i,
            forall|j: int| 0 <= j < i ==> r@[j] == v@[j],
        decreases n - i,
    {
        r.push(v[i]);
        i = i + 1;
    }
    proof {
        assert(r@ =~= v@);
    }
    r
}

/// The index of the slot with key `k`, if one exists.
fn find_slot(st: &Vec<StorageSlot>, k: W256) -> (r: Option<usize>)
    ensures
        match r {
            Option::Some(i) => i < st@.len() && st@[i as int].key == k,
            Option::None => !has_slot(st@, k),
        },
{
    let n = st.len();
    let mut i: usize = 0;
    while i < n
        invariant
            n == st@.len(),
            i <= n,
            forall|j: int| 0 <= j < i ==> st@[j].key != k,
        decreases n - i,
    {
        if st[i].key == k {
            return Some(i);
        }
        i = i + 1;
    }
    None
}

/// The index of the pre-transaction record for `(a, k)`, if one
/// exists.
fn find_original(origs: &Vec<OriginalSlot>, a: Address, k: W256) -> (r: Option<usize>)
    ensures
        match r {
            Option::Some(i) => i < origs@.len() && origs@[i as int].address == a
                && origs@[i as int].key == k,
            Option::None => forall|j: int|
                0 <= j < origs@.len() ==> !(origs@[j].address == a && origs@[j].key == k),
        },
{
    let n = origs.len();
    let mut i: usize = 0;
    while i < n
        invariant
            n == origs@.len(),
            i <= n,
            forall|j: int| 0 <= j < i ==> !(origs@[j].address == a && origs@[j].key == k),
        decreases n - i,
    {
        if origs[i].address == a && origs[i].key == k {
            return Some(i);
        }
        i = i + 1;
    }
    None
}

/// Whether `w` holds the key `k`.
fn find_warm(w: &Vec<W256>, k: W256) -> (r: bool)
    ensures
        r == warm_contains(w@, k),
{
    let n = w.len();
    let mut i: usize = 0;
    while i < n
        invariant
            n == w@.len(),
            i <= n,
            forall|j: int| 0 <= j < i ==> w@[j] != k,
        decreases n - i,
    {
        if w[i] == k {
            return true;
        }
        i = i + 1;
    }
    false
}

impl AccountState {
    /// A store with no accounts, no logs, and no recorded originals.
    pub fn empty() -> (r: AccountState)
        ensures
            r@.accounts.len() == 0,
            r@.logs.len() == 0,
            r@.originals.len() == 0,
            r@.wf(),
    {
        AccountState { accounts: Vec::new(), logs: Vec::new(), originals: Vec::new() }
    }

    /// The index of `a`'s account, if its shell exists.
    pub fn find_account(&self, a: Address) -> (r: Option<usize>)
        ensures
            match r {
                Option::Some(i) => i < self.accounts@.len() && self@.accounts[i as int].address
                    == a,
                Option::None => !self@.has_account(a),
            },
    {
        let n = self.accounts.len();
        let mut i: usize = 0;
        while i < n
            invariant
                n == self.accounts@.len(),
                i <= n,
                forall|j: int| 0 <= j < i ==> self@.accounts[j].address != a,
            decreases n - i,
        {
            if self.accounts[i].address == a {
                return Some(i);
            }
            i = i + 1;
        }
        None
    }

    /// The balance of `a`; zero for absent addresses. Never fails.
    pub fn balance(&self, a: Address) -> (r: W256)
        requires
            self@.wf(),
        ensures
            r.as_nat() == self@.balance_of(a),
    {
        match self.find_account(a) {
            Some(i) => {
                proof {
                    self@.lemma_idx_of(a, i as int);
                }
                self.accounts[i].balance
            },
            None => W256::zero(),
        }
    }

    /// The nonce of `a`; zero for absent addresses. Never fails.
    pub fn nonce(&self, a: Address) -> (r: W256)
        requires
            self@.wf(),
        ensures
            r.as_nat() == self@.nonce_of(a),
    {
        match self.find_account(a) {
            Some(i) => {
                proof {
                    self@.lemma_idx_of(a, i as int);
                }
                self.accounts[i].nonce
            },
            None => W256::zero(),
        }
    }

    /// Whether the shell of `a` has been materialized. Never fails.
    pub fn account_exists(&self, a: Address) -> (r: bool)
        requires
            self@.wf(),
        ensures
            r == self@.has_account(a),
    {
        match self.find_account(a) {
            Some(i) => {
                proof {
                    self@.lemma_idx_of(a, i as int);
                }
                true
            },
            None => false,
        }
    }

    /// `deposit`: creates the account shell if absent, adds the amount
    /// to the balance (saturating at the largest word). Always
    /// succeeds.
    pub fn deposit(&mut self, a: Address, v: W256)
        requires
            old(self)@.wf(),
        ensures
            final(self)@.wf(),
            final(self)@ == old(self)@.spec_deposit(a, v.as_nat()),
    {
        match self.find_account(a) {
            Some(i) => {
                proof {
                    self@.lemma_idx_of(a, i as int);
                }
                let nb = self.accounts[i].balance.saturating_add(v);
                self.accounts[i].balance = nb;
                proof {
                    assert(final(self)@ =~~= old(self)@.spec_deposit(a, v.as_nat()));
                    lemma_wf_update(old(self)@, final(self)@);
                }
            },
            None => {
                let acct = Account {
                    address: a,
                    balance: v,
                    nonce: W256::zero(),
                    code: Vec::new(),
                    storage: Vec::new(),
                    cold: true,
                    warm_keys: Vec::new(),
                    deleted: false,
                };
                self.accounts.push(acct);
                proof {
                    assert(final(self)@ =~~= old(self)@.spec_deposit(a, v.as_nat()));
                    lemma_wf_push(old(self)@, final(self)@, a);
                }
            },
        }
    }
    /// The code of `a`; empty for absent addresses. Never fails.
    pub fn code(&self, a: Address) -> (r: Vec<u8>)
        requires
            self@.wf(),
        ensures
            r@ == self@.code_of(a),
    {
        match self.find_account(a) {
            Some(i) => {
                proof {
                    self@.lemma_idx_of(a, i as int);
                }
                clone_vec_copy(&self.accounts[i].code)
            },
            None => Vec::new(),
        }
    }

    /// The storage word of `a` under `k`; the zero word for unknown
    /// addresses and unknown keys. Never fails.
    pub fn storage(&self, a: Address, k: W256) -> (r: W256)
        requires
            self@.wf(),
        ensures
            r == self@.storage_at(a, k),
    {
        match self.find_account(a) {
            Some(i) => {
                proof {
                    self@.lemma_idx_of(a, i as int);
                }
                match find_slot(&self.accounts[i].storage, k) {
                    Some(j) => {
                        proof {
                            lemma_slot_idx(self@.accounts[i as int].storage, k, j as int);
                        }
                        self.accounts[i].storage[j].value
                    },
                    None => W256::zero(),
                }
            },
            None => W256::zero(),
        }
    }

    /// The value `(a, k)` held when the enclosing transaction began.
    pub fn original_storage(&self, a: Address, k: W256) -> (r: W256)
        requires
            self@.wf(),
        ensures
            r == self@.original_at(a, k),
    {
        match find_original(&self.originals, a, k) {
            Some(p) => {
                proof {
                    lemma_original_idx(self@, a, k, p as int);
                }
                self.originals[p].value
            },
            None => self.storage(a, k),
        }
    }

    /// Whether `a` is tombstoned; absent addresses are not.
    pub fn deleted(&self, a: Address) -> (r: bool)
        requires
            self@.wf(),
        ensures
            r == self@.deleted_of(a),
    {
        match self.find_account(a) {
            Some(i) => {
                proof {
                    self@.lemma_idx_of(a, i as int);
                }
                self.accounts[i].deleted
            },
            None => false,
        }
    }

    /// Whether `a` — or, with `Some(k)`, its storage key `k` — has not
    /// been touched yet in this transaction. Absent addresses are cold.
    pub fn is_cold(&self, a: Address, k: Option<W256>) -> (r: bool)
        requires
            self@.wf(),
        ensures
            r == self@.is_cold(a, k),
    {
        match self.find_account(a) {
            Some(i) => {
                proof {
                    self@.lemma_idx_of(a, i as int);
                }
                match k {
                    None => self.accounts[i].cold,
                    Some(key) => !find_warm(&self.accounts[i].warm_keys, key),
                }
            },
            None => true,
        }
    }

    /// `withdrawal`: fails with `InsufficientFunds`, leaving the store
    /// unchanged, exactly when the amount exceeds the balance (for an
    /// absent address, the balance reads zero); otherwise subtracts,
    /// materializing an absent shell first.
    pub fn withdrawal(&mut self, a: Address, v: W256) -> (r: Result<(), Fault>)
        requires
            old(self)@.wf(),
        ensures
            final(self)@.wf(),
            match r {
                Ok(()) => v.as_nat() <= old(self)@.balance_of(a)
                    && final(self)@ == old(self)@.spec_withdraw(a, v.as_nat()),
                Err(f) => f == Fault::InsufficientFunds && v.as_nat() > old(self)@.balance_of(a)
                    && final(self)@ == old(self)@,
            },
    {
        match self.find_account(a) {
            Some(i) => {
                proof {
                    self@.lemma_idx_of(a, i as int);
                }
                let b = self.accounts[i].balance;
                if v.le(b) {
                    self.accounts[i].balance = b.sub(v);
                    proof {
                        assert(final(self)@ =~~= old(self)@.spec_withdraw(a, v.as_nat()));
                        lemma_wf_update(old(self)@, final(self)@);
                    }
                    Ok(())
                } else {
                    Err(Fault::InsufficientFunds)
                }
            },
            None => {
                if v.lt(W256::from_u64(1)) {
                    let acct = Account {
                        address: a,
                        balance: W256::zero(),
                        nonce: W256::zero(),
                        code: Vec::new(),
                        storage: Vec::new(),
                        cold: true,
                        warm_keys: Vec::new(),
                        deleted: false,
                    };
                    self.accounts.push(acct);
                    proof {
                        assert(final(self)@ =~~= old(self)@.spec_withdraw(a, v.as_nat()));
                        lemma_wf_push(old(self)@, final(self)@, a);
                    }
                    Ok(())
                } else {
                    Err(Fault::InsufficientFunds)
                }
            },
        }
    }

    /// `inc_nonce`: fails with `AccountNotFound` — a fatal protocol
    /// violation — exactly when the shell does not exist; otherwise the
    /// nonce grows by one (saturating at the largest word).
    pub fn inc_nonce(&mut self, a: Address) -> (r: Result<(), Fault>)
        requires
            old(self)@.wf(),
        ensures
            final(self)@.wf(),
            match r {
                Ok(()) => old(self)@.has_account(a)
                    && final(self)@ == old(self)@.spec_inc_nonce(a)
                    && final(self)@.nonce_of(a) == StateV::add_clamped(old(self)@.nonce_of(a), 1),
                Err(f) => f == Fault::AccountNotFound && !old(self)@.has_account(a)
                    && final(self)@ == old(self)@,
            },
    {
        match self.find_account(a) {
            Some(i) => {
                proof {
                    self@.lemma_idx_of(a, i as int);
                }
                let one = W256::from_u64(1);
                let nn = self.accounts[i].nonce.saturating_add(one);
                self.accounts[i].nonce = nn;
                proof {
                    assert(final(self)@ =~~= old(self)@.spec_inc_nonce(a));
                    lemma_wf_update(old(self)@, final(self)@);
                    final(self)@.lemma_idx_of(a, i as int);
                }
                Ok(())
            },
            None => Err(Fault::AccountNotFound),
        }
    }
    /// `set_storage`: fails with `AccountNotFound` — a fatal protocol
    /// violation — exactly when the shell does not exist; otherwise
    /// writes the slot, recording the slot's pre-transaction value on
    /// its first write.
    pub fn set_storage(&mut self, a: Address, k: W256, v: W256) -> (r: Result<(), Fault>)
        requires
            old(self)@.wf(),
        ensures
            final(self)@.wf(),
            match r {
                Ok(()) => old(self)@.has_account(a)
                    && final(self)@ == old(self)@.spec_set_storage(a, k, v),
                Err(f) => f == Fault::AccountNotFound && !old(self)@.has_account(a)
                    && final(self)@ == old(self)@,
            },
    {
        let idx = match self.find_account(a) {
            Some(i) => i,
            None => {
                return Err(Fault::AccountNotFound);
            },
        };
        proof {
            self@.lemma_idx_of(a, idx as int);
        }
        let slot_pos = find_slot(&self.accounts[idx].storage, k);
        let prior = match slot_pos {
            Some(j) => {
                proof {
                    lemma_slot_idx(self@.accounts[idx as int].storage, k, j as int);
                }
                self.accounts[idx].storage[j].value
            },
            None => W256::zero(),
        };
        proof {
            assert(prior == slot_value(old(self)@.accounts[old(self)@.idx_of(a)].storage, k));
        }
        let orig_pos = find_original(&self.originals, a, k);
        match orig_pos {
            Some(p) => {
                proof {
                    lemma_original_idx(self@, a, k, p as int);
                }
            },
            None => {
                self.originals.push(OriginalSlot { address: a, key: k, value: prior });
            },
        }
        match slot_pos {
            Some(j) => {
                self.accounts[idx].storage[j].value = v;
            },
            None => {
                self.accounts[idx].storage.push(StorageSlot { key: k, value: v });
            },
        }
        proof {
            assert(final(self)@ =~~= old(self)@.spec_set_storage(a, k, v));
            lemma_set_storage_wf(old(self)@, a, k, v);
        }
        Ok(())
    }

    /// `set_code`: fails with `AccountNotFound` — a fatal protocol
    /// violation — exactly when the shell does not exist; otherwise
    /// replaces the account's code.
    pub fn set_code(&mut self, a: Address, code: Vec<u8>) -> (r: Result<(), Fault>)
        requires
            old(self)@.wf(),
        ensures
            final(self)@.wf(),
            match r {
                Ok(()) => old(self)@.has_account(a)
                    && final(self)@ == old(self)@.spec_set_code(a, code@),
                Err(f) => f == Fault::AccountNotFound && !old(self)@.has_account(a)
                    && final(self)@ == old(self)@,
            },
    {
        match self.find_account(a) {
            Some(i) => {
                proof {
                    self@.lemma_idx_of(a, i as int);
                }
                self.accounts[i].code = code;
                proof {
                    assert(final(self)@ =~~= old(self)@.spec_set_code(a, code@));
                    lemma_wf_update(old(self)@, final(self)@);
                }
                Ok(())
            },
            None => Err(Fault::AccountNotFound),
        }
    }

    /// `reset_storage`: clears the account's storage without removing
    /// the shell; a no-op for absent addresses. Never fails.
    pub fn reset_storage(&mut self, a: Address)
        requires
            old(self)@.wf(),
        ensures
            final(self)@.wf(),
            final(self)@ == old(self)@.spec_reset_storage(a),
    {
        match self.find_account(a) {
            Some(i) => {
                proof {
                    self@.lemma_idx_of(a, i as int);
                }
                self.accounts[i].storage = Vec::new();
                proof {
                    assert(final(self)@ =~~= old(self)@.spec_reset_storage(a));
                    lemma_wf_update(old(self)@, final(self)@);
                }
            },
            None => {
            },
        }
    }

    /// `reset_balance`: zeroes the account's balance without removing
    /// the shell; a no-op for absent addresses. Never fails.
    pub fn reset_balance(&mut self, a: Address)
        requires
            old(self)@.wf(),
        ensures
            final(self)@.wf(),
            final(self)@ == old(self)@.spec_reset_balance(a),
    {
        match self.find_account(a) {
            Some(i) => {
                proof {
                    self@.lemma_idx_of(a, i as int);
                }
                self.accounts[i].balance = W256::zero();
                proof {
                    assert(final(self)@ =~~= old(self)@.spec_reset_balance(a));
                    lemma_wf_update(old(self)@, final(self)@);
                }
            },
            None => {
            },
        }
    }

    /// `mark_delete`: tombstones the account — code and storage gone,
    /// the deleted flag set, the shell kept; a no-op for absent
    /// addresses. Never fails.
    pub fn mark_delete(&mut self, a: Address)
        requires
            old(self)@.wf(),
        ensures
            final(self)@.wf(),
            final(self)@ == old(self)@.spec_mark_delete(a),
    {
        match self.find_account(a) {
            Some(i) => {
                proof {
                    self@.lemma_idx_of(a, i as int);
                }
                self.accounts[i].code = Vec::new();
                self.accounts[i].storage = Vec::new();
                self.accounts[i].deleted = true;
                proof {
                    assert(final(self)@ =~~= old(self)@.spec_mark_delete(a));
                    lemma_wf_update(old(self)@, final(self)@);
                }
            },
            None => {
            },
        }
    }

    /// `mark_hot`: warms the address (or one of its storage keys); a
    /// no-op for absent addresses. Never fails.
    pub fn mark_hot(&mut self, a: Address, k: Option<W256>)
        requires
            old(self)@.wf(),
        ensures
            final(self)@.wf(),
            final(self)@ == old(self)@.spec_mark_hot(a, k),
    {
        match self.find_account(a) {
            Some(i) => {
                proof {
                    self@.lemma_idx_of(a, i as int);
                }
                match k {
                    None => {
                        self.accounts[i].cold = false;
                        proof {
                            assert(final(self)@ =~~= old(self)@.spec_mark_hot(a, k));
                            lemma_wf_update(old(self)@, final(self)@);
                        }
                    },
                    Some(key) => {
                        let warm = find_warm(&self.accounts[i].warm_keys, key);
                        if !warm {
                            self.accounts[i].warm_keys.push(key);
                            proof {
                                assert(final(self)@ =~~= old(self)@.spec_mark_hot(a, k));
                                lemma_wf_update(old(self)@, final(self)@);
                            }
                        } else {
                            proof {
                                assert(final(self)@ =~~= old(self)@.spec_mark_hot(a, k));
                            }
                        }
                    },
                }
            },
            None => {
            },
        }
    }

    /// `log`: appends one record to the append-only log sequence.
    /// Always succeeds.
    pub fn log(&mut self, l: LogRecord) -> (r: Result<(), Fault>)
        requires
            old(self)@.wf(),
            l@.topics.len() <= 4,
        ensures
            final(self)@.wf(),
            r == Ok::<(), Fault>(()),
            final(self)@ == old(self)@.spec_log(l@),
    {
        let ghost pre = self@;
        self.logs.push(l);
        proof {
            assert(final(self)@ =~~= pre.spec_log(l@));
        }
        Ok(())
    }

    /// `set_nonce`: fails with `AccountNotFound` exactly when the
    /// shell does not exist; otherwise writes an absolute nonce. Used
    /// when the interpreter's final account-change set is applied.
    pub(crate) fn set_nonce(&mut self, a: Address, n: W256) -> (r: Result<(), Fault>)
        requires
            old(self)@.wf(),
        ensures
            final(self)@.wf(),
            match r {
                Ok(()) => old(self)@.has_account(a)
                    && final(self)@ == old(self)@.spec_set_nonce(a, n.as_nat()),
                Err(f) => f == Fault::AccountNotFound && !old(self)@.has_account(a)
                    && final(self)@ == old(self)@,
            },
    {
        match self.find_account(a) {
            Some(i) => {
                proof {
                    self@.lemma_idx_of(a, i as int);
                }
                self.accounts[i].nonce = n;
                proof {
                    assert(final(self)@ =~~= old(self)@.spec_set_nonce(a, n.as_nat()));
                    lemma_wf_update(old(self)@, final(self)@);
                }
                Ok(())
            },
            None => Err(Fault::AccountNotFound),
        }
    }

    /// `begin_transaction`: marks the present state as the start of
    /// the enclosing transaction, so that `original_storage` reports
    /// values as they stand now.
    pub fn begin_transaction(&mut self)
        requires
            old(self)@.wf(),
        ensures
            final(self)@.wf(),
            final(self)@ == old(self)@.spec_begin_transaction(),
    {
        self.originals = Vec::new();
        proof {
            assert(final(self)@ =~~= old(self)@.spec_begin_transaction());
        }
    }
}

/// `spec_set_storage` keeps a well-formed state well-formed.
proof fn lemma_set_storage_wf(s: StateV, a: Address, k: W256, v: W256)
    requires
        s.wf(),
        s.has_account(a),
    ensures
        s.spec_set_storage(a, k, v).wf(),
{
    let t = s.spec_set_storage(a, k, v);
    let i0 = s.idx_of(a);
    let st = s.accounts[i0].storage;
    assert forall|i: int, j: int|
        0 <= i < j < t.accounts.len() implies t.accounts[i].address
        != t.accounts[j].address by {
        assert(t.accounts[i].address == s.accounts[i].address);
        assert(t.accounts[j].address == s.accounts[j].address);
    }
    assert forall|i: int|
        0 <= i < t.accounts.len() implies slots_unique(#[trigger] t.accounts[i].storage) by {
        if i == i0 {
            let st2 = t.accounts[i].storage;
            if has_slot(st, k) {
                let p0 = slot_idx(st, k);
                assert(st[p0].key == k);
                assert forall|p: int, q: int|
                    0 <= p < q < st2.len() implies st2[p].key != st2[q].key by {
                    assert(st2[p].key == st[p].key);
                    assert(st2[q].key == st[q].key);
                }
            } else {
                assert forall|p: int, q: int|
                    0 <= p < q < st2.len() implies st2[p].key != st2[q].key by {
                    if q == st.len() as int {
                        assert(st2[p].key == st[p].key);
                        assert(!(0 <= p < st.len() && st[p].key == k) || has_slot(st, k));
                    }
                }
            }
        } else {
            assert(t.accounts[i].storage == s.accounts[i].storage);
        }
    }
    if !s.has_original(a, k) {
        assert forall|i: int, j: int|
            0 <= i < j < t.originals.len() implies !(t.originals[i].address
            == t.originals[j].address && t.originals[i].key == t.originals[j].key) by {
            if j == s.originals.len() as int {
                assert(!(0 <= i < s.originals.len() && s.originals[i].address == a
                    && s.originals[i].key == k) || s.has_original(a, k));
            }
        }
    }
}

/// How a state that rewrote one existing account — same address, any
/// new contents — reads afterwards: every other address exactly as
/// before, the rewritten one as its new contents.
pub proof fn lemma_update_effect(s: StateV, t: StateV, a: Address)
    requires
        s.wf(),
        s.has_account(a),
        t.accounts == s.accounts.update(s.idx_of(a), t.accounts[s.idx_of(a)]),
        t.accounts[s.idx_of(a)].address == a,
    ensures
        forall|x: Address| t.has_account(x) == s.has_account(x),
        t.has_account(a),
        t.idx_of(a) == s.idx_of(a),
        t.account_or_zero(a) == t.accounts[s.idx_of(a)],
        forall|x: Address| x != a ==> t.account_or_zero(x) == s.account_or_zero(x),
{
    let i0 = s.idx_of(a);
    assert(forall|i: int|
        0 <= i < s.accounts.len() ==> (#[trigger] t.accounts[i]).address
            == s.accounts[i].address);
    lemma_same_addresses(s, t);
    t.lemma_idx_of(a, i0);
    assert forall|x: Address| x != a implies t.account_or_zero(x) == s.account_or_zero(x) by {
        if s.has_account(x) {
            let j = s.idx_of(x);
            assert(0 <= j < s.accounts.len() && s.accounts[j].address == x);
            assert(j != i0);
            assert(t.accounts[j] == s.accounts[j]);
            t.lemma_idx_of(x, j);
            s.lemma_idx_of(x, j);
        }
    }
}

/// How a state that appended a fresh account for a previously absent
/// address reads afterwards: every other address exactly as before,
/// the new one as the appended contents.
pub proof fn lemma_push_effect(s: StateV, t: StateV, a: Address)
    requires
        s.wf(),
        !s.has_account(a),
        t.accounts == s.accounts.push(t.accounts.last()),
        t.accounts.last().address == a,
    ensures
        forall|x: Address| t.has_account(x) == (s.has_account(x) || x == a),
        t.has_account(a),
        t.account_or_zero(a) == t.accounts.last(),
        forall|x: Address| x != a ==> t.account_or_zero(x) == s.account_or_zero(x),
{
    let n = s.accounts.len() as int;
    assert(t.accounts[n].address == a);
    assert forall|p: int, q: int|
        0 <= p < q < t.accounts.len() implies t.accounts[p].address
        != t.accounts[q].address by {
        if q == n {
            assert(t.accounts[p] == s.accounts[p]);
            assert(!(0 <= p < n && s.accounts[p].address == a) || s.has_account(a));
        } else {
            assert(t.accounts[p] == s.accounts[p]);
            assert(t.accounts[q] == s.accounts[q]);
        }
    }
    t.lemma_idx_of(a, n);
    assert forall|x: Address| t.has_account(x) == (s.has_account(x) || x == a) by {
        if s.has_account(x) {
            let i = choose|i: int| 0 <= i < n && s.accounts[i].address == x;
            assert(t.accounts[i].address == x);
        }
        if t.has_account(x) && x != a {
            let i = t.idx_of(x);
            assert(0 <= i < t.accounts.len() && t.accounts[i].address == x);
            assert(i != n);
            assert(s.accounts[i].address == x);
        }
    }
    assert forall|x: Address| x != a implies t.account_or_zero(x) == s.account_or_zero(x) by {
        if s.has_account(x) {
            let j = s.idx_of(x);
            assert(0 <= j < n && s.accounts[j].address == x);
            assert(t.accounts[j] == s.accounts[j]);
            t.lemma_idx_of(x, j);
            s.lemma_idx_of(x, j);
        }
    }
}

/// How the store reads after a `deposit`.
pub proof fn lemma_deposit_effect(s: StateV, a: Address, v: nat)
    ensures
        ({
            let t = s.spec_deposit(a, v);
            &&& s.wf() ==> forall|x: Address| t.has_account(x) == (s.has_account(x) || x == a)
            &&& s.wf() ==> t.balance_of(a) == StateV::add_clamped(s.balance_of(a), v)
            &&& s.wf() ==> t.account_or_zero(a) == AccountV {
                balance: StateV::add_clamped(s.balance_of(a), v),
                ..s.account_or_zero(a)
            }
            &&& s.wf() ==> forall|x: Address|
                x != a ==> t.account_or_zero(x) == s.account_or_zero(x)
            &&& t.logs == s.logs
            &&& t.originals == s.originals
        }),
{
    if s.wf() {
        let t = s.spec_deposit(a, v);
        if s.has_account(a) {
            lemma_update_effect(s, t, a);
        } else {
            lemma_push_effect(s, t, a);
        }
        assert(t.account_or_zero(a) =~= AccountV {
            balance: StateV::add_clamped(s.balance_of(a), v),
            ..s.account_or_zero(a)
        });
    }
}

/// How the store reads after a successful `set_code`.
pub proof fn lemma_set_code_effect(s: StateV, a: Address, code: Seq<u8>)
    requires
        s.wf(),
        s.has_account(a),
    ensures
        ({
            let t = s.spec_set_code(a, code);
            &&& forall|x: Address| t.has_account(x) == s.has_account(x)
            &&& t.account_or_zero(a) == AccountV { code: code, ..s.account_or_zero(a) }
            &&& forall|x: Address| x != a ==> t.account_or_zero(x) == s.account_or_zero(x)
            &&& t.logs == s.logs
            &&& t.originals == s.originals
        }),
{
    let t = s.spec_set_code(a, code);
    lemma_update_effect(s, t, a);
}

/// How the store reads after a successful `inc_nonce`: the nonce
/// grows by one (saturating), nothing else of this or any other
/// account changes.
pub proof fn lemma_inc_nonce_effect(s: StateV, a: Address)
    requires
        s.wf(),
        s.has_account(a),
    ensures
        ({
            let t = s.spec_inc_nonce(a);
            &&& forall|x: Address| t.has_account(x) == s.has_account(x)
            &&& t.account_or_zero(a) == AccountV {
                nonce: StateV::add_clamped(s.nonce_of(a), 1),
                ..s.account_or_zero(a)
            }
            &&& forall|x: Address| x != a ==> t.account_or_zero(x) == s.account_or_zero(x)
            &&& t.logs == s.logs
            &&& t.originals == s.originals
        }),
{
    let t = s.spec_inc_nonce(a);
    lemma_update_effect(s, t, a);
}

/// How the store reads after a successful `set_nonce`.
pub proof fn lemma_set_nonce_effect(s: StateV, a: Address, n: nat)
    requires
        s.wf(),
        s.has_account(a),
    ensures
        ({
            let t = s.spec_set_nonce(a, n);
            &&& forall|x: Address| t.has_account(x) == s.has_account(x)
            &&& t.account_or_zero(a) == AccountV { nonce: n, ..s.account_or_zero(a) }
            &&& forall|x: Address| x != a ==> t.account_or_zero(x) == s.account_or_zero(x)
            &&& t.logs == s.logs
            &&& t.originals == s.originals
        }),
{
    let t = s.spec_set_nonce(a, n);
    lemma_update_effect(s, t, a);
}

/// How the store reads after a `reset_balance`.
pub proof fn lemma_reset_balance_effect(s: StateV, a: Address)
    requires
        s.wf(),
    ensures
        ({
            let t = s.spec_reset_balance(a);
            &&& forall|x: Address| t.has_account(x) == s.has_account(x)
            &&& t.balance_of(a) == 0 || !s.has_account(a)
            &&& s.has_account(a) ==> t.account_or_zero(a) == AccountV {
                balance: 0,
                ..s.account_or_zero(a)
            }
            &&& forall|x: Address| x != a ==> t.account_or_zero(x) == s.account_or_zero(x)
            &&& t.logs == s.logs
            &&& t.originals == s.originals
        }),
{
    if s.has_account(a) {
        let t = s.spec_reset_balance(a);
        lemma_update_effect(s, t, a);
    }
}

/// How the store reads after a `reset_storage`.
pub proof fn lemma_reset_storage_effect(s: StateV, a: Address)
    requires
        s.wf(),
    ensures
        ({
            let t = s.spec_reset_storage(a);
            &&& forall|x: Address| t.has_account(x) == s.has_account(x)
            &&& s.has_account(a) ==> t.account_or_zero(a) == AccountV {
                storage: Seq::empty(),
                ..s.account_or_zero(a)
            }
            &&& forall|k: W256| t.storage_at(a, k) == W256::spec_zero() || !s.has_account(a)
            &&& forall|x: Address| x != a ==> t.account_or_zero(x) == s.account_or_zero(x)
            &&& t.logs == s.logs
            &&& t.originals == s.originals
        }),
{
    if s.has_account(a) {
        let t = s.spec_reset_storage(a);
        lemma_update_effect(s, t, a);
    }
}

/// How the store reads after a successful `set_storage`: the written
/// slot holds the new word, every other slot and every other account
/// read exactly as before.
pub proof fn lemma_set_storage_effect(s: StateV, a: Address, k: W256, v: W256)
    requires
        s.wf(),
        s.has_account(a),
    ensures
        ({
            let t = s.spec_set_storage(a, k, v);
            &&& forall|x: Address| t.has_account(x) == s.has_account(x)
            &&& t.storage_at(a, k) == v
            &&& forall|k2: W256| k2 != k ==> t.storage_at(a, k2) == s.storage_at(a, k2)
            &&& t.balance_of(a) == s.balance_of(a)
            &&& t.nonce_of(a) == s.nonce_of(a)
            &&& t.code_of(a) == s.code_of(a)
            &&& t.deleted_of(a) == s.deleted_of(a)
            &&& t.account_or_zero(a).cold == s.account_or_zero(a).cold
            &&& t.account_or_zero(a).warm_keys == s.account_or_zero(a).warm_keys
            &&& t.account_or_zero(a).storage == (if has_slot(s.account_or_zero(a).storage, k) {
                s.account_or_zero(a).storage.update(
                    slot_idx(s.account_or_zero(a).storage, k),
                    StorageSlot { key: k, value: v },
                )
            } else {
                s.account_or_zero(a).storage.push(StorageSlot { key: k, value: v })
            })
            &&& forall|x: Address| x != a ==> t.account_or_zero(x) == s.account_or_zero(x)
            &&& t.logs == s.logs
        }),
{
    let t = s.spec_set_storage(a, k, v);
    lemma_set_storage_wf(s, a, k, v);
    lemma_update_effect(s, t, a);
    let i0 = s.idx_of(a);
    let st = s.accounts[i0].storage;
    let st2 = t.accounts[i0].storage;
    assert(slots_unique(st2));
    assert(slots_unique(st));
    if has_slot(st, k) {
        let j0 = slot_idx(st, k);
        lemma_slot_idx(st2, k, j0);
        assert(t.storage_at(a, k) == v);
    } else {
        lemma_slot_idx(st2, k, st.len() as int);
        assert(t.storage_at(a, k) == v);
    }
    assert forall|k2: W256| k2 != k implies t.storage_at(a, k2) == s.storage_at(a, k2) by {
        if has_slot(st, k2) {
            let j2 = slot_idx(st, k2);
            assert(0 <= j2 < st.len() && st[j2].key == k2);
            assert(st2[j2] == st[j2]);
            lemma_slot_idx(st2, k2, j2);
        } else {
            assert forall|p: int| 0 <= p < st2.len() implies (#[trigger] st2[p]).key != k2 by {
                if p < st.len() {
                    assert(st2[p].key == st[p].key);
                    assert(!(0 <= p < st.len() && st[p].key == k2) || has_slot(st, k2));
                } else {
                    assert(st2[p].key == k);
                }
            }
            assert(!has_slot(st2, k2));
        }
    }
}

/// How the store reads after a `mark_delete`.
pub proof fn lemma_mark_delete_effect(s: StateV, a: Address)
    requires
        s.wf(),
    ensures
        ({
            let t = s.spec_mark_delete(a);
            &&& forall|x: Address| t.has_account(x) == s.has_account(x)
            &&& s.has_account(a) ==> t.account_or_zero(a) == AccountV {
                code: Seq::empty(),
                storage: Seq::empty(),
                deleted: true,
                ..s.account_or_zero(a)
            }
            &&& forall|x: Address| x != a ==> t.account_or_zero(x) == s.account_or_zero(x)
            &&& t.logs == s.logs
            &&& t.originals == s.originals
        }),
{
    if s.has_account(a) {
        let t = s.spec_mark_delete(a);
        lemma_update_effect(s, t, a);
    }
}

/// Two states whose accounts agree address for address materialize
/// exactly the same shells.
pub proof fn lemma_same_addresses(s: StateV, t: StateV)
    requires
        t.accounts.len() == s.accounts.len(),
        forall|i: int|
            0 <= i < s.accounts.len() ==> (#[trigger] t.accounts[i]).address
                == s.accounts[i].address,
    ensures
        forall|x: Address| s.has_account(x) == t.has_account(x),
{
    assert forall|x: Address| s.has_account(x) == t.has_account(x) by {
        if s.has_account(x) {
            let i = choose|i: int|
                0 <= i < s.accounts.len() && s.accounts[i].address == x;
            assert(t.accounts[i].address == x);
        }
        if t.has_account(x) {
            let i = choose|i: int|
                0 <= i < t.accounts.len() && t.accounts[i].address == x;
            assert(s.accounts[i].address == x);
        }
    }
}

/// A state whose accounts differ from a well-formed one only in the
/// balance, nonce, code, storage, coldness or tombstone of existing
/// accounts — never in their addresses — stays well-formed, provided
/// each changed storage sequence keeps its keys pairwise distinct.
proof fn lemma_wf_update(pre: StateV, post: StateV)
    requires
        pre.wf(),
        post.accounts.len() == pre.accounts.len(),
        forall|i: int|
            0 <= i < pre.accounts.len() ==> (#[trigger] post.accounts[i]).address
                == pre.accounts[i].address,
        forall|i: int| 0 <= i < pre.accounts.len() ==> slots_unique(#[trigger] post.accounts[i].storage),
        post.originals == pre.originals,
        post.logs == pre.logs,
    ensures
        post.wf(),
{
}

/// Appending a fresh, empty-storage account for an address no existing
/// account holds keeps the state well-formed.
proof fn lemma_wf_push(pre: StateV, post: StateV, a: Address)
    requires
        pre.wf(),
        !pre.has_account(a),
        post.accounts.len() == pre.accounts.len() + 1,
        forall|i: int|
            0 <= i < pre.accounts.len() ==> #[trigger] post.accounts[i] == pre.accounts[i],
        post.accounts[pre.accounts.len() as int].address == a,
        slots_unique(post.accounts[pre.accounts.len() as int].storage),
        post.originals == pre.originals,
        post.logs == pre.logs,
    ensures
        post.wf(),
{
    assert forall|i: int, j: int|
        0 <= i < j < post.accounts.len() implies post.accounts[i].address
        != post.accounts[j].address by {
        if j == pre.accounts.len() as int {
            assert(pre.accounts[i].address != a);
        }
    }
}

} // verus!
