//! The conformance oracle: given a declarative scenario — a
//! pre-state, one transaction, and an optional expected outcome — it
//! builds a fresh ledger, drives the interpreter to a terminal
//! status, applies the reported changes and logs, and diffs the
//! result against the expectation.
//!
//! A failed run is failed-but-clean: the transaction's substate is
//! popped with `Revert` and the committed state is still the
//! pre-state, comparable to expectations. A comparison failure never
//! aborts anything: it is returned as a structured diff.

use vstd::prelude::*;

use crate::backend::{clone_log, MergeStrategy, MockBlock, MyBackend};
use crate::digest::{logs_digest, spec_logs_digest};
use crate::errors::Fault;
use crate::resolve::{run_resolution_loop, Interpreter, RunStatus};
use crate::state::{
    clone_vec_copy, has_slot, lemma_deposit_effect, lemma_mark_delete_effect,
    lemma_reset_balance_effect, lemma_reset_storage_effect, lemma_set_code_effect,
    lemma_set_nonce_effect, lemma_set_storage_effect, lemma_slot_idx, slots_unique,
    AccountChange, AccountV, CallContext, LogRecord, LogV, StateV, StorageSlot,
};
use crate::words::{Address, W256};

verus! {

/// The block environment a scenario runs under.
#[derive(Clone, Copy, Debug)]
pub struct ScenarioEnv {
    pub coinbase: Address,
    pub difficulty: W256,
    pub gas_limit: W256,
    pub number: W256,
    pub timestamp: W256,
}

/// One account of a scenario's pre-state.
#[derive(Debug)]
pub struct PreAccount {
    pub address: Address,
    pub balance: W256,
    pub code: Vec<u8>,
    pub storage: Vec<StorageSlot>,
}

/// The transaction a scenario executes.
#[derive(Debug)]
pub struct TransactionExec {
    pub address: Address,
    pub caller: Address,
    pub code: Vec<u8>,
    pub data: Vec<u8>,
    pub gas: W256,
    pub gas_price: W256,
    pub origin: Address,
    pub value: W256,
}

/// One account of a scenario's expected post-state.
#[derive(Debug)]
pub struct PostAccount {
    pub address: Address,
    pub balance: W256,
    pub nonce: W256,
    pub code: Vec<u8>,
    pub storage: Vec<StorageSlot>,
}

/// What a scenario expects of the run, each part optional.
#[derive(Debug)]
pub struct Expectation {
    /// The output bytes; when absent, success is redefined as "the
    /// interpreter terminated with a non-success status".
    pub out: Option<Vec<u8>>,
    /// The gas left after the run.
    pub gas: Option<W256>,
    /// Per-account expected balance, nonce, code and storage.
    pub post: Vec<PostAccount>,
    /// The canonical digest of the ordered log list.
    pub logs_hash: Option<u64>,
    /// The nested calls entered, checked by position.
    pub callcreates: Option<Vec<CallContext>>,
}

/// A declarative conformance scenario.
#[derive(Debug)]
pub struct Scenario {
    pub env: ScenarioEnv,
    pub pre: Vec<PreAccount>,
    pub transaction: TransactionExec,
    pub expect: Option<Expectation>,
}

/// One field of the expectation that did not match.
#[derive(Clone, Copy, PartialEq, Eq, Structural, Debug)]
pub enum Mismatch {
    /// The output bytes differ.
    Out,
    /// No output was expected, yet the run succeeded.
    Status,
    /// The remaining gas differs.
    Gas,
    /// An account's balance differs.
    Balance(Address),
    /// An account's nonce differs.
    Nonce(Address),
    /// An account's code differs.
    Code(Address),
    /// One storage slot of an account differs.
    Storage(Address, W256),
    /// The canonical log digest differs.
    LogsHash,
    /// The nested call list differs.
    Callcreates,
}

/// The oracle's judgement of one scenario: a pass, or the list of
/// every field that mismatched.
#[derive(Debug)]
pub enum Verdict {
    Pass,
    AssertionMismatch(Vec<Mismatch>),
}

/// Scenario validity: pre-state addresses are pairwise distinct and
/// each pre-state account's storage keys are pairwise distinct.
pub open spec fn spec_pre_wf(pre: Seq<PreAccount>) -> bool {
    &&& forall|i: int, j: int|
        0 <= i < j < pre.len() ==> pre[i].address != pre[j].address
    &&& forall|i: int| 0 <= i < pre.len() ==> slots_unique((#[trigger] pre[i]).storage@)
}

/// Whether some pre-state entry holds the address.
pub open spec fn spec_pre_has(pre: Seq<PreAccount>, n: int, x: Address) -> bool {
    exists|i: int| 0 <= i < n && pre[i].address == x
}

/// Whether the store holds exactly one pre-state entry's account:
/// its balance, a zero nonce, its code, precisely its listed storage
/// slots — so every unlisted key reads the zero word — no tombstone,
/// and untouched coldness for the address and for every storage key.
/// [`lemma_pre_applied_reads`] spells the reads out.
pub open spec fn spec_pre_applied(s: StateV, p: PreAccount) -> bool {
    &&& s.has_account(p.address)
    &&& s.account_or_zero(p.address) == (AccountV {
        address: p.address,
        balance: p.balance.as_nat(),
        nonce: 0,
        code: p.code@,
        storage: p.storage@,
        cold: true,
        warm_keys: Seq::empty(),
        deleted: false,
    })
}

/// What an installed pre-state account reads as, field for field:
/// the listed balance and code, a zero nonce, each listed slot's
/// value, the zero word under every unlisted key, cold throughout,
/// and no tombstone.
pub proof fn lemma_pre_applied_reads(s: StateV, p: PreAccount)
    requires
        spec_pre_applied(s, p),
        slots_unique(p.storage@),
    ensures
        s.balance_of(p.address) == p.balance.as_nat(),
        s.nonce_of(p.address) == 0,
        s.code_of(p.address) == p.code@,
        forall|j: int|
            0 <= j < p.storage@.len() ==> s.storage_at(p.address, (#[trigger] p.storage@[j]).key)
                == p.storage@[j].value,
        forall|k: W256|
            !has_slot(p.storage@, k) ==> #[trigger] s.storage_at(p.address, k)
                == W256::spec_zero(),
        !s.deleted_of(p.address),
        s.is_cold(p.address, None),
        forall|k: W256| s.is_cold(p.address, Some(k)),
{
    assert forall|j: int|
        0 <= j < p.storage@.len() implies s.storage_at(
        p.address,
        (#[trigger] p.storage@[j]).key,
    ) == p.storage@[j].value by {
        lemma_slot_idx(p.storage@, p.storage@[j].key, j);
    }
}

/// The balance a scenario's pre-state gives an address: the listed
/// balance, or zero for an address the pre-state does not mention.
pub open spec fn spec_pre_balance(pre: Seq<PreAccount>, a: Address) -> nat {
    if spec_pre_has(pre, pre.len() as int, a) {
        pre[choose|i: int| 0 <= i < pre.len() && pre[i].address == a].balance.as_nat()
    } else {
        0
    }
}

/// Once the pre-state is installed, every address's balance reads
/// exactly what the scenario lists for it — zero when unlisted.
proof fn lemma_pre_balance(s: StateV, pre: Seq<PreAccount>, a: Address)
    requires
        forall|i: int| 0 <= i < pre.len() ==> spec_pre_applied(s, #[trigger] pre[i]),
        forall|x: Address| s.has_account(x) == spec_pre_has(pre, pre.len() as int, x),
    ensures
        s.balance_of(a) == spec_pre_balance(pre, a),
{
    if spec_pre_has(pre, pre.len() as int, a) {
        let i = choose|i: int| 0 <= i < pre.len() && pre[i].address == a;
        assert(spec_pre_applied(s, pre[i]));
    } else {
        assert(!s.has_account(a));
    }
}

/// The block environment of a scenario as a mock block: its fields
/// where the scenario gives them, zeroes elsewhere, chain id 1173.
pub fn env_block(env: &ScenarioEnv) -> (r: MockBlock)
    ensures
        r.block_coinbase == env.coinbase,
        r.block_difficulty == env.difficulty,
        r.block_gas_limit == env.gas_limit,
        r.block_number == env.number,
        r.block_timestamp == env.timestamp,
        r.block_hash == W256::spec_zero(),
        r.block_randomness == Some(W256::spec_zero()),
        r.block_base_fee_per_gas == W256::spec_zero(),
        r.chain_id.as_nat() == 1173,
{
    MockBlock {
        block_hash: W256::zero(),
        block_number: env.number,
        block_coinbase: env.coinbase,
        block_timestamp: env.timestamp,
        block_difficulty: env.difficulty,
        block_randomness: Some(W256::zero()),
        block_gas_limit: env.gas_limit,
        block_base_fee_per_gas: W256::zero(),
        chain_id: W256::from_u64(1173),
    }
}

/// Builds a fresh ledger from a scenario's pre-state: every listed
/// account materialized with its balance, code and storage, nothing
/// else materialized, no logs, no open substate, and the present
/// moment marked as the start of the transaction.
pub fn build_pre_state(pre: &Vec<PreAccount>, mock_block: MockBlock) -> (r: MyBackend)
    requires
        spec_pre_wf(pre@),
    ensures
        r@.wf(),
        r@.frames.len() == 0,
        r@.state.logs.len() == 0,
        r@.state.originals.len() == 0,
        r.mock_block == mock_block,
        forall|i: int|
            0 <= i < pre@.len() ==> spec_pre_applied(r@.state, #[trigger] pre@[i]),
        forall|x: Address| r@.state.has_account(x) == spec_pre_has(pre@, pre@.len() as int, x),
{
    let mut b = MyBackend::with_block(mock_block);
    let n = pre.len();
    let mut i: usize = 0;
    while i < n
        invariant
            spec_pre_wf(pre@),
            n == pre@.len(),
            i <= n,
            b@.wf(),
            b@.frames.len() == 0,
            b@.state.logs.len() == 0,
            b.mock_block == mock_block,
            forall|j: int| 0 <= j < i ==> spec_pre_applied(b@.state, #[trigger] pre@[j]),
            forall|x: Address| b@.state.has_account(x) == spec_pre_has(pre@, i as int, x),
        decreases n - i,
    {
        let p = &pre[i];
        let ghost s0 = b@.state;
        proof {
            assert(!spec_pre_has(pre@, i as int, p.address));
            assert(!s0.has_account(p.address));
            lemma_deposit_effect(s0, p.address, p.balance.as_nat());
            p.balance.lemma_bound();
        }
        b.deposit(p.address, p.balance);
        let ghost s1 = b@.state;
        proof {
            lemma_set_code_effect(s1, p.address, p.code@);
        }
        let code_copy = clone_vec_copy(&p.code);
        let cr = b.set_code(p.address, code_copy);
        proof {
            assert(cr is Ok);
        }
        let ghost s2 = b@.state;
        proof {
            assert(s2.account_or_zero(p.address) =~~= (AccountV {
                address: p.address,
                balance: p.balance.as_nat(),
                nonce: 0,
                code: p.code@,
                storage: p.storage@.subrange(0, 0),
                cold: true,
                warm_keys: Seq::empty(),
                deleted: false,
            }));
        }
        let n_slots = p.storage.len();
        let mut q: usize = 0;
        while q < n_slots
            invariant
                n_slots == p.storage@.len(),
                q <= n_slots,
                slots_unique(p.storage@),
                b@.wf(),
                b@.frames.len() == 0,
                b@.state.logs == s2.logs,
                b.mock_block == mock_block,
                b@.state.has_account(p.address),
                b@.state.account_or_zero(p.address) == (AccountV {
                    address: p.address,
                    balance: p.balance.as_nat(),
                    nonce: 0,
                    code: p.code@,
                    storage: p.storage@.subrange(0, q as int),
                    cold: true,
                    warm_keys: Seq::empty(),
                    deleted: false,
                }),
                forall|x: Address| b@.state.has_account(x) == s2.has_account(x),
                forall|x: Address|
                    x != p.address ==> b@.state.account_or_zero(x) == s2.account_or_zero(x),
            decreases n_slots - q,
        {
            let slot = p.storage[q];
            let ghost sq = b@.state;
            proof {
                lemma_set_storage_effect(sq, p.address, slot.key, slot.value);
                assert forall|t: int|
                    0 <= t < sq.account_or_zero(p.address).storage.len() implies (
                #[trigger] sq.account_or_zero(p.address).storage[t]).key != slot.key by {
                    assert(sq.account_or_zero(p.address).storage[t] == p.storage@[t]);
                    assert(p.storage@[t].key != p.storage@[q as int].key);
                }
                assert(!has_slot(sq.account_or_zero(p.address).storage, slot.key));
            }
            let sr = b.set_storage(p.address, slot.key, slot.value);
            proof {
                assert(sr is Ok);
                assert(b@.state.account_or_zero(p.address).address == p.address);
                assert(b@.state.account_or_zero(p.address) =~~= (AccountV {
                    address: p.address,
                    balance: p.balance.as_nat(),
                    nonce: 0,
                    code: p.code@,
                    storage: p.storage@.subrange(0, q + 1 as int),
                    cold: true,
                    warm_keys: Seq::empty(),
                    deleted: false,
                }));
            }
            q = q + 1;
        }
        proof {
            assert(p.storage@.subrange(0, n_slots as int) =~= p.storage@);
            assert(spec_pre_applied(b@.state, pre@[i as int]));
            assert forall|j: int|
                0 <= j < i + 1 implies spec_pre_applied(b@.state, #[trigger] pre@[j]) by {
                if j < i {
                    assert(pre@[j].address != pre@[i as int].address);
                    assert(b@.state.account_or_zero(pre@[j].address) == s2.account_or_zero(
                        pre@[j].address,
                    ));
                    assert(s2.account_or_zero(pre@[j].address) == s0.account_or_zero(
                        pre@[j].address,
                    ));
                }
            }
            assert forall|x: Address|
                b@.state.has_account(x) == spec_pre_has(pre@, i + 1 as int, x) by {
                if spec_pre_has(pre@, i as int, x) {
                    let w = choose|w: int| 0 <= w < i && pre@[w].address == x;
                    assert(spec_pre_has(pre@, i + 1 as int, x));
                }
                if x == pre@[i as int].address {
                    assert(spec_pre_has(pre@, i + 1 as int, x));
                }
            }
        }
        i = i + 1;
    }
    b.begin_transaction();
    b
}

/// The store after writing the first `n` of the given slots into
/// `a`'s storage, in order.
pub open spec fn spec_set_slots_upto(s: StateV, a: Address, slots: Seq<StorageSlot>, n: int) -> StateV
    decreases n,
{
    if n <= 0 {
        s
    } else {
        spec_set_slots_upto(s, a, slots, n - 1).spec_set_storage(
            a,
            slots[n - 1].key,
            slots[n - 1].value,
        )
    }
}

/// The store after applying one entry of the interpreter's final
/// account-change set: absolute balance, nonce and code for `Full`
/// and `Create` (the latter with storage rebuilt from scratch), a
/// plain deposit for `IncreaseBalance`, and a tombstone with the
/// balance cleared for `Nonexist`.
pub open spec fn spec_apply_change(s: StateV, c: AccountChange) -> StateV {
    match c {
        AccountChange::Full { address, balance, nonce, code, changing_storage } => {
            let s5 = s.spec_deposit(address, 0).spec_reset_balance(address).spec_deposit(
                address,
                balance.as_nat(),
            ).spec_set_nonce(address, nonce.as_nat()).spec_set_code(address, code@);
            spec_set_slots_upto(s5, address, changing_storage@, changing_storage@.len() as int)
        },
        AccountChange::Create { address, balance, nonce, code, storage } => {
            let s6 = s.spec_deposit(address, 0).spec_reset_balance(address).spec_deposit(
                address,
                balance.as_nat(),
            ).spec_set_nonce(address, nonce.as_nat()).spec_set_code(
                address,
                code@,
            ).spec_reset_storage(address);
            spec_set_slots_upto(s6, address, storage@, storage@.len() as int)
        },
        AccountChange::IncreaseBalance { address, amount } => s.spec_deposit(
            address,
            amount.as_nat(),
        ),
        AccountChange::Nonexist(address) => s.spec_mark_delete(address).spec_reset_balance(
            address,
        ),
    }
}

/// The store after applying the first `n` of the given changes, in
/// order.
pub open spec fn spec_apply_upto(s: StateV, cs: Seq<AccountChange>, n: int) -> StateV
    decreases n,
{
    if n <= 0 {
        s
    } else {
        spec_apply_change(spec_apply_upto(s, cs, n - 1), cs[n - 1])
    }
}

/// The store after applying the whole change set, in order.
pub open spec fn spec_apply_changes(s: StateV, cs: Seq<AccountChange>) -> StateV {
    spec_apply_upto(s, cs, cs.len() as int)
}

/// The store after appending the first `n` of the given logs, in
/// order.
pub open spec fn spec_append_logs_upto(s: StateV, ls: Seq<LogV>, n: int) -> StateV
    decreases n,
{
    if n <= 0 {
        s
    } else {
        spec_append_logs_upto(s, ls, n - 1).spec_log(ls[n - 1])
    }
}

/// Writes the given slots into `a`'s storage, in order. The shell
/// must exist; it is preserved, so every write succeeds.
fn apply_slots(b: &mut MyBackend, a: Address, slots: &Vec<StorageSlot>)
    requires
        old(b)@.wf(),
        old(b)@.state.has_account(a),
    ensures
        final(b)@.wf(),
        final(b)@.state == spec_set_slots_upto(old(b)@.state, a, slots@, slots@.len() as int),
        final(b)@.state.has_account(a),
        final(b)@.frames == old(b)@.frames,
        final(b).mock_block == old(b).mock_block,
{
    let n = slots.len();
    let mut q: usize = 0;
    while q < n
        invariant
            n == slots@.len(),
            q <= n,
            b@.wf(),
            b@.state.has_account(a),
            b@.state == spec_set_slots_upto(old(b)@.state, a, slots@, q as int),
            b@.frames == old(b)@.frames,
            b.mock_block == old(b).mock_block,
        decreases n - q,
    {
        let slot = slots[q];
        proof {
            lemma_set_storage_effect(b@.state, a, slot.key, slot.value);
        }
        let r = b.set_storage(a, slot.key, slot.value);
        proof {
            assert(r is Ok);
        }
        q = q + 1;
    }
}

/// Applies one entry of the interpreter's final account-change set.
fn apply_change(b: &mut MyBackend, c: &AccountChange)
    requires
        old(b)@.wf(),
    ensures
        final(b)@.wf(),
        final(b)@.state == spec_apply_change(old(b)@.state, *c),
        final(b)@.frames == old(b)@.frames,
        final(b).mock_block == old(b).mock_block,
{
    match c {
        AccountChange::Full { address, balance, nonce, code, changing_storage } => {
            let a = *address;
            proof {
                lemma_deposit_effect(b@.state, a, 0);
            }
            b.deposit(a, W256::zero());
            proof {
                lemma_reset_balance_effect(b@.state, a);
            }
            b.reset_balance(a);
            proof {
                lemma_deposit_effect(b@.state, a, balance.as_nat());
            }
            b.deposit(a, *balance);
            proof {
                lemma_set_nonce_effect(b@.state, a, nonce.as_nat());
            }
            let r1 = b.set_nonce(a, *nonce);
            proof {
                assert(r1 is Ok);
                lemma_set_code_effect(b@.state, a, code@);
            }
            let code_copy = clone_vec_copy(code);
            let r2 = b.set_code(a, code_copy);
            proof {
                assert(r2 is Ok);
            }
            apply_slots(b, a, changing_storage);
        },
        AccountChange::Create { address, balance, nonce, code, storage } => {
            let a = *address;
            proof {
                lemma_deposit_effect(b@.state, a, 0);
            }
            b.deposit(a, W256::zero());
            proof {
                lemma_reset_balance_effect(b@.state, a);
            }
            b.reset_balance(a);
            proof {
                lemma_deposit_effect(b@.state, a, balance.as_nat());
            }
            b.deposit(a, *balance);
            proof {
                lemma_set_nonce_effect(b@.state, a, nonce.as_nat());
            }
            let r1 = b.set_nonce(a, *nonce);
            proof {
                assert(r1 is Ok);
                lemma_set_code_effect(b@.state, a, code@);
            }
            let code_copy = clone_vec_copy(code);
            let r2 = b.set_code(a, code_copy);
            proof {
                assert(r2 is Ok);
                lemma_reset_storage_effect(b@.state, a);
            }
            b.reset_storage(a);
            apply_slots(b, a, storage);
        },
        AccountChange::IncreaseBalance { address, amount } => {
            b.deposit(*address, *amount);
        },
        AccountChange::Nonexist(address) => {
            proof {
                lemma_mark_delete_effect(b@.state, *address);
            }
            b.mark_delete(*address);
            b.reset_balance(*address);
        },
    }
}

/// Applies the interpreter's final account-change set into the
/// store, in order.
pub fn apply_changes(b: &mut MyBackend, changes: &Vec<AccountChange>)
    requires
        old(b)@.wf(),
    ensures
        final(b)@.wf(),
        final(b)@.state == spec_apply_changes(old(b)@.state, changes@),
        final(b)@.frames == old(b)@.frames,
        final(b).mock_block == old(b).mock_block,
{
    let n = changes.len();
    let mut i: usize = 0;
    while i < n
        invariant
            n == changes@.len(),
            i <= n,
            b@.wf(),
            b@.state == spec_apply_upto(old(b)@.state, changes@, i as int),
            b@.frames == old(b)@.frames,
            b.mock_block == old(b).mock_block,
        decreases n - i,
    {
        apply_change(b, &changes[i]);
        i = i + 1;
    }
}

/// Appends the interpreter's emitted logs into the store, in order.
/// A log carrying more than four topics violates the data model and
/// reports the interpreter as fatally broken, with the store left
/// untouched.
pub fn apply_logs(b: &mut MyBackend, logs: &Vec<LogRecord>) -> (r: Result<(), Fault>)
    requires
        old(b)@.wf(),
    ensures
        final(b)@.wf(),
        final(b)@.frames == old(b)@.frames,
        final(b).mock_block == old(b).mock_block,
        match r {
            Ok(()) => final(b)@.state == spec_append_logs_upto(
                old(b)@.state,
                logs@.map_values(|l: LogRecord| l@),
                logs@.len() as int,
            ),
            Err(f) => f == Fault::InterpreterFatal && final(b)@ == old(b)@ && exists|j: int|
                0 <= j < logs@.len() && (#[trigger] logs@[j])@.topics.len() > 4,
        },
{
    let n = logs.len();
    let mut i: usize = 0;
    while i < n
        invariant
            n == logs@.len(),
            i <= n,
            b@ == old(b)@,
            old(b)@.wf(),
            b.mock_block == old(b).mock_block,
            forall|j: int| 0 <= j < i ==> (#[trigger] logs@[j])@.topics.len() <= 4,
        decreases n - i,
    {
        if logs[i].topics.len() > 4 {
            return Err(Fault::InterpreterFatal);
        }
        i = i + 1;
    }
    let ghost views = logs@.map_values(|l: LogRecord| l@);
    let mut p: usize = 0;
    while p < n
        invariant
            n == logs@.len(),
            p <= n,
            views == logs@.map_values(|l: LogRecord| l@),
            forall|j: int| 0 <= j < n ==> (#[trigger] logs@[j])@.topics.len() <= 4,
            b@.wf(),
            b@.state == spec_append_logs_upto(old(b)@.state, views, p as int),
            b@.frames == old(b)@.frames,
            b.mock_block == old(b).mock_block,
        decreases n - p,
    {
        let record = clone_log(&logs[p]);
        let r = b.log(record);
        p = p + 1;
    }
    Ok(())
}

/// Whether the store reads as one expected post-state account:
/// balance, nonce, code, and every listed storage slot.
pub open spec fn spec_post_account_holds(s: StateV, p: PostAccount) -> bool {
    &&& s.balance_of(p.address) == p.balance.as_nat()
    &&& s.nonce_of(p.address) == p.nonce.as_nat()
    &&& s.code_of(p.address) == p.code@
    &&& forall|j: int|
        0 <= j < p.storage@.len() ==> s.storage_at(p.address, (#[trigger] p.storage@[j]).key)
            == p.storage@[j].value
}

/// Whether the store reads as the whole expected post-state.
pub open spec fn spec_post_holds(s: StateV, post: Seq<PostAccount>) -> bool {
    forall|i: int| 0 <= i < post.len() ==> spec_post_account_holds(s, #[trigger] post[i])
}

/// Whether one entered context matches one expected call.
pub open spec fn spec_call_matches(a: CallContext, e: CallContext) -> bool {
    &&& a.destination == e.destination
    &&& a.gas_limit == e.gas_limit
    &&& a.value == e.value
    &&& a.data@ == e.data@
}

/// Whether the entered contexts match the expected call list, by
/// position.
pub open spec fn spec_calls_match(actual: Seq<CallContext>, expected: Seq<CallContext>) -> bool {
    &&& actual.len() == expected.len()
    &&& forall|i: int|
        0 <= i < actual.len() ==> spec_call_matches(#[trigger] actual[i], expected[i])
}

/// Whether the run meets the whole expectation: output bytes (or,
/// with no expected output, a non-success terminal status), the gas
/// left, the post-state, the canonical log digest, and the call
/// list.
pub open spec fn spec_expect_holds(
    s: StateV,
    status: RunStatus,
    out: Seq<u8>,
    gas: W256,
    contexts: Seq<CallContext>,
    e: Expectation,
) -> bool {
    &&& match e.out {
        Some(eo) => eo@ == out,
        None => status != RunStatus::Succeed,
    }
    &&& match e.gas {
        Some(g) => g == gas,
        None => true,
    }
    &&& spec_post_holds(s, e.post@)
    &&& match e.logs_hash {
        Some(h) => h == spec_logs_digest(s.logs),
        None => true,
    }
    &&& match e.callcreates {
        Some(cc) => spec_calls_match(contexts, cc@),
        None => true,
    }
}

/// A scenario whose expected log digest does not match the actual
/// one never meets its expectation, whatever else matches: the
/// oracle must report the mismatch, never a silent pass.
pub proof fn lemma_logs_hash_mismatch_fails(
    s: StateV,
    status: RunStatus,
    out: Seq<u8>,
    gas: W256,
    contexts: Seq<CallContext>,
    e: Expectation,
)
    requires
        e.logs_hash matches Some(h) && h != spec_logs_digest(s.logs),
    ensures
        !spec_expect_holds(s, status, out, gas, contexts, e),
{
}

/// Whether two byte vectors hold the same bytes.
fn bytes_eq(a: &Vec<u8>, b: &Vec<u8>) -> (r: bool)
    ensures
        r == (a@ == b@),
{
    if a.len() != b.len() {
        return false;
    }
    let n = a.len();
    let mut i: usize = 0;
    while i < n
        invariant
            n == a@.len(),
            n == b@.len(),
            i <= n,
            forall|j: int| 0 <= j < i ==> a@[j] == b@[j],
        decreases n - i,
    {
        if a[i] != b[i] {
            return false;
        }
        i = i + 1;
    }
    proof {
        assert(a@ =~= b@);
    }
    true
}

/// The first expected storage slot whose stored word differs, if
/// any.
fn storage_matches(b: &MyBackend, a: Address, slots: &Vec<StorageSlot>) -> (r: Option<W256>)
    requires
        b@.wf(),
    ensures
        match r {
            None => forall|j: int|
                0 <= j < slots@.len() ==> b@.state.storage_at(a, (#[trigger] slots@[j]).key)
                    == slots@[j].value,
            Some(k) => exists|j: int|
                0 <= j < slots@.len() && (#[trigger] slots@[j]).key == k && b@.state.storage_at(
                    a,
                    k,
                ) != slots@[j].value,
        },
{
    let n = slots.len();
    let mut q: usize = 0;
    while q < n
        invariant
            n == slots@.len(),
            q <= n,
            b@.wf(),
            forall|j: int|
                0 <= j < q ==> b@.state.storage_at(a, (#[trigger] slots@[j]).key)
                    == slots@[j].value,
        decreases n - q,
    {
        let slot = slots[q];
        let v = b.storage(a, slot.key);
        if !(v == slot.value) {
            return Some(slot.key);
        }
        q = q + 1;
    }
    None
}

/// Checks one expected post-state account, appending a marker to
/// the diff for each field that differs. The diff grows exactly
/// when the account does not match.
fn compare_post_account(b: &MyBackend, p: &PostAccount, d: &mut Vec<Mismatch>)
    requires
        b@.wf(),
    ensures
        final(d)@.len() >= old(d)@.len(),
        (final(d)@.len() == old(d)@.len()) == spec_post_account_holds(b@.state, *p),
{
    let bal = b.balance(p.address);
    proof {
        if b@.state.balance_of(p.address) == p.balance.as_nat() {
            bal.lemma_value_injective(p.balance);
        }
    }
    if !(bal == p.balance) {
        d.push(Mismatch::Balance(p.address));
    }
    let nonce = b.nonce(p.address);
    proof {
        if b@.state.nonce_of(p.address) == p.nonce.as_nat() {
            nonce.lemma_value_injective(p.nonce);
        }
    }
    if !(nonce == p.nonce) {
        d.push(Mismatch::Nonce(p.address));
    }
    let code = b.code(p.address);
    if !bytes_eq(&code, &p.code) {
        d.push(Mismatch::Code(p.address));
    }
    match storage_matches(b, p.address, &p.storage) {
        None => {
        },
        Some(k) => {
            d.push(Mismatch::Storage(p.address, k));
        },
    }
}

/// Checks the whole expected post-state. The diff is empty exactly
/// when every listed account matches.
fn compare_post(b: &MyBackend, post: &Vec<PostAccount>) -> (d: Vec<Mismatch>)
    requires
        b@.wf(),
    ensures
        (d@.len() == 0) == spec_post_holds(b@.state, post@),
{
    let mut d: Vec<Mismatch> = Vec::new();
    let n = post.len();
    let mut i: usize = 0;
    while i < n
        invariant
            n == post@.len(),
            i <= n,
            b@.wf(),
            (d@.len() == 0) == (forall|j: int|
                0 <= j < i ==> spec_post_account_holds(b@.state, #[trigger] post@[j])),
        decreases n - i,
    {
        compare_post_account(b, &post[i], &mut d);
        i = i + 1;
    }
    d
}

/// Whether the entered contexts match the expected call list, by
/// position.
fn calls_match(actual: &Vec<CallContext>, expected: &Vec<CallContext>) -> (r: bool)
    ensures
        r == spec_calls_match(actual@, expected@),
{
    if actual.len() != expected.len() {
        return false;
    }
    let n = actual.len();
    let mut i: usize = 0;
    while i < n
        invariant
            n == actual@.len(),
            n == expected@.len(),
            i <= n,
            forall|j: int|
                0 <= j < i ==> spec_call_matches(#[trigger] actual@[j], expected@[j]),
        decreases n - i,
    {
        let a = &actual[i];
        let e = &expected[i];
        let fields_ok = a.destination == e.destination && a.gas_limit == e.gas_limit && a.value
            == e.value;
        if !fields_ok {
            return false;
        }
        if !bytes_eq(&a.data, &e.data) {
            return false;
        }
        i = i + 1;
    }
    true
}

/// Diffs the run's result against one expectation. The diff is
/// empty exactly when the expectation holds; each entry names one
/// field that differed.
pub fn compare_expectation(
    b: &MyBackend,
    status: RunStatus,
    out: &Vec<u8>,
    gas: W256,
    contexts: &Vec<CallContext>,
    e: &Expectation,
) -> (d: Vec<Mismatch>)
    requires
        b@.wf(),
    ensures
        (d@.len() == 0) == spec_expect_holds(b@.state, status, out@, gas, contexts@, *e),
{
    let mut d = compare_post(b, &e.post);
    match &e.out {
        Some(eo) => {
            if !bytes_eq(eo, out) {
                d.push(Mismatch::Out);
            }
        },
        None => {
            if status == RunStatus::Succeed {
                d.push(Mismatch::Status);
            }
        },
    }
    match e.gas {
        Some(g) => {
            if !(g == gas) {
                d.push(Mismatch::Gas);
            }
        },
        None => {
        },
    }
    let actual_digest = logs_digest(&b.state.logs);
    match e.logs_hash {
        Some(h) => {
            if h != actual_digest {
                d.push(Mismatch::LogsHash);
            }
        },
        None => {
        },
    }
    match &e.callcreates {
        Some(cc) => {
            if !calls_match(contexts, cc) {
                d.push(Mismatch::Callcreates);
            }
        },
        None => {
        },
    }
    d
}

/// Everything `run_scenario` promises of a completed outcome: a
/// well-formed ledger with no scope left open; a verdict that passes
/// exactly when the expectation holds of the committed state; a run
/// that did not succeed leaving the pre-state intact; and a
/// transaction-level fault — always `InsufficientFunds`, always with
/// a clean `Exception` status — exactly when the transaction's value
/// exceeds the caller's pre-state balance.
pub open spec fn spec_outcome_ok(scenario: Scenario, o: ScenarioOutcome) -> bool {
    &&& o.backend@.wf()
    &&& o.backend@.frames.len() == 0
    &&& ((o.verdict matches Verdict::Pass) <==> (match scenario.expect {
        Some(e) => spec_expect_holds(o.backend@.state, o.status, o.out@, o.gas, o.contexts@, e),
        None => true,
    }))
    &&& ((o.fault is Some || o.status != RunStatus::Succeed) ==> forall|i: int|
        0 <= i < scenario.pre@.len() ==> spec_pre_applied(
            o.backend@.state,
            #[trigger] scenario.pre@[i],
        ))
    &&& (o.fault matches Some(f) ==> f == Fault::InsufficientFunds && o.status
        == RunStatus::Exception)
    &&& ((o.fault is Some) <==> scenario.transaction.value.as_nat() > spec_pre_balance(
        scenario.pre@,
        scenario.transaction.caller,
    ))
}

/// Everything the oracle hands back for one scenario: the final
/// ledger, the terminal status, the transaction-level fault if the
/// run never reached the interpreter, the interpreter's output, gas
/// and entered contexts, and the verdict.
#[derive(Debug)]
pub struct ScenarioOutcome {
    pub backend: MyBackend,
    pub status: RunStatus,
    /// `Some(InsufficientFunds)` when the transaction's upfront value
    /// transfer already failed; the run is failed-but-clean.
    pub fault: Option<Fault>,
    pub out: Vec<u8>,
    pub gas: W256,
    pub contexts: Vec<CallContext>,
    pub verdict: Verdict,
}

/// Replays one scenario: builds the pre-state, transfers the
/// transaction's value under a substate, drives the interpreter to a
/// terminal status, applies its changes and logs on success or
/// reverts on failure, and diffs the committed state against the
/// expectation.
///
/// A failed run — the upfront transfer bounced, or the interpreter
/// ended without success — leaves the committed state exactly the
/// pre-state, still comparable. A transaction whose value exceeds
/// the caller's pre-state balance never reaches the interpreter and
/// never fails fatally: it completes as `InsufficientFunds`,
/// failed-but-clean. The fatal errors (an unknown block number, a
/// broken or stuck interpreter) are the only `Err` results: after
/// them no state of the run may be trusted.
pub fn run_scenario<I: Interpreter>(scenario: &Scenario, interp: &mut I, max_steps: u64) -> (r:
    Result<ScenarioOutcome, Fault>)
    requires
        spec_pre_wf(scenario.pre@),
    ensures
        match r {
            Ok(o) => spec_outcome_ok(*scenario, o),
            Err(f) => f == Fault::UnknownBlockNumber || f == Fault::InterpreterFatal,
        },
        scenario.transaction.value.as_nat() > spec_pre_balance(
            scenario.pre@,
            scenario.transaction.caller,
        ) ==> r is Ok,
{
    let block = env_block(&scenario.env);
    let mut b = build_pre_state(&scenario.pre, block);
    let ghost pre_state = b@.state;
    proof {
        lemma_pre_balance(pre_state, scenario.pre@, scenario.transaction.caller);
    }
    b.push_substate();
    let wr = b.withdrawal(scenario.transaction.caller, scenario.transaction.value);
    match wr {
        Err(_) => {
            b.pop_substate(MergeStrategy::Revert);
            proof {
                assert(b@.state == pre_state);
            }
            let out: Vec<u8> = Vec::new();
            let gas = W256::zero();
            let contexts: Vec<CallContext> = Vec::new();
            let verdict = match &scenario.expect {
                Some(e) => {
                    let diff = compare_expectation(
                        &b,
                        RunStatus::Exception,
                        &out,
                        gas,
                        &contexts,
                        e,
                    );
                    if diff.len() == 0 {
                        Verdict::Pass
                    } else {
                        Verdict::AssertionMismatch(diff)
                    }
                },
                None => Verdict::Pass,
            };
            Ok(
                ScenarioOutcome {
                    backend: b,
                    status: RunStatus::Exception,
                    fault: Some(Fault::InsufficientFunds),
                    out,
                    gas,
                    contexts,
                    verdict,
                },
            )
        },
        Ok(()) => {
            b.deposit(scenario.transaction.address, scenario.transaction.value);
            let lr = run_resolution_loop(&b, interp, max_steps);
            match lr {
                Err(f) => Err(f),
                Ok(status) => {
                    if status == RunStatus::Succeed {
                        let changes = interp.accounts();
                        apply_changes(&mut b, &changes);
                        let logs = interp.logs();
                        match apply_logs(&mut b, &logs) {
                            Ok(()) => {
                            },
                            Err(f) => {
                                return Err(f);
                            },
                        }
                        b.pop_substate(MergeStrategy::Commit);
                    } else {
                        b.pop_substate(MergeStrategy::Revert);
                        proof {
                            assert(b@.state == pre_state);
                        }
                    }
                    let out = interp.out();
                    let gas = interp.available_gas();
                    let contexts = interp.contexts();
                    let verdict = match &scenario.expect {
                        Some(e) => {
                            let diff = compare_expectation(&b, status, &out, gas, &contexts, e);
                            if diff.len() == 0 {
                                Verdict::Pass
                            } else {
                                Verdict::AssertionMismatch(diff)
                            }
                        },
                        None => Verdict::Pass,
                    };
                    Ok(
                        ScenarioOutcome {
                            backend: b,
                            status,
                            fault: None,
                            out,
                            gas,
                            contexts,
                            verdict,
                        },
                    )
                },
            }
        },
    }
}

/// Replays a batch of scenarios, one interpreter per scenario, and
/// collects every result, each carrying the full per-scenario
/// promises of [`run_scenario`]. A comparison failure never aborts
/// the batch: it is an ordinary outcome, reported per scenario with
/// its diff, and the remaining scenarios still run (test isolation).
/// Only the per-scenario result carries a fatal error, and a
/// scenario whose transaction overdraws its caller completes rather
/// than failing.
pub fn run_batch<I: Interpreter>(
    scenarios: &Vec<Scenario>,
    interps: &mut Vec<I>,
    max_steps: u64,
) -> (r: Vec<Result<ScenarioOutcome, Fault>>)
    requires
        scenarios@.len() == old(interps)@.len(),
        forall|i: int|
            0 <= i < scenarios@.len() ==> spec_pre_wf((#[trigger] scenarios@[i]).pre@),
    ensures
        r@.len() == scenarios@.len(),
        forall|i: int|
            0 <= i < r@.len() ==> ((#[trigger] r@[i]) matches Ok(o) ==> spec_outcome_ok(
                scenarios@[i],
                o,
            )),
        forall|i: int|
            0 <= i < r@.len() ==> ((#[trigger] r@[i]) matches Err(f) ==> (f
                == Fault::UnknownBlockNumber || f == Fault::InterpreterFatal)),
        forall|i: int|
            0 <= i < r@.len() ==> (scenarios@[i].transaction.value.as_nat() > spec_pre_balance(
                scenarios@[i].pre@,
                scenarios@[i].transaction.caller,
            ) ==> (#[trigger] r@[i]) is Ok),
{
    let n = scenarios.len();
    let mut results: Vec<Result<ScenarioOutcome, Fault>> = Vec::new();
    let mut i: usize = 0;
    while i < n
        invariant
            n == scenarios@.len(),
            n == interps@.len(),
            i <= n,
            results@.len() == i,
            forall|j: int|
                0 <= j < scenarios@.len() ==> spec_pre_wf((#[trigger] scenarios@[j]).pre@),
            forall|j: int|
                0 <= j < i ==> ((#[trigger] results@[j]) matches Ok(o) ==> spec_outcome_ok(
                    scenarios@[j],
                    o,
                )),
            forall|j: int|
                0 <= j < i ==> ((#[trigger] results@[j]) matches Err(f) ==> (f
                    == Fault::UnknownBlockNumber || f == Fault::InterpreterFatal)),
            forall|j: int|
                0 <= j < i ==> (scenarios@[j].transaction.value.as_nat() > spec_pre_balance(
                    scenarios@[j].pre@,
                    scenarios@[j].transaction.caller,
                ) ==> (#[trigger] results@[j]) is Ok),
        decreases n - i,
    {
        let outcome = run_scenario(&scenarios[i], &mut interps[i], max_steps);
        results.push(outcome);
        i = i + 1;
    }
    results
}

} // verus!
