//! The ledger's headline guarantees, stated and proved once, in the
//! same vocabulary the operations' own contracts use.

use vstd::prelude::*;

use crate::backend::{BackendV, MergeStrategy, MyBackend};
use crate::errors::Fault;
use crate::state::{
    lemma_inc_nonce_effect, lemma_push_effect, lemma_update_effect, warm_contains, AccountV,
    StateV,
};
use crate::words::{pow256, Address, W256};

verus! {

/// After `n` successful `inc_nonce` calls, an account's nonce has
/// grown by exactly `n`, and nothing else has changed: not another
/// field of this account, not any other account, not the logs, the
/// original-value records, the substate stack or the block. Every
/// call here is successful because the shell exists; the nonce is
/// nowhere near its saturation point by the precondition.
pub fn nonce_after_increments(b: &mut MyBackend, a: Address, n: u64)
    requires
        old(b)@.wf(),
        old(b)@.state.has_account(a),
        old(b)@.state.nonce_of(a) + n < pow256(),
    ensures
        final(b)@.wf(),
        final(b)@.state.nonce_of(a) == old(b)@.state.nonce_of(a) + n,
        final(b)@.state.account_or_zero(a) == (AccountV {
            nonce: (old(b)@.state.nonce_of(a) + n) as nat,
            ..old(b)@.state.account_or_zero(a)
        }),
        forall|x: Address|
            x != a ==> final(b)@.state.account_or_zero(x) == old(b)@.state.account_or_zero(x),
        forall|x: Address| final(b)@.state.has_account(x) == old(b)@.state.has_account(x),
        final(b)@.state.logs == old(b)@.state.logs,
        final(b)@.state.originals == old(b)@.state.originals,
        final(b)@.frames == old(b)@.frames,
        final(b).mock_block == old(b).mock_block,
{
    let ghost s0 = b@.state;
    let ghost nonce0 = s0.nonce_of(a);
    let mut i: u64 = 0;
    while i < n
        invariant
            b@.wf(),
            b@.state.has_account(a),
            i <= n,
            nonce0 == s0.nonce_of(a),
            b@.state.nonce_of(a) == nonce0 + i,
            b@.state.account_or_zero(a) == (AccountV {
                nonce: (nonce0 + i) as nat,
                ..s0.account_or_zero(a)
            }),
            forall|x: Address|
                x != a ==> b@.state.account_or_zero(x) == s0.account_or_zero(x),
            forall|x: Address| b@.state.has_account(x) == s0.has_account(x),
            b@.state.logs == s0.logs,
            b@.state.originals == s0.originals,
            b@.frames == old(b)@.frames,
            b.mock_block == old(b).mock_block,
            nonce0 + n < pow256(),
        decreases n - i,
    {
        proof {
            lemma_inc_nonce_effect(b@.state, a);
        }
        let r = b.inc_nonce(a);
        proof {
            assert(r is Ok);
        }
        i = i + 1;
    }
}

/// Withdrawing one more than the balance always fails with
/// `InsufficientFunds` and leaves the whole backend — balance
/// included — unchanged. (A balance cannot go negative at all: it is
/// a natural number in the model, and `withdrawal` only ever
/// subtracts an amount it first checked.)
pub fn overdraw_fails(b: &mut MyBackend, a: Address) -> (r: Result<(), Fault>)
    requires
        old(b)@.wf(),
        old(b)@.state.balance_of(a) + 1 < pow256(),
    ensures
        r == Err::<(), Fault>(Fault::InsufficientFunds),
        final(b)@ == old(b)@,
{
    let bal = b.balance(a);
    let amount = match bal.checked_add(W256::from_u64(1)) {
        Some(x) => x,
        None => bal,
    };
    b.withdrawal(a, amount)
}

/// A withdrawal never leaves a balance below zero: balances are
/// natural numbers in the model, and a successful withdrawal of `v`
/// — which `withdrawal` only permits when `v` is covered — leaves
/// exactly the old balance minus `v`, with every other account
/// untouched.
pub proof fn lemma_withdraw_balance(s: StateV, a: Address, v: nat)
    requires
        s.wf(),
        v <= s.balance_of(a),
    ensures
        s.spec_withdraw(a, v).balance_of(a) == s.balance_of(a) - v,
        forall|x: Address|
            x != a ==> s.spec_withdraw(a, v).account_or_zero(x) == s.account_or_zero(x),
{
    let t = s.spec_withdraw(a, v);
    if s.has_account(a) {
        lemma_update_effect(s, t, a);
    } else {
        lemma_push_effect(s, t, a);
    }
}

/// Inside a transaction, coldness only ever transitions cold to
/// warm: whatever `mark_hot` touches, any address or storage key
/// that reads cold afterwards already read cold before. (Only a
/// substate revert restores coldness, and it restores it exactly.)
pub proof fn lemma_warming_monotone(
    s: StateV,
    a: Address,
    k: Option<W256>,
    x: Address,
    q: Option<W256>,
)
    requires
        s.wf(),
    ensures
        s.spec_mark_hot(a, k).is_cold(x, q) ==> s.is_cold(x, q),
{
    let t = s.spec_mark_hot(a, k);
    if s.has_account(a) {
        match k {
            None => {
                lemma_update_effect(s, t, a);
            },
            Some(key) => {
                if !warm_contains(s.account_or_zero(a).warm_keys, key) {
                    lemma_update_effect(s, t, a);
                    if x == a {
                        match q {
                            None => {
                            },
                            Some(qk) => {
                                let w0 = s.account_or_zero(a).warm_keys;
                                if warm_contains(w0, qk) {
                                    let i = choose|i: int| 0 <= i < w0.len() && w0[i] == qk;
                                    assert(w0.push(key)[i] == qk);
                                }
                            },
                        }
                    }
                }
            },
        }
    }
}

/// Revert round-trip: push a substate, overwrite a storage slot, pop
/// with `Revert` — the slot reads its pre-push value again, the key's
/// coldness is back to its pre-push value, and in fact the whole
/// state and the substate stack are exactly as before the push.
pub proof fn lemma_revert_round_trip(b: BackendV, a: Address, k: W256, v2: W256)
    requires
        b.wf(),
        b.state.has_account(a),
    ensures
        ({
            let after = b.spec_push().with_state(b.state.spec_set_storage(a, k, v2)).spec_pop(
                MergeStrategy::Revert,
            );
            &&& after.state.storage_at(a, k) == b.state.storage_at(a, k)
            &&& after.state.is_cold(a, Some(k)) == b.state.is_cold(a, Some(k))
            &&& after.state == b.state
            &&& after.frames == b.frames
        }),
{
    assert(b.frames.push(b.state).drop_last() =~= b.frames);
}

/// Discard finality: push twice, overwrite a storage slot, pop with
/// `Discard`, then pop the outer scope with `Commit` — the discarded
/// inner mutation does not resurrect: the slot reads its original
/// value, and the state is exactly as before both pushes.
pub proof fn lemma_discard_finality(b: BackendV, a: Address, k: W256, v2: W256)
    requires
        b.wf(),
        b.state.has_account(a),
    ensures
        ({
            let after = b.spec_push().spec_push().with_state(
                b.state.spec_set_storage(a, k, v2),
            ).spec_pop(MergeStrategy::Discard).spec_pop(MergeStrategy::Commit);
            &&& after.state.storage_at(a, k) == b.state.storage_at(a, k)
            &&& after.state == b.state
            &&& after.frames == b.frames
        }),
{
    let f1 = b.frames.push(b.state);
    let f2 = f1.push(b.state);
    assert(f2.drop_last() =~= f1);
    assert(f1.drop_last() =~= b.frames);
}

} // verus!
