//! The resolution loop: a pull-based protocol that drives an opaque
//! bytecode interpreter across one execution.
//!
//! The interpreter is stepped; when it reports a requirement — an
//! account, its code, one storage word, or a historical block hash —
//! the loop resolves it against the backend and commits the answer
//! back into the interpreter's local view, then steps again. The
//! interpreter never blocks on I/O and the backend never re-enters
//! the interpreter, so there is no callback re-entrancy. Block-hash
//! requirements are answered from a small fixed table of canonical
//! test values; any other number is fatal and stops the loop at once.

use vstd::prelude::*;

use crate::backend::MyBackend;
use crate::errors::Fault;
use crate::state::{AccountChange, CallContext, LogRecord};
use crate::words::{Address, W256};

verus! {

/// The terminal status the interpreter reports for a run.
#[derive(Clone, Copy, PartialEq, Eq, Structural, Debug)]
pub enum RunStatus {
    /// The run completed and its effects may be applied.
    Succeed,
    /// The run failed cleanly (for example it reverted); state is
    /// still internally consistent.
    Exception,
    /// The interpreter reported an unrecoverable failure.
    Fatal,
}

/// What the interpreter asks for before it can continue.
#[derive(Clone, Copy, PartialEq, Eq, Structural, Debug)]
pub enum Requirement {
    /// The full account under an address.
    Account(Address),
    /// Only the code under an address.
    AccountCode(Address),
    /// One storage word of an account.
    AccountStorage(Address, W256),
    /// The hash of a historical block.
    BlockHash(W256),
}

/// One step of the interpreter: either it is done, or it needs a
/// value resolved first.
#[derive(Clone, Copy, PartialEq, Eq, Structural, Debug)]
pub enum StepEvent {
    Done(RunStatus),
    Require(Requirement),
}

/// The answer the loop commits back into the interpreter's local
/// view.
#[derive(Debug)]
pub enum Commitment {
    /// The account exists: its balance, nonce and code.
    Full { address: Address, balance: W256, nonce: W256, code: Vec<u8> },
    /// No shell has been materialized for the address; it reads as
    /// the implicit zero account.
    Nonexist(Address),
    /// The code under an address.
    Code { address: Address, code: Vec<u8> },
    /// One storage word.
    Storage { address: Address, key: W256, value: W256 },
    /// One historical block hash from the canonical table.
    BlockHash { number: W256, hash: W256 },
}

/// The interface the external interpreter implements; this crate
/// only consumes it. The methods carry no contracts: nothing is
/// assumed about the interpreter's behaviour, and everything proved
/// here holds whatever its answers are.
pub trait Interpreter {
    /// The terminal status of the run so far.
    fn status(&self) -> RunStatus;

    /// Performs one execution step.
    fn step(&mut self) -> StepEvent;

    /// Commits a resolved account requirement into the interpreter's
    /// local view.
    fn commit_account(&mut self, c: Commitment);

    /// Commits a resolved block-hash requirement.
    fn commit_blockhash(&mut self, number: W256, hash: W256);

    /// The run's output bytes.
    fn out(&self) -> Vec<u8>;

    /// The gas left after the run.
    fn available_gas(&self) -> W256;

    /// The run's final account-change set.
    fn accounts(&self) -> Vec<AccountChange>;

    /// The logs the run emitted, in order.
    fn logs(&self) -> Vec<LogRecord>;

    /// The nested execution contexts entered during the run, in
    /// order; the oracle checks them against a scenario's expected
    /// call list.
    fn contexts(&self) -> Vec<CallContext>;
}

/// The canonical block hash recorded for block `n`: the table holds
/// exactly the numbers one, two and three.
pub open spec fn spec_canonical_block_hash(n: nat) -> Option<W256> {
    if n == 1 {
        Some(W256 { limb0: 1, limb1: 0xb10c, limb2: 0xb10c, limb3: 0xb10c })
    } else if n == 2 {
        Some(W256 { limb0: 2, limb1: 0xb10c, limb2: 0xb10c, limb3: 0xb10c })
    } else if n == 3 {
        Some(W256 { limb0: 3, limb1: 0xb10c, limb2: 0xb10c, limb3: 0xb10c })
    } else {
        None
    }
}

/// Looks a block number up in the canonical table.
pub fn canonical_block_hash(n: W256) -> (r: Option<W256>)
    ensures
        r == spec_canonical_block_hash(n.as_nat()),
{
    let one = W256::from_u64(1);
    let two = W256::from_u64(2);
    let three = W256::from_u64(3);
    proof {
        if n.as_nat() == 1 {
            n.lemma_value_injective(one);
        }
        if n.as_nat() == 2 {
            n.lemma_value_injective(two);
        }
        if n.as_nat() == 3 {
            n.lemma_value_injective(three);
        }
    }
    if n == one {
        Some(W256 { limb0: 1, limb1: 0xb10c, limb2: 0xb10c, limb3: 0xb10c })
    } else if n == two {
        Some(W256 { limb0: 2, limb1: 0xb10c, limb2: 0xb10c, limb3: 0xb10c })
    } else if n == three {
        Some(W256 { limb0: 3, limb1: 0xb10c, limb2: 0xb10c, limb3: 0xb10c })
    } else {
        None
    }
}

/// Resolves one interpreter requirement against the backend.
///
/// Reads never fail: an absent account resolves to `Nonexist`, an
/// unknown storage key to the zero word. The one fatal case is a
/// block-hash requirement outside the canonical table.
pub fn resolve_requirement(b: &MyBackend, req: Requirement) -> (r: Result<Commitment, Fault>)
    requires
        b@.wf(),
    ensures
        match r {
            Ok(c) => match req {
                Requirement::Account(a) => if b@.state.has_account(a) {
                    c matches Commitment::Full { address, balance, nonce, code }
                        && address == a && balance.as_nat() == b@.state.balance_of(a)
                        && nonce.as_nat() == b@.state.nonce_of(a) && code@ == b@.state.code_of(a)
                } else {
                    c matches Commitment::Nonexist(address) && address == a
                },
                Requirement::AccountCode(a) => c matches Commitment::Code { address, code }
                    && address == a && code@ == b@.state.code_of(a),
                Requirement::AccountStorage(a, k) => c matches Commitment::Storage {
                    address,
                    key,
                    value,
                } && address == a && key == k && value == b@.state.storage_at(a, k),
                Requirement::BlockHash(n) => c matches Commitment::BlockHash { number, hash }
                    && number == n && spec_canonical_block_hash(n.as_nat()) == Some(hash),
            },
            Err(f) => f == Fault::UnknownBlockNumber && (req matches Requirement::BlockHash(n)
                && spec_canonical_block_hash(n.as_nat()) is None),
        },
{
    match req {
        Requirement::Account(a) => {
            if b.account_exists(a) {
                Ok(
                    Commitment::Full {
                        address: a,
                        balance: b.balance(a),
                        nonce: b.nonce(a),
                        code: b.code(a),
                    },
                )
            } else {
                Ok(Commitment::Nonexist(a))
            }
        },
        Requirement::AccountCode(a) => Ok(Commitment::Code { address: a, code: b.code(a) }),
        Requirement::AccountStorage(a, k) => Ok(
            Commitment::Storage { address: a, key: k, value: b.storage(a, k) },
        ),
        Requirement::BlockHash(n) => match canonical_block_hash(n) {
            Some(h) => Ok(Commitment::BlockHash { number: n, hash: h }),
            None => Err(Fault::UnknownBlockNumber),
        },
    }
}

/// Drives the interpreter to a terminal status, resolving each
/// requirement it reports at most once per occurrence.
///
/// The backend is only read; it is unchanged when the loop returns.
/// `max_steps` bounds the number of resolve-and-resume cycles — the
/// interpreter's own gas metering bounds real runs long before any
/// generous budget — and exhausting it reports the interpreter as
/// fatally stuck. The only other failure is a block-hash requirement
/// outside the canonical table: the loop must not spin on it.
pub fn run_resolution_loop<I: Interpreter>(b: &MyBackend, interp: &mut I, max_steps: u64) -> (r:
    Result<RunStatus, Fault>)
    requires
        b@.wf(),
    ensures
        match r {
            Ok(status) => true,
            Err(f) => f == Fault::UnknownBlockNumber || f == Fault::InterpreterFatal,
        },
{
    let mut steps: u64 = 0;
    while steps < max_steps
        invariant
            b@.wf(),
            steps <= max_steps,
        decreases max_steps - steps,
    {
        match interp.step() {
            StepEvent::Done(status) => {
                return Ok(status);
            },
            StepEvent::Require(req) => {
                match resolve_requirement(b, req) {
                    Ok(c) => match c {
                        Commitment::BlockHash { number, hash } => {
                            interp.commit_blockhash(number, hash);
                        },
                        other => {
                            interp.commit_account(other);
                        },
                    },
                    Err(f) => {
                        return Err(f);
                    },
                }
            },
        }
        steps = steps + 1;
    }
    Err(Fault::InterpreterFatal)
}

} // verus!
