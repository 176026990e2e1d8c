//! An in-memory, revertible account ledger for driving a bytecode
//! interpreter, together with a conformance oracle that replays
//! declarative transaction scenarios and checks the resulting state.
//!
//! The pieces, leaves first: [`words`] holds the 256-bit words and
//! 160-bit addresses everything is keyed by; [`state`] the account
//! store itself — balances, nonces, code, storage, coldness, logs;
//! [`backend`] the transactional layer of substate snapshots above
//! the store, plus the mock block environment; [`resolve`] the
//! pull-based loop that feeds an external interpreter the state it
//! asks for; [`oracle`] the scenario replayer and result differ;
//! [`parse`] the scenario format's number and byte-string fields;
//! [`digest`] the canonical log serialization and digest; [`laws`]
//! the headline guarantees, stated once over the same spec functions
//! the operations' contracts use.

use vstd::prelude::*;

pub mod backend;
pub mod digest;
pub mod errors;
pub mod laws;
pub mod oracle;
pub mod parse;
pub mod resolve;
pub mod state;
pub mod words;

verus! {

/// A friendly liveness probe: callers use it to check that the
/// library is linked and reachable.
pub fn greet() -> (r: String)
    ensures
        r@ == "Hello world from Rust!"@,
{
    "Hello world from Rust!".to_string()
}

} // verus!
