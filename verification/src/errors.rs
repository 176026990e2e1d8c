//! The error taxonomy of the ledger.

use vstd::prelude::*;

verus! {

/// What can go wrong while the ledger and the resolution loop run.
///
/// `InsufficientFunds` is transaction-level and recoverable: the run is
/// failed-but-clean. `AccountNotFound` signals a caller-protocol
/// violation (a mutation of an address whose shell was never created)
/// and `UnknownBlockNumber` a block-hash requirement outside the
/// canonical table: both are fatal, no further state of the run may be
/// trusted. `MalformedScenario` is a parse-time failure, recoverable
/// per scenario. `InterpreterFatal` surfaces an opaque failure of the
/// external interpreter. An oracle comparison failure is not a variant
/// here: it carries a structured diff in the oracle's own `Verdict`
/// type.
#[derive(Clone, Copy, PartialEq, Eq, Structural, Debug)]
pub enum Fault {
    InsufficientFunds,
    AccountNotFound,
    UnknownBlockNumber,
    MalformedScenario,
    InterpreterFatal,
}

} // verus!
