//! Verifiable-execution core of a zero-knowledge rollup: a state-access log
//! with a mergeable per-key access algebra, a host database adapter that
//! self-verifies untrusted host values, and a transaction-tree composition
//! algebra for recursive proof aggregation.

use vstd::prelude::*;

pub mod ari;
pub mod codec;
pub mod db;
pub mod primitives;
pub mod sorted_log;
pub mod state_log;
pub mod tx;
pub mod tx_trie;
pub mod verifiable_state;

verus! {

/// A merge of two access records, logs, or transaction trees has failed.
/// All of these are fatal to the current proving task.
#[derive(Clone, Copy, Debug, PartialEq, Eq, Structural)]
pub enum MergeError {
    /// A read disagrees with a prior access's current value, or a merge
    /// found mismatched state endpoints.
    CausalityViolation,
    /// Two transaction trees were merged with differing environments.
    EnvMismatch,
    /// The left-hand transition must be fully applied before the right-hand
    /// transition can be anything other than purely logged.
    OrderingViolation,
}

/// A unit of work for the proving pipeline: either still to be proven here,
/// or handed off to another prover.
#[derive(Clone, Copy, Debug, PartialEq, Eq, Structural)]
pub enum Job {
    Todo,
    Delegated,
}

/// Reasons a sequenced bundle may be rejected before execution.
#[derive(Clone, Copy, Debug, PartialEq, Eq, Structural)]
pub enum BundlePrevalidationError {
    InsufficientFunds,
    NotASequencer,
}

/// Reasons a raw bundle may fail to parse into transactions.
#[derive(Clone, Copy, Debug, PartialEq, Eq, Structural)]
pub enum DeserializationError {
    Malformed,
}

/// Transaction-level signature failures, surfaced with a deliberately coarse
/// taxonomy.
#[derive(Clone, Copy, Debug, PartialEq, Eq, Structural)]
pub enum SignatureValidationError {
    Any,
}

/// A placeholder for a sequenced bundle of raw transactions.
pub struct Bundle;

/// The ledger of sequencer bonds in the underlying data-availability
/// layer; maintained outside this core and consulted during bundle
/// prevalidation.
pub trait SequencerState {
    /// An address in the underlying DA layer.
    type Address;

    /// The base unit of the currency used for bonding sequencers.
    type Units;

    /// Returns the balance of a given sequencer.
    fn balance_of(address: Self::Address) -> Self::Units;

    /// Returns true if and only if the sequencer is currently eligible
    /// based on their outstanding balance.
    fn is_eligible(address: Self::Address) -> bool;

    /// Increment the sequencer's balance by the provided amount. Returns
    /// the new balance.
    fn increase_balance(address: Self::Address, amount: Self::Units) -> Self::Units;

    /// Decrease the sequencer's balance by the provided amount. Returns
    /// the new balance.
    fn decrease_balance(address: Self::Address, amount: Self::Units) -> Self::Units;
}

/// The rollup pipeline: bundle intake, prevalidation, execution and
/// commitment. The steps that drive the interpreter or the host channel
/// are implemented by the surrounding pipeline.
pub trait Ari {
    type Transaction;

    type Address;

    type StateCommitment;

    /// Split raw data-availability bytes into per-sequencer bundles.
    fn next_bundle(bytes: &[u8]) -> Vec<(Self::Address, Vec<u8>)>;

    /// Validates that the sequencer is registered and has sufficient funds
    /// to pay for the bundle's bytes.
    fn prevalidate_bundle<L: verifiable_state::OrderedReadLog>(
        sequencer: Self::Address,
        bytes: &[u8],
        read_log: L,
    ) -> Result<Vec<u8>, BundlePrevalidationError>;

    /// Deserializes the raw bundle into a list of transactions.
    fn deserialize_bundle<L: verifiable_state::OrderedReadLog>(
        sequencer: Self::Address,
        bytes: &[u8],
        rw_log: L,
    ) -> Result<Bundle, DeserializationError>;

    fn filter_transactions<L: verifiable_state::OrderedRwLog>(bundle: Bundle, rw_log: L) -> Vec<
        Self::Transaction,
    >;

    /// Applies all transactions, updating the state (including the
    /// sequencer balance) as necessary via the log.
    fn apply_transactions<L: verifiable_state::OrderedRwLog>(
        bundle: Vec<Self::Transaction>,
        rw_log: L,
    ) -> Result<(), SignatureValidationError>;

    /// Executes a transaction and adds its state into the log.
    fn execute_transaction<L: verifiable_state::OrderedRwLog>(tx: Self::Transaction) -> Result<
        L,
        SignatureValidationError,
    >;

    /// Verifies execution of a transaction and merges its state into the
    /// log.
    fn verify_transaction<L: verifiable_state::OrderedRwLog>(
        tx: Self::Transaction,
        rw_log: L,
    ) -> Result<(), SignatureValidationError>;

    /// Evaluates a sealed log against the prior commitment, producing the
    /// successor commitment.
    fn apply_rw_log<L: verifiable_state::OrderedRwLog>(
        prev_state_commit: Self::StateCommitment,
        rw_log: L,
    ) -> Self::StateCommitment;
}

} // verus!
