//! The transaction capability: a transaction that can run standalone
//! against its own fresh log and wrap the result into a transaction tree.
//! Running a transaction drives the EVM interpreter, which lives outside
//! this crate, so the trait is declared here for the surrounding pipeline
//! to implement.

use vstd::prelude::*;

use crate::tx_trie::TxTree;
use crate::verifiable_state::OrderedRwLog;

verus! {

pub trait Transaction where Self: Sized {
    type Env: PartialEq;

    type StateCommitment;

    type Log: OrderedRwLog;

    /// Execute this transaction alone: drive the interpreter against a
    /// fresh log and wrap the sealed log into a tree covering just this
    /// transaction.
    fn run_standalone(&self, env: Self::Env, log: &mut Self::Log) -> TxTree<
        Self::StateCommitment,
        Self,
        Self::Log,
        Self::Env,
    >;
}

} // verus!
