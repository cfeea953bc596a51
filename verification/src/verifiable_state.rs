//! The verifiable state-access log: per-key access records (`access`), the
//! EVM-keyed log over accounts, storage slots and block hashes (`evm`), and
//! the capability traits a log exposes to the host database and the
//! transaction tree.

use vstd::prelude::*;

pub mod access;
pub mod evm;

use crate::primitives::{Account, Address, Hash256, Word256};
use crate::verifiable_state::evm::EvmStorageAddress;
use crate::MergeError;

verus! {

/// A value that could exist in the sparse authenticated state. Since the
/// commitment layer does not represent "zero" values, every payload is an
/// `Option`: `None` means the key is absent and the type's default value
/// applies; `Some` means the value is actually present.
#[derive(Clone, Copy, Debug, PartialEq, Eq)]
pub enum EvmStateEntry {
    Accounts(Address, Option<Account>),
    Storage(EvmStorageAddress, Option<Word256>),
    Blockhash(u64, Option<Hash256>),
}

/// A state-access log that can be merged with a sibling log into a single
/// canonical log covering both executions.
pub trait MergeableLog: Sized {
    /// The type a merge produces.
    type Merged;

    /// Well-formedness of the log (canonical internal ordering).
    spec fn wf_log(self) -> bool;

    /// Whether merging `self` with `rhs` succeeds, i.e. every key recorded
    /// by both sides carries compatible access records.
    spec fn merge_defined(self, rhs: Self) -> bool;

    /// What it means for `m` to be the merge of `self` and `rhs`.
    spec fn merge_rel(self, rhs: Self, m: Self::Merged) -> bool;

    /// Merge two state-access logs into a single one.
    fn merge(self, rhs: Self) -> (r: Result<Self::Merged, MergeError>)
        requires
            self.wf_log(),
            rhs.wf_log(),
        ensures
            (match r {
                Ok(m) => self.merge_defined(rhs) && self.merge_rel(rhs, m),
                Err(e) => !self.merge_defined(rhs) && e == MergeError::CausalityViolation,
            }),
    ;
}

/// A log that records reads driven by the interpreter. A read of a key that
/// was already accessed must agree with that access's current view of the
/// value; disagreement is a causality violation.
pub trait OrderedReadLog: MergeableLog {
    /// The typed key/value pair a single read or write carries.
    type State;

    /// Whether recording `item` as a read succeeds against the current log.
    spec fn read_defined(self, item: Self::State) -> bool;

    /// How the log after a successful read relates to the log before it.
    spec fn read_rel(self, item: Self::State, post: Self) -> bool;

    fn add_read(&mut self, item: &Self::State) -> (r: Result<(), MergeError>)
        requires
            old(self).wf_log(),
        ensures
            final(self).wf_log(),
            (match r {
                Ok(()) => old(self).read_defined(*item) && old(self).read_rel(
                    *item,
                    *final(self),
                ),
                Err(e) => !old(self).read_defined(*item) && e
                    == MergeError::CausalityViolation && *final(self) == *old(self),
            }),
    ;
}

/// A log that additionally records writes. A write never fails: it installs,
/// promotes, or overwrites the access record for its key.
pub trait OrderedRwLog: OrderedReadLog {
    /// Which items may be written at all (block hashes are read-only).
    spec fn write_allowed(item: Self::State) -> bool;

    /// How the log after a write relates to the log before it.
    spec fn write_rel(self, item: Self::State, post: Self) -> bool;

    fn add_write(&mut self, item: Self::State)
        requires
            old(self).wf_log(),
            Self::write_allowed(item),
        ensures
            final(self).wf_log(),
            old(self).write_rel(item, *final(self)),
    ;
}

} // verus!
