//! The account-only state log: per-address access records over the plain
//! account type, with the same causality discipline as the EVM-keyed log.
//! Here a write always carries a concrete account record, so a
//! read-then-write keeps an optional original but a definite modified
//! value.

use vstd::prelude::*;

use crate::primitives::{opt_same, Account, Address, Word256};
use crate::sorted_log::{
    combine_opt, entries_sorted, find_pos, lemma_get_at_index, lemma_get_index,
    lemma_insert_sorted, lemma_key_facts, lemma_seq_merge_props, lemma_update_sorted,
    merge_entries, seq_get, Mergeable,
};
use crate::verifiable_state::evm::EvmStorageAddress;
use crate::MergeError;

verus! {

/// An account that was read as `original` (possibly absent) and later
/// overwritten to `modified`.
#[derive(Clone, Copy, Debug, PartialEq, Eq)]
pub struct ModifiedAccount {
    pub original: Option<Account>,
    pub modified: Account,
}

/// The collapsed record of the reads and writes one address saw.
#[derive(Clone, Copy, Debug, PartialEq, Eq)]
pub enum StateAccess {
    Read(Option<Account>),
    ReadThenWrite(ModifiedAccount),
    Write(Account),
}

/// The account value a record currently claims the address holds.
pub open spec fn state_current(a: StateAccess) -> Option<Account> {
    match a {
        StateAccess::Read(r) => r,
        StateAccess::ReadThenWrite(m) => Some(m.modified),
        StateAccess::Write(w) => Some(w),
    }
}

/// The merge table over the nine variant pairs; `None` marks a causality
/// violation.
pub open spec fn spec_state_merge(lhs: StateAccess, rhs: StateAccess) -> Option<StateAccess> {
    match (lhs, rhs) {
        (StateAccess::Read(l), StateAccess::Read(r)) => if l == r {
            Some(StateAccess::Read(l))
        } else {
            None
        },
        (StateAccess::Read(l), StateAccess::ReadThenWrite(r)) => if l == r.original {
            Some(StateAccess::ReadThenWrite(r))
        } else {
            None
        },
        (StateAccess::Read(l), StateAccess::Write(w)) => Some(
            StateAccess::ReadThenWrite(ModifiedAccount { original: l, modified: w }),
        ),
        (StateAccess::ReadThenWrite(l), StateAccess::Read(r)) => if Some(l.modified) == r {
            Some(StateAccess::ReadThenWrite(l))
        } else {
            None
        },
        (StateAccess::ReadThenWrite(l), StateAccess::ReadThenWrite(r)) => if r.original == Some(
            l.modified,
        ) {
            Some(
                StateAccess::ReadThenWrite(
                    ModifiedAccount { original: l.original, modified: r.modified },
                ),
            )
        } else {
            None
        },
        (StateAccess::ReadThenWrite(l), StateAccess::Write(w)) => Some(
            StateAccess::ReadThenWrite(ModifiedAccount { original: l.original, modified: w }),
        ),
        (StateAccess::Write(l), StateAccess::Read(r)) => if Some(l) == r {
            Some(StateAccess::Write(l))
        } else {
            None
        },
        (StateAccess::Write(l), StateAccess::ReadThenWrite(r)) => if r.original == Some(l) {
            Some(StateAccess::Write(r.modified))
        } else {
            None
        },
        (StateAccess::Write(_), StateAccess::Write(w)) => Some(StateAccess::Write(w)),
    }
}

impl StateAccess {
    /// Merge two records on the same address, the left one temporally
    /// preceding the right one.
    pub fn merge(self, rhs: Self) -> (r: Result<Self, MergeError>)
        ensures
            (match r {
                Ok(m) => spec_state_merge(self, rhs) == Some(m),
                Err(e) => spec_state_merge(self, rhs) is None && e
                    == MergeError::CausalityViolation,
            }),
    {
        match (self, rhs) {
            (StateAccess::Read(l), StateAccess::Read(r)) => {
                if opt_same(&l, &r) {
                    Ok(StateAccess::Read(l))
                } else {
                    Err(MergeError::CausalityViolation)
                }
            },
            (StateAccess::Read(l), StateAccess::ReadThenWrite(r)) => {
                if opt_same(&l, &r.original) {
                    Ok(StateAccess::ReadThenWrite(r))
                } else {
                    Err(MergeError::CausalityViolation)
                }
            },
            (StateAccess::Read(l), StateAccess::Write(w)) => Ok(
                StateAccess::ReadThenWrite(ModifiedAccount { original: l, modified: w }),
            ),
            (StateAccess::ReadThenWrite(l), StateAccess::Read(r)) => {
                if opt_same(&Some(l.modified), &r) {
                    Ok(StateAccess::ReadThenWrite(l))
                } else {
                    Err(MergeError::CausalityViolation)
                }
            },
            (StateAccess::ReadThenWrite(l), StateAccess::ReadThenWrite(r)) => {
                if opt_same(&r.original, &Some(l.modified)) {
                    Ok(
                        StateAccess::ReadThenWrite(
                            ModifiedAccount { original: l.original, modified: r.modified },
                        ),
                    )
                } else {
                    Err(MergeError::CausalityViolation)
                }
            },
            (StateAccess::ReadThenWrite(l), StateAccess::Write(w)) => Ok(
                StateAccess::ReadThenWrite(ModifiedAccount { original: l.original, modified: w }),
            ),
            (StateAccess::Write(l), StateAccess::Read(r)) => {
                if opt_same(&Some(l), &r) {
                    Ok(StateAccess::Write(l))
                } else {
                    Err(MergeError::CausalityViolation)
                }
            },
            (StateAccess::Write(l), StateAccess::ReadThenWrite(r)) => {
                if opt_same(&r.original, &Some(l)) {
                    Ok(StateAccess::Write(r.modified))
                } else {
                    Err(MergeError::CausalityViolation)
                }
            },
            (StateAccess::Write(_), StateAccess::Write(w)) => Ok(StateAccess::Write(w)),
        }
    }
}

impl Mergeable for StateAccess {
    open spec fn spec_combine(self, rhs: Self) -> Option<Self> {
        spec_state_merge(self, rhs)
    }

    fn combine(self, rhs: Self) -> (r: Result<Self, MergeError>) {
        self.merge(rhs)
    }
}

/// A state-access log over plain account records that can be merged with a
/// sibling log.
pub trait MergeableLog: Sized {
    /// The type a merge produces.
    type Merged;

    /// Well-formedness of the log (canonical internal ordering).
    spec fn wf_log(self) -> bool;

    /// Whether merging succeeds: both sides' records combine on every
    /// address recorded by both.
    spec fn merge_defined(self, rhs: Self) -> bool;

    /// What it means for `m` to be the merge of `self` and `rhs`.
    spec fn merge_rel(self, rhs: Self, m: Self::Merged) -> bool;

    /// Merge two state-access logs into a single one.
    fn merge(self, rhs: Self) -> (r: Result<Self::Merged, MergeError>)
        requires
            self.wf_log(),
            rhs.wf_log(),
        ensures
            (match r {
                Ok(m) => self.merge_defined(rhs) && self.merge_rel(rhs, m),
                Err(e) => !self.merge_defined(rhs) && e == MergeError::CausalityViolation,
            }),
    ;
}

/// A log that records account reads keyed by address.
pub trait OrderedReadLog: MergeableLog {
    /// Whether recording this read succeeds against the current log.
    spec fn read_defined(self, addr: Address, value: Option<Account>) -> bool;

    /// How the log after a successful read relates to the log before it.
    spec fn read_rel(self, addr: Address, value: Option<Account>, post: Self) -> bool;

    fn new() -> (r: Self)
        ensures
            r.wf_log(),
    ;

    fn add_read(&mut self, addr: &Address, value: &Option<Account>) -> (r: Result<
        (),
        MergeError,
    >)
        requires
            old(self).wf_log(),
        ensures
            final(self).wf_log(),
            (match r {
                Ok(()) => old(self).read_defined(*addr, *value) && old(self).read_rel(
                    *addr,
                    *value,
                    *final(self),
                ),
                Err(e) => !old(self).read_defined(*addr, *value) && e
                    == MergeError::CausalityViolation && *final(self) == *old(self),
            }),
    ;
}

/// A log that additionally records account writes; a write never fails.
pub trait OrderedRwLog: OrderedReadLog {
    /// How the log after a write relates to the log before it.
    spec fn write_rel(self, addr: Address, value: Account, post: Self) -> bool;

    fn add_write(&mut self, addr: &Address, value: Account)
        requires
            old(self).wf_log(),
        ensures
            final(self).wf_log(),
            old(self).write_rel(*addr, value, *final(self)),
    ;
}

/// The per-transaction leaf log: account records keyed by address, plus the
/// raw storage words the execution touched.
pub struct LeafStateLog {
    accounts: Vec<(Address, StateAccess)>,
    state: Vec<(EvmStorageAddress, Word256)>,
}

/// The record held after a read: a fresh read is installed, an agreeing
/// re-read leaves the record unchanged.
pub open spec fn leaf_after_read(cur: Option<StateAccess>, value: Option<Account>) -> StateAccess {
    match cur {
        None => StateAccess::Read(value),
        Some(a) => a,
    }
}

/// The record held after a write: installed, promoted to read-then-write,
/// or overwritten.
pub open spec fn leaf_after_write(cur: Option<StateAccess>, value: Account) -> StateAccess {
    match cur {
        None => StateAccess::Write(value),
        Some(StateAccess::Read(r)) => StateAccess::ReadThenWrite(
            ModifiedAccount { original: r, modified: value },
        ),
        Some(StateAccess::ReadThenWrite(m)) => StateAccess::ReadThenWrite(
            ModifiedAccount { original: m.original, modified: value },
        ),
        Some(StateAccess::Write(_)) => StateAccess::Write(value),
    }
}

impl LeafStateLog {
    pub closed spec fn accounts_view(self) -> Seq<(Address, StateAccess)> {
        self.accounts@
    }

    pub closed spec fn state_view(self) -> Seq<(EvmStorageAddress, Word256)> {
        self.state@
    }

    pub open spec fn wf(self) -> bool {
        entries_sorted(self.accounts_view())
    }

    pub open spec fn is_empty_log(self) -> bool {
        &&& self.accounts_view() == Seq::<(Address, StateAccess)>::empty()
        &&& self.state_view() == Seq::<(EvmStorageAddress, Word256)>::empty()
    }

    /// The access record held for an address, if any.
    pub fn get_account(&self, addr: &Address) -> (r: Option<StateAccess>)
        requires
            self.wf(),
        ensures
            r == seq_get(self.accounts_view(), *addr),
    {
        let (pos, found) = find_pos(&self.accounts, addr);
        if found {
            proof {
                lemma_get_at_index(self.accounts@, pos as int);
            }
            Some(self.accounts[pos].1)
        } else {
            proof {
                lemma_get_index(self.accounts@, *addr);
                if seq_get(self.accounts@, *addr) is Some {
                    let j = choose|j: int|
                        0 <= j < self.accounts@.len() && (#[trigger] self.accounts@[j]).0
                            == *addr;
                    lemma_key_facts(*addr, self.accounts@[j].0);
                }
            }
            None
        }
    }
}

impl Default for LeafStateLog {
    fn default() -> (r: LeafStateLog)
        ensures
            r.wf(),
            r.is_empty_log(),
    {
        LeafStateLog { accounts: Vec::new(), state: Vec::new() }
    }
}

impl MergeableLog for LeafStateLog {
    type Merged = Vec<(Address, StateAccess)>;

    open spec fn wf_log(self) -> bool {
        self.wf()
    }

    open spec fn merge_defined(self, rhs: Self) -> bool {
        forall|k: Address|
            #[trigger] combine_opt(
                seq_get(self.accounts_view(), k),
                seq_get(rhs.accounts_view(), k),
            ) is Some
    }

    open spec fn merge_rel(self, rhs: Self, m: Self::Merged) -> bool {
        &&& entries_sorted(m@)
        &&& (forall|k: Address|
            seq_get(m@, k) == #[trigger] combine_opt(
                seq_get(self.accounts_view(), k),
                seq_get(rhs.accounts_view(), k),
            )->Some_0)
    }

    /// Merge the account records of two executions into one canonical
    /// sorted sequence, combining the records of shared addresses.
    fn merge(self, rhs: Self) -> (r: Result<Self::Merged, MergeError>) {
        proof {
            lemma_seq_merge_props(self.accounts@, rhs.accounts@);
        }
        merge_entries(self.accounts, rhs.accounts)
    }
}

/// The canonical merged form can itself be merged again.
impl MergeableLog for Vec<(Address, StateAccess)> {
    type Merged = Vec<(Address, StateAccess)>;

    open spec fn wf_log(self) -> bool {
        entries_sorted(self@)
    }

    open spec fn merge_defined(self, rhs: Self) -> bool {
        forall|k: Address| #[trigger] combine_opt(seq_get(self@, k), seq_get(rhs@, k)) is Some
    }

    open spec fn merge_rel(self, rhs: Self, m: Self::Merged) -> bool {
        &&& entries_sorted(m@)
        &&& (forall|k: Address|
            seq_get(m@, k) == #[trigger] combine_opt(
                seq_get(self@, k),
                seq_get(rhs@, k),
            )->Some_0)
    }

    /// Two-pointer merge of two sorted account sequences.
    fn merge(self, rhs: Self) -> (r: Result<Self::Merged, MergeError>) {
        proof {
            lemma_seq_merge_props(self@, rhs@);
        }
        merge_entries(self, rhs)
    }
}

impl OrderedReadLog for LeafStateLog {
    open spec fn read_defined(self, addr: Address, value: Option<Account>) -> bool {
        match seq_get(self.accounts_view(), addr) {
            None => true,
            Some(a) => state_current(a) == value,
        }
    }

    open spec fn read_rel(self, addr: Address, value: Option<Account>, post: Self) -> bool {
        &&& post.state_view() == self.state_view()
        &&& seq_get(post.accounts_view(), addr) == Some(
            leaf_after_read(seq_get(self.accounts_view(), addr), value),
        )
        &&& (forall|k2: Address|
            k2 != addr ==> #[trigger] seq_get(post.accounts_view(), k2) == seq_get(
                self.accounts_view(),
                k2,
            ))
    }

    fn new() -> (r: Self)
        ensures
            r.is_empty_log(),
    {
        LeafStateLog { accounts: Vec::new(), state: Vec::new() }
    }

    /// Record a read of an address observing `value`; a repeated
    /// observation must agree with the record's current value.
    fn add_read(&mut self, addr: &Address, value: &Option<Account>) -> (r: Result<
        (),
        MergeError,
    >) {
        let (pos, found) = find_pos(&self.accounts, addr);
        if found {
            proof {
                lemma_get_at_index(self.accounts@, pos as int);
            }
            let cur = match &self.accounts[pos].1 {
                StateAccess::Read(r) => *r,
                StateAccess::ReadThenWrite(m) => Some(m.modified),
                StateAccess::Write(w) => Some(*w),
            };
            if opt_same(&cur, value) {
                Ok(())
            } else {
                Err(MergeError::CausalityViolation)
            }
        } else {
            proof {
                lemma_get_index(self.accounts@, *addr);
                if seq_get(self.accounts@, *addr) is Some {
                    let j = choose|j: int|
                        0 <= j < self.accounts@.len() && (#[trigger] self.accounts@[j]).0
                            == *addr;
                    lemma_key_facts(*addr, self.accounts@[j].0);
                }
                lemma_insert_sorted(
                    self.accounts@,
                    pos as int,
                    *addr,
                    StateAccess::Read(*value),
                );
            }
            self.accounts.insert(pos, (*addr, StateAccess::Read(*value)));
            Ok(())
        }
    }
}

impl OrderedRwLog for LeafStateLog {
    open spec fn write_rel(self, addr: Address, value: Account, post: Self) -> bool {
        &&& post.state_view() == self.state_view()
        &&& seq_get(post.accounts_view(), addr) == Some(
            leaf_after_write(seq_get(self.accounts_view(), addr), value),
        )
        &&& (forall|k2: Address|
            k2 != addr ==> #[trigger] seq_get(post.accounts_view(), k2) == seq_get(
                self.accounts_view(),
                k2,
            ))
    }

    /// Record a write of `value` to an address: installed, promoted to
    /// read-then-write, or overwriting an existing write.
    fn add_write(&mut self, addr: &Address, value: Account) {
        let (pos, found) = find_pos(&self.accounts, addr);
        if found {
            proof {
                lemma_get_at_index(self.accounts@, pos as int);
            }
            let updated = match &self.accounts[pos].1 {
                StateAccess::Read(r) => StateAccess::ReadThenWrite(
                    ModifiedAccount { original: *r, modified: value },
                ),
                StateAccess::ReadThenWrite(m) => StateAccess::ReadThenWrite(
                    ModifiedAccount { original: m.original, modified: value },
                ),
                StateAccess::Write(_) => StateAccess::Write(value),
            };
            proof {
                lemma_update_sorted(self.accounts@, pos as int, updated);
            }
            let ghost before = self.accounts@;
            self.accounts.remove(pos);
            self.accounts.insert(pos, (*addr, updated));
            proof {
                assert(self.accounts@ =~= before.update(pos as int, (*addr, updated)));
            }
        } else {
            proof {
                lemma_get_index(self.accounts@, *addr);
                if seq_get(self.accounts@, *addr) is Some {
                    let j = choose|j: int|
                        0 <= j < self.accounts@.len() && (#[trigger] self.accounts@[j]).0
                            == *addr;
                    lemma_key_facts(*addr, self.accounts@[j].0);
                }
                lemma_insert_sorted(
                    self.accounts@,
                    pos as int,
                    *addr,
                    StateAccess::Write(value),
                );
            }
            self.accounts.insert(pos, (*addr, StateAccess::Write(value)));
        }
    }
}

} // verus!
