//! The host database: the adapter the EVM interpreter queries for state.
//! Every value the untrusted host proposes is recorded into the state log
//! as a witnessed read, and self-verified where possible: code must hash to
//! the hash it was requested by, and accounts may never carry code inline.
//!
//! The host channel itself (the untrusted input tape) lives outside this
//! crate; these functions take the proposed values as arguments and decide
//! what to record, return, or reject.

use vstd::prelude::*;

use sha3::Digest;

use crate::primitives::{Account, Address, Hash256, Word256};
use crate::verifiable_state::evm::EvmStorageAddress;
use crate::verifiable_state::{EvmStateEntry, MergeableLog, OrderedReadLog, OrderedRwLog};
use crate::MergeError;

verus! {

/// Failures of the host database, all fatal to the current proving task.
#[derive(Clone, Copy, Debug, PartialEq, Eq, Structural)]
pub enum HostDBError {
    /// A block-hash read returned no value.
    InvalidBlockHashRequest,
    /// The host tried to pass contract code inline with an account record.
    UnverifiedBytecode,
    /// Code fetched by hash did not hash to the requested value.
    HashMismatch,
    /// A proposed value disagrees with a previously recorded access.
    CausalityViolation,
}

/// The account record as the host proposes it: the commitment-level fields
/// plus optionally inlined contract code, which the database rejects.
#[derive(Clone, Debug, PartialEq, Eq)]
pub struct AccountPayload {
    pub info: Account,
    pub code: Option<Vec<u8>>,
}

/// Verified contract code: raw bytes together with the hash they were
/// requested (and checked) by.
#[derive(Clone, Debug, PartialEq, Eq)]
pub struct Bytecode {
    pub bytes: Vec<u8>,
    pub hash: Hash256,
}

/// The post-execution change-set of one account, as the interpreter
/// commits it.
#[derive(Clone, Debug, PartialEq, Eq)]
pub struct AccountChange {
    pub info: Account,
    /// Touched storage slots and their final values.
    pub storage: Vec<(Word256, Word256)>,
    pub is_destroyed: bool,
    pub is_empty: bool,
}

/// The Keccak-256 digest of a byte string.
pub uninterp spec fn keccak_of(bytes: Seq<u8>) -> Seq<u8>;

/// Relies on sha3's Keccak256 through digest's `Digest::digest`: the
/// digest is a pure function of the input bytes and is 32 bytes long.
#[verifier::external_body]
fn keccak256(bytes: &[u8]) -> (r: Vec<u8>)
    ensures
        r@ == keccak_of(bytes@),
        r@.len() == 32,
{
    sha3::Keccak256::digest(bytes).to_vec()
}

/// A big-endian unsigned 64-bit read of a byte string.
pub open spec fn spec_u64_from_be_bytes(s: Seq<u8>) -> u64
    decreases s.len(),
{
    if s.len() == 0 {
        0u64
    } else {
        (spec_u64_from_be_bytes(s.drop_last()) << 8) | (s.last() as u64)
    }
}

/// A 32-byte string packed into four big-endian 64-bit limbs.
pub open spec fn hash_from_bytes(s: Seq<u8>) -> Hash256
    recommends
        s.len() == 32,
{
    Hash256 {
        h3: spec_u64_from_be_bytes(s.subrange(0, 8)),
        h2: spec_u64_from_be_bytes(s.subrange(8, 16)),
        h1: spec_u64_from_be_bytes(s.subrange(16, 24)),
        h0: spec_u64_from_be_bytes(s.subrange(24, 32)),
    }
}

#[verifier::loop_isolation(false)]
fn u64_from_be_bytes(v: &Vec<u8>, off: usize) -> (r: u64)
    requires
        off + 8 <= v@.len(),
    ensures
        r == spec_u64_from_be_bytes(v@.subrange(off as int, off as int + 8)),
{
    let n: usize = v.len();
    let mut acc: u64 = 0;
    let mut j: usize = 0;
    assert(v@.subrange(off as int, off as int) =~= Seq::<u8>::empty());
    while j < 8
        invariant
            j <= 8,
            off + 8 <= v@.len(),
            acc == spec_u64_from_be_bytes(v@.subrange(off as int, off as int + j)),
        decreases 8 - j,
    {
        proof {
            let sub = v@.subrange(off as int, off as int + j + 1);
            assert(sub.drop_last() =~= v@.subrange(off as int, off as int + j));
            assert(sub.last() == v@[off + j]);
        }
        acc = (acc << 8) | (v[off + j] as u64);
        j = j + 1;
    }
    acc
}

fn hash256_from_digest(v: &Vec<u8>) -> (r: Hash256)
    requires
        v@.len() == 32,
    ensures
        r == hash_from_bytes(v@),
{
    Hash256 {
        h3: u64_from_be_bytes(v, 0),
        h2: u64_from_be_bytes(v, 8),
        h1: u64_from_be_bytes(v, 16),
        h0: u64_from_be_bytes(v, 24),
    }
}

/// The commitment-level record inside a host payload, if any.
pub open spec fn payload_info(p: Option<AccountPayload>) -> Option<Account> {
    match p {
        None => None,
        Some(pl) => Some(pl.info),
    }
}

/// Whether the payload refrains from carrying code inline.
pub open spec fn payload_code_free(p: Option<AccountPayload>) -> bool {
    match p {
        None => true,
        Some(pl) => pl.code is None,
    }
}

/// The log evolves from `pre` to `post` by exactly this sequence of
/// writes, in order.
pub open spec fn writes_rel<L: OrderedRwLog>(pre: L, items: Seq<L::State>, post: L) -> bool
    decreases items.len(),
{
    if items.len() == 0 {
        post == pre
    } else {
        exists|mid: L| #![auto]
            pre.write_rel(items[0], mid) && mid.wf_log() && writes_rel(mid, items.skip(1), post)
    }
}

proof fn lemma_writes_rel_single<L: OrderedRwLog>(pre: L, e: L::State, post: L)
    requires
        pre.write_rel(e, post),
        post.wf_log(),
    ensures
        writes_rel(pre, seq![e], post),
{
    assert(seq![e].skip(1) =~= Seq::<L::State>::empty());
    assert(writes_rel(post, seq![e].skip(1), post));
    assert(pre.write_rel(seq![e][0], post) && post.wf_log() && writes_rel(
        post,
        seq![e].skip(1),
        post,
    ));
}

proof fn lemma_writes_rel_app<L: OrderedRwLog>(
    pre: L,
    s1: Seq<L::State>,
    mid: L,
    s2: Seq<L::State>,
    post: L,
)
    requires
        writes_rel(pre, s1, mid),
        writes_rel(mid, s2, post),
    ensures
        writes_rel(pre, s1 + s2, post),
    decreases s1.len(),
{
    if s1.len() == 0 {
        assert(mid == pre);
        assert(s1 + s2 =~= s2);
    } else {
        let m1 = choose|m: L| #![auto]
            pre.write_rel(s1[0], m) && m.wf_log() && writes_rel(m, s1.skip(1), mid);
        lemma_writes_rel_app(m1, s1.skip(1), mid, s2, post);
        assert((s1 + s2).skip(1) =~= s1.skip(1) + s2);
        assert((s1 + s2)[0] == s1[0]);
        assert(pre.write_rel((s1 + s2)[0], m1) && m1.wf_log() && writes_rel(
            m1,
            (s1 + s2).skip(1),
            post,
        ));
    }
}

/// The write a committed storage slot produces: the zero word is encoded
/// as deletion, matching the sparse convention of the commitment layer.
pub open spec fn storage_write_entry(addr: Address, sv: (Word256, Word256)) -> EvmStateEntry {
    EvmStateEntry::Storage(
        EvmStorageAddress(addr, sv.0),
        if sv.1.spec_is_zero() {
            None
        } else {
            Some(sv.1)
        },
    )
}

/// The writes one account's change-set produces: a destroyed or empty
/// account collapses to deletion; otherwise the account record followed by
/// its touched storage slots, in the interpreter's order.
pub open spec fn account_change_entries(addr: Address, ch: AccountChange) -> Seq<EvmStateEntry> {
    if ch.is_destroyed || ch.is_empty {
        seq![EvmStateEntry::Accounts(addr, None)]
    } else {
        seq![EvmStateEntry::Accounts(addr, Some(ch.info))] + ch.storage@.map_values(
            |sv: (Word256, Word256)| storage_write_entry(addr, sv),
        )
    }
}

/// The writes a whole change-set produces, account by account.
pub open spec fn commit_entries(changes: Seq<(Address, AccountChange)>) -> Seq<EvmStateEntry>
    decreases changes.len(),
{
    if changes.len() == 0 {
        Seq::empty()
    } else {
        account_change_entries(changes[0].0, changes[0].1) + commit_entries(changes.skip(1))
    }
}

proof fn lemma_commit_entries_push(s: Seq<(Address, AccountChange)>, x: (Address, AccountChange))
    ensures
        commit_entries(s.push(x)) == commit_entries(s) + account_change_entries(x.0, x.1),
    decreases s.len(),
{
    if s.len() == 0 {
        assert(s.push(x)[0] == x);
        assert(s.push(x).skip(1) =~= s);
        assert(account_change_entries(x.0, x.1) + commit_entries(s) =~= account_change_entries(
            x.0,
            x.1,
        ));
        assert(commit_entries(s) + account_change_entries(x.0, x.1) =~= account_change_entries(
            x.0,
            x.1,
        ));
    } else {
        assert(s.push(x)[0] == s[0]);
        assert(s.push(x).skip(1) =~= s.skip(1).push(x));
        lemma_commit_entries_push(s.skip(1), x);
        assert(account_change_entries(s[0].0, s[0].1) + (commit_entries(s.skip(1))
            + account_change_entries(x.0, x.1)) =~= (account_change_entries(s[0].0, s[0].1)
            + commit_entries(s.skip(1))) + account_change_entries(x.0, x.1));
    }
}

/// The database the interpreter drives. It owns the state log for the
/// duration of one transaction's execution.
pub struct HostDB<L> {
    pub log: L,
}

impl<L: OrderedRwLog<State = EvmStateEntry>> HostDB<L> {
    pub fn from_log(log: L) -> (r: Self)
        ensures
            r.log == log,
    {
        HostDB { log }
    }

    /// Hand the sealed log back once execution ends.
    pub fn into_log(self) -> (r: L)
        ensures
            r == self.log,
    {
        self.log
    }

    /// Answer an account query with the host's proposed record. The
    /// proposal may not carry code inline (code must go through
    /// `code_by_hash`), and is recorded into the log as a witnessed read.
    pub fn basic(&mut self, address: Address, proposed: Option<AccountPayload>) -> (r: Result<
        Option<Account>,
        HostDBError,
    >)
        requires
            old(self).log.wf_log(),
        ensures
            final(self).log.wf_log(),
            (match r {
                Ok(acct) => {
                    &&& payload_code_free(proposed)
                    &&& acct == payload_info(proposed)
                    &&& old(self).log.read_defined(
                        EvmStateEntry::Accounts(address, payload_info(proposed)),
                    )
                    &&& old(self).log.read_rel(
                        EvmStateEntry::Accounts(address, payload_info(proposed)),
                        final(self).log,
                    )
                },
                Err(e) => {
                    ||| (e == HostDBError::UnverifiedBytecode && !payload_code_free(proposed)
                        && *final(self) == *old(self))
                    ||| (e == HostDBError::CausalityViolation && payload_code_free(proposed)
                        && !old(self).log.read_defined(
                        EvmStateEntry::Accounts(address, payload_info(proposed)),
                    ) && *final(self) == *old(self))
                },
            }),
    {
        let info = match &proposed {
            Some(p) => {
                if p.code.is_some() {
                    return Err(HostDBError::UnverifiedBytecode);
                }
                Some(p.info)
            },
            None => None,
        };
        let entry = EvmStateEntry::Accounts(address, info);
        match self.log.add_read(&entry) {
            Ok(()) => Ok(info),
            Err(MergeError::CausalityViolation) => Err(HostDBError::CausalityViolation),
            Err(_) => Err(HostDBError::CausalityViolation),
        }
    }

    /// Answer a code query: the raw bytes the host supplies are accepted
    /// only if they hash to the requested code hash.
    pub fn code_by_hash(&mut self, code_hash: Hash256, raw_code: Vec<u8>) -> (r: Result<
        Bytecode,
        HostDBError,
    >)
        ensures
            *final(self) == *old(self),
            (match r {
                Ok(bc) => hash_from_bytes(keccak_of(raw_code@)) == code_hash && bc == (Bytecode {
                    bytes: raw_code,
                    hash: code_hash,
                }),
                Err(e) => e == HostDBError::HashMismatch && hash_from_bytes(keccak_of(raw_code@))
                    != code_hash,
            }),
    {
        let digest = keccak256(raw_code.as_slice());
        let computed = hash256_from_digest(&digest);
        if computed == code_hash {
            Ok(Bytecode { bytes: raw_code, hash: code_hash })
        } else {
            Err(HostDBError::HashMismatch)
        }
    }

    /// Answer a storage query with the host's proposed word, recording the
    /// read; an absent slot reads as the zero word.
    pub fn storage(&mut self, address: Address, index: Word256, proposed: Option<Word256>) -> (r:
        Result<Word256, HostDBError>)
        requires
            old(self).log.wf_log(),
        ensures
            final(self).log.wf_log(),
            (match r {
                Ok(w) => {
                    &&& old(self).log.read_defined(
                        EvmStateEntry::Storage(EvmStorageAddress(address, index), proposed),
                    )
                    &&& old(self).log.read_rel(
                        EvmStateEntry::Storage(EvmStorageAddress(address, index), proposed),
                        final(self).log,
                    )
                    &&& w == (match proposed {
                        Some(v) => v,
                        None => Word256 { w3: 0u64, w2: 0u64, w1: 0u64, w0: 0u64 },
                    })
                },
                Err(e) => e == HostDBError::CausalityViolation && !old(self).log.read_defined(
                    EvmStateEntry::Storage(EvmStorageAddress(address, index), proposed),
                ) && *final(self) == *old(self),
            }),
    {
        let entry = EvmStateEntry::Storage(EvmStorageAddress(address, index), proposed);
        match self.log.add_read(&entry) {
            Ok(()) => Ok(
                match proposed {
                    Some(v) => v,
                    None => Word256::zero(),
                },
            ),
            Err(_) => Err(HostDBError::CausalityViolation),
        }
    }

    /// Record a committed change-set into the log: for each account, the
    /// account record (or its deletion when destroyed or empty) followed by
    /// its touched storage slots, zero words encoded as deletions.
    #[verifier::loop_isolation(false)]
    pub fn commit(&mut self, changes: Vec<(Address, AccountChange)>)
        requires
            old(self).log.wf_log(),
            forall|addr: Address, v: Option<Account>|
                #[trigger] L::write_allowed(EvmStateEntry::Accounts(addr, v)),
            forall|k: EvmStorageAddress, v: Option<Word256>|
                #[trigger] L::write_allowed(EvmStateEntry::Storage(k, v)),
        ensures
            final(self).log.wf_log(),
            writes_rel(old(self).log, commit_entries(changes@), final(self).log),
    {
        let ghost log0 = self.log;
        let mut idx: usize = 0;
        proof {
            assert(changes@.take(0) =~= Seq::<(Address, AccountChange)>::empty());
        }
        while idx < changes.len()
            invariant
                idx <= changes@.len(),
                self.log.wf_log(),
                writes_rel(log0, commit_entries(changes@.take(idx as int)), self.log),
            decreases changes@.len() - idx,
        {
            let ghost pre_log = self.log;
            let ghost change = changes@[idx as int];
            let addr = changes[idx].0;
            if changes[idx].1.is_destroyed || changes[idx].1.is_empty {
                self.log.add_write(EvmStateEntry::Accounts(addr, None));
                proof {
                    lemma_writes_rel_single(
                        pre_log,
                        EvmStateEntry::Accounts(addr, None),
                        self.log,
                    );
                    assert(seq![EvmStateEntry::Accounts(addr, None)] =~= account_change_entries(
                        addr,
                        change.1,
                    ));
                }
            } else {
                let ghost f = |sv: (Word256, Word256)| storage_write_entry(addr, sv);
                let ghost acct_entry = EvmStateEntry::Accounts(addr, Some(change.1.info));
                self.log.add_write(EvmStateEntry::Accounts(addr, Some(changes[idx].1.info)));
                proof {
                    lemma_writes_rel_single(pre_log, acct_entry, self.log);
                    assert(change.1.storage@.take(0).map_values(f) =~= Seq::<
                        EvmStateEntry,
                    >::empty());
                    assert(seq![acct_entry] + change.1.storage@.take(0).map_values(f)
                        =~= seq![acct_entry]);
                }
                let mut j: usize = 0;
                while j < changes[idx].1.storage.len()
                    invariant
                        j <= change.1.storage@.len(),
                        self.log.wf_log(),
                        writes_rel(
                            pre_log,
                            seq![acct_entry] + change.1.storage@.take(j as int).map_values(f),
                            self.log,
                        ),
                    decreases change.1.storage@.len() - j,
                {
                    let slot = changes[idx].1.storage[j].0;
                    let value = changes[idx].1.storage[j].1;
                    let entry = if value.is_zero() {
                        EvmStateEntry::Storage(EvmStorageAddress(addr, slot), None)
                    } else {
                        EvmStateEntry::Storage(EvmStorageAddress(addr, slot), Some(value))
                    };
                    let ghost before = self.log;
                    let ghost prefix = seq![acct_entry] + change.1.storage@.take(
                        j as int,
                    ).map_values(f);
                    self.log.add_write(entry);
                    proof {
                        assert(entry == storage_write_entry(addr, change.1.storage@[j as int]));
                        lemma_writes_rel_single(before, entry, self.log);
                        lemma_writes_rel_app(pre_log, prefix, before, seq![entry], self.log);
                        assert(change.1.storage@.take(j as int + 1).map_values(f)
                            =~= change.1.storage@.take(j as int).map_values(f).push(
                            f(change.1.storage@[j as int]),
                        ));
                        assert(prefix + seq![entry] =~= seq![acct_entry]
                            + change.1.storage@.take(j as int + 1).map_values(f));
                    }
                    j = j + 1;
                }
                proof {
                    assert(change.1.storage@.take(change.1.storage@.len() as int)
                        =~= change.1.storage@);
                    assert(seq![acct_entry] + change.1.storage@.map_values(f)
                        == account_change_entries(addr, change.1));
                }
            }
            proof {
                lemma_writes_rel_app(
                    log0,
                    commit_entries(changes@.take(idx as int)),
                    pre_log,
                    account_change_entries(addr, change.1),
                    self.log,
                );
                lemma_commit_entries_push(changes@.take(idx as int), change);
                assert(changes@.take(idx as int + 1) =~= changes@.take(idx as int).push(change));
            }
            idx = idx + 1;
        }
        proof {
            assert(changes@.take(changes@.len() as int) =~= changes@);
        }
    }

    /// Answer a block-hash query, recording the observation; an absent
    /// hash is recorded and then rejected.
    pub fn block_hash(&mut self, number: u64, proposed: Option<Hash256>) -> (r: Result<
        Hash256,
        HostDBError,
    >)
        requires
            old(self).log.wf_log(),
        ensures
            final(self).log.wf_log(),
            (match r {
                Ok(h) => {
                    &&& proposed == Some(h)
                    &&& old(self).log.read_defined(EvmStateEntry::Blockhash(number, proposed))
                    &&& old(self).log.read_rel(
                        EvmStateEntry::Blockhash(number, proposed),
                        final(self).log,
                    )
                },
                Err(e) => {
                    ||| (e == HostDBError::InvalidBlockHashRequest && proposed is None && old(
                        self,
                    ).log.read_defined(EvmStateEntry::Blockhash(number, proposed)) && old(
                        self,
                    ).log.read_rel(EvmStateEntry::Blockhash(number, proposed), final(self).log))
                    ||| (e == HostDBError::CausalityViolation && !old(self).log.read_defined(
                        EvmStateEntry::Blockhash(number, proposed),
                    ) && *final(self) == *old(self))
                },
            }),
    {
        let entry = EvmStateEntry::Blockhash(number, proposed);
        match self.log.add_read(&entry) {
            Ok(()) => match proposed {
                Some(h) => Ok(h),
                None => Err(HostDBError::InvalidBlockHashRequest),
            },
            Err(_) => Err(HostDBError::CausalityViolation),
        }
    }
}

} // verus!
