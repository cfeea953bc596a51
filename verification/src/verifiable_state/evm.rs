//! The EVM-keyed state log: per-key access records for accounts and storage
//! slots, plus read-only block-hash observations, each held in canonical
//! sorted order.

use vstd::prelude::*;

use crate::primitives::{opt_same, Account, Address, Hash256, StateValue, Word256};
use crate::sorted_log::{
    combine_opt, entries_sorted, find_pos, lemma_get_at_index, lemma_get_index, lemma_insert_sorted,
    lemma_key_facts, lemma_seq_merge_props, lemma_update_sorted, merge_entries, seq_get,
    LogKey, Mergeable,
};
use crate::verifiable_state::access::{
    current_value, spec_merge, Access, Modified,
};
use crate::verifiable_state::{EvmStateEntry, MergeableLog, OrderedReadLog, OrderedRwLog};
use crate::MergeError;

verus! {

/// The key of one storage slot: the owning account and the 256-bit slot
/// index, ordered lexicographically.
#[derive(Clone, Copy, Debug, PartialEq, Eq)]
pub struct EvmStorageAddress(pub Address, pub Word256);

impl LogKey for EvmStorageAddress {
    open spec fn key_lt(self, other: Self) -> bool {
        ||| crate::primitives::addr_lt(self.0, other.0)
        ||| (self.0 == other.0 && crate::primitives::word_lt(self.1, other.1))
    }

    proof fn lemma_key_order(a: Self, b: Self, c: Self) {
    }

    fn lt_key(&self, other: &Self) -> (r: bool) {
        if self.0.lt_addr(&other.0) {
            true
        } else if other.0.lt_addr(&self.0) {
            false
        } else {
            self.1.lt_word(&other.1)
        }
    }

    fn eq_key(&self, other: &Self) -> (r: bool) {
        self.0 == other.0 && self.1 == other.1
    }
}

/// Duplicate block-hash observations must agree; there is nothing else to
/// combine.
impl Mergeable for Option<Hash256> {
    open spec fn spec_combine(self, rhs: Self) -> Option<Self> {
        if self == rhs {
            Some(self)
        } else {
            None
        }
    }

    fn combine(self, rhs: Self) -> (r: Result<Self, MergeError>) {
        if opt_same(&self, &rhs) {
            Ok(self)
        } else {
            Err(MergeError::CausalityViolation)
        }
    }
}

/// Whether a read observing `value` agrees with the record already held for
/// the key.
pub open spec fn read_compatible<V>(cur: Option<Access<V>>, value: Option<V>) -> bool {
    match cur {
        None => true,
        Some(a) => current_value(a) == value,
    }
}

/// The record held after a read: a fresh read is installed, an agreeing
/// re-read leaves the record unchanged.
pub open spec fn after_read<V>(cur: Option<Access<V>>, value: Option<V>) -> Access<V> {
    match cur {
        None => Access::Read(value),
        Some(a) => a,
    }
}

/// The record held after a write: installed, promoted to read-then-write,
/// or overwritten.
pub open spec fn after_write<V>(cur: Option<Access<V>>, value: Option<V>) -> Access<V> {
    match cur {
        None => Access::Write(value),
        Some(Access::Read(r)) => Access::ReadThenWrite(Modified { original: r, modified: value }),
        Some(Access::ReadThenWrite(m)) => Access::ReadThenWrite(
            Modified { original: m.original, modified: value },
        ),
        Some(Access::Write(_)) => Access::Write(value),
    }
}

/// Record a read of `key` observing `value` into a sorted access map: a key
/// not yet touched is installed as a `Read`; a key already touched must be
/// observed at its current value, and the map is unchanged.
#[verifier::loop_isolation(false)]
pub fn do_add_read<K: LogKey, V: StateValue>(
    map: &mut Vec<(K, Access<V>)>,
    key: K,
    value: &Option<V>,
) -> (r: Result<(), MergeError>)
    requires
        entries_sorted(old(map)@),
    ensures
        entries_sorted(final(map)@),
        (match r {
            Ok(()) => read_compatible(seq_get(old(map)@, key), *value) && seq_get(
                final(map)@,
                key,
            ) == Some(after_read(seq_get(old(map)@, key), *value)) && (forall|k2: K|
                k2 != key ==> seq_get(final(map)@, k2) == seq_get(old(map)@, k2)),
            Err(e) => !read_compatible(seq_get(old(map)@, key), *value) && e
                == MergeError::CausalityViolation && *final(map) == *old(map),
        }),
{
    let (pos, found) = find_pos(map, &key);
    if found {
        proof {
            lemma_get_at_index(map@, pos as int);
        }
        let cur = map[pos].1.current();
        if opt_same(&cur, value) {
            Ok(())
        } else {
            Err(MergeError::CausalityViolation)
        }
    } else {
        proof {
            lemma_get_index(map@, key);
            if seq_get(map@, key) is Some {
                let j = choose|j: int| 0 <= j < map@.len() && (#[trigger] map@[j]).0 == key;
                lemma_key_facts(key, map@[j].0);
            }
            lemma_insert_sorted(map@, pos as int, key, Access::Read(*value));
        }
        map.insert(pos, (key, Access::Read(*value)));
        Ok(())
    }
}

/// Record a write of `value` to `key` into a sorted access map: installed as
/// a `Write` if the key is fresh, promoted to `ReadThenWrite` after a read,
/// or overwriting the modified value of an existing write.
#[verifier::loop_isolation(false)]
pub fn do_add_write<K: LogKey, V: StateValue>(
    map: &mut Vec<(K, Access<V>)>,
    key: K,
    value: Option<V>,
)
    requires
        entries_sorted(old(map)@),
    ensures
        entries_sorted(final(map)@),
        seq_get(final(map)@, key) == Some(after_write(seq_get(old(map)@, key), value)),
        forall|k2: K| k2 != key ==> seq_get(final(map)@, k2) == seq_get(old(map)@, k2),
{
    let (pos, found) = find_pos(map, &key);
    if found {
        proof {
            lemma_get_at_index(map@, pos as int);
        }
        let updated = match &map[pos].1 {
            Access::Read(r) => Access::ReadThenWrite(Modified { original: *r, modified: value }),
            Access::ReadThenWrite(m) => Access::ReadThenWrite(
                Modified { original: m.original, modified: value },
            ),
            Access::Write(_) => Access::Write(value),
        };
        proof {
            lemma_update_sorted(map@, pos as int, updated);
        }
        let ghost before = map@;
        map.remove(pos);
        map.insert(pos, (key, updated));
        proof {
            assert(map@ =~= before.update(pos as int, (key, updated)));
        }
    } else {
        proof {
            lemma_get_index(map@, key);
            if seq_get(map@, key) is Some {
                let j = choose|j: int| 0 <= j < map@.len() && (#[trigger] map@[j]).0 == key;
                lemma_key_facts(key, map@[j].0);
            }
            lemma_insert_sorted(map@, pos as int, key, Access::Write(value));
        }
        map.insert(pos, (key, Access::Write(value)));
    }
}

/// The per-execution transcript of host-database activity: per-key access
/// records for accounts and storage slots, and observed block hashes.
pub struct EvmStateLog {
    accounts: Vec<(Address, Access<Account>)>,
    state: Vec<(EvmStorageAddress, Access<Word256>)>,
    blockhashes: Vec<(u64, Option<Hash256>)>,
}

impl EvmStateLog {
    pub closed spec fn accounts_view(self) -> Seq<(Address, Access<Account>)> {
        self.accounts@
    }

    pub closed spec fn storage_view(self) -> Seq<(EvmStorageAddress, Access<Word256>)> {
        self.state@
    }

    pub closed spec fn blockhashes_view(self) -> Seq<(u64, Option<Hash256>)> {
        self.blockhashes@
    }

    /// Canonical form: all three key spaces strictly sorted.
    pub open spec fn wf(self) -> bool {
        &&& entries_sorted(self.accounts_view())
        &&& entries_sorted(self.storage_view())
        &&& entries_sorted(self.blockhashes_view())
    }

    pub open spec fn is_empty_log(self) -> bool {
        &&& self.accounts_view() == Seq::<(Address, Access<Account>)>::empty()
        &&& self.storage_view() == Seq::<(EvmStorageAddress, Access<Word256>)>::empty()
        &&& self.blockhashes_view() == Seq::<(u64, Option<Hash256>)>::empty()
    }

    /// A fresh, empty log.
    pub fn new() -> (r: EvmStateLog)
        ensures
            r.wf(),
            r.is_empty_log(),
    {
        EvmStateLog { accounts: Vec::new(), state: Vec::new(), blockhashes: Vec::new() }
    }


    /// The canonical account entries, for serialization.
    pub fn accounts_entries(&self) -> (r: &Vec<(Address, Access<Account>)>)
        ensures
            r@ == self.accounts_view(),
    {
        &self.accounts
    }

    /// The canonical storage entries, for serialization.
    pub fn storage_entries(&self) -> (r: &Vec<(EvmStorageAddress, Access<Word256>)>)
        ensures
            r@ == self.storage_view(),
    {
        &self.state
    }

    /// The canonical block-hash entries, for serialization.
    pub fn blockhash_entries(&self) -> (r: &Vec<(u64, Option<Hash256>)>)
        ensures
            r@ == self.blockhashes_view(),
    {
        &self.blockhashes
    }

    /// Reassemble a log from canonical (sorted) parts.
    pub fn from_parts(
        accounts: Vec<(Address, Access<Account>)>,
        state: Vec<(EvmStorageAddress, Access<Word256>)>,
        blockhashes: Vec<(u64, Option<Hash256>)>,
    ) -> (r: EvmStateLog)
        requires
            entries_sorted(accounts@),
            entries_sorted(state@),
            entries_sorted(blockhashes@),
        ensures
            r.wf(),
            r.accounts_view() == accounts@,
            r.storage_view() == state@,
            r.blockhashes_view() == blockhashes@,
    {
        EvmStateLog { accounts, state, blockhashes }
    }

    /// The access record held for an account address, if any.
    pub fn get_account(&self, addr: &Address) -> (r: Option<Access<Account>>)
        requires
            self.wf(),
        ensures
            r == seq_get(self.accounts_view(), *addr),
    {
        let (pos, found) = find_pos(&self.accounts, addr);
        if found {
            proof {
                lemma_get_at_index(self.accounts@, pos as int);
            }
            Some(self.accounts[pos].1)
        } else {
            proof {
                lemma_get_index(self.accounts@, *addr);
                if seq_get(self.accounts@, *addr) is Some {
                    let j = choose|j: int|
                        0 <= j < self.accounts@.len() && (#[trigger] self.accounts@[j]).0
                            == *addr;
                    lemma_key_facts(*addr, self.accounts@[j].0);
                }
            }
            None
        }
    }

    /// The access record held for a storage slot, if any.
    pub fn get_storage(&self, key: &EvmStorageAddress) -> (r: Option<Access<Word256>>)
        requires
            self.wf(),
        ensures
            r == seq_get(self.storage_view(), *key),
    {
        let (pos, found) = find_pos(&self.state, key);
        if found {
            proof {
                lemma_get_at_index(self.state@, pos as int);
            }
            Some(self.state[pos].1)
        } else {
            proof {
                lemma_get_index(self.state@, *key);
                if seq_get(self.state@, *key) is Some {
                    let j = choose|j: int|
                        0 <= j < self.state@.len() && (#[trigger] self.state@[j]).0 == *key;
                    lemma_key_facts(*key, self.state@[j].0);
                }
            }
            None
        }
    }

    /// The block hash observed for a block number, if any.
    pub fn get_blockhash(&self, number: &u64) -> (r: Option<Option<Hash256>>)
        requires
            self.wf(),
        ensures
            r == seq_get(self.blockhashes_view(), *number),
    {
        let (pos, found) = find_pos(&self.blockhashes, number);
        if found {
            proof {
                lemma_get_at_index(self.blockhashes@, pos as int);
            }
            Some(self.blockhashes[pos].1)
        } else {
            proof {
                lemma_get_index(self.blockhashes@, *number);
                if seq_get(self.blockhashes@, *number) is Some {
                    let j = choose|j: int|
                        0 <= j < self.blockhashes@.len() && (#[trigger] self.blockhashes@[j]).0
                            == *number;
                    lemma_key_facts(*number, self.blockhashes@[j].0);
                }
            }
            None
        }
    }
}

impl Default for EvmStateLog {
    fn default() -> (r: EvmStateLog)
        ensures
            r.wf(),
            r.is_empty_log(),
    {
        EvmStateLog::new()
    }
}

/// Both sides' records combine on every key of every key space.
pub open spec fn log_merge_defined(a: EvmStateLog, b: EvmStateLog) -> bool {
    &&& (forall|k: Address|
        #[trigger] combine_opt(
            seq_get(a.accounts_view(), k),
            seq_get(b.accounts_view(), k),
        ) is Some)
    &&& (forall|k: EvmStorageAddress|
        #[trigger] combine_opt(seq_get(a.storage_view(), k), seq_get(b.storage_view(), k)) is Some)
    &&& (forall|k: u64|
        #[trigger] combine_opt(
            seq_get(a.blockhashes_view(), k),
            seq_get(b.blockhashes_view(), k),
        ) is Some)
}

/// `m` holds, for every key of every key space, the combination of the two
/// sides' records, in canonical form.
pub open spec fn log_merge_rel(a: EvmStateLog, b: EvmStateLog, m: EvmStateLog) -> bool {
    &&& m.wf()
    &&& (forall|k: Address|
        seq_get(m.accounts_view(), k) == #[trigger] combine_opt(
            seq_get(a.accounts_view(), k),
            seq_get(b.accounts_view(), k),
        )->Some_0)
    &&& (forall|k: EvmStorageAddress|
        seq_get(m.storage_view(), k) == #[trigger] combine_opt(
            seq_get(a.storage_view(), k),
            seq_get(b.storage_view(), k),
        )->Some_0)
    &&& (forall|k: u64|
        seq_get(m.blockhashes_view(), k) == #[trigger] combine_opt(
            seq_get(a.blockhashes_view(), k),
            seq_get(b.blockhashes_view(), k),
        )->Some_0)
}

impl MergeableLog for EvmStateLog {
    type Merged = EvmStateLog;

    open spec fn wf_log(self) -> bool {
        self.wf()
    }

    open spec fn merge_defined(self, rhs: Self) -> bool {
        log_merge_defined(self, rhs)
    }

    open spec fn merge_rel(self, rhs: Self, m: Self::Merged) -> bool {
        log_merge_rel(self, rhs, m)
    }

    /// Merge the read/write logs of two executions, the left temporally
    /// preceding the right, into one canonical log carrying the minimal
    /// information needed to verify both.
    fn merge(self, rhs: Self) -> (r: Result<EvmStateLog, MergeError>) {
        proof {
            lemma_seq_merge_props(self.accounts@, rhs.accounts@);
            lemma_seq_merge_props(self.state@, rhs.state@);
            lemma_seq_merge_props(self.blockhashes@, rhs.blockhashes@);
        }
        let accounts = match merge_entries(self.accounts, rhs.accounts) {
            Ok(v) => v,
            Err(e) => {
                return Err(e);
            },
        };
        let state = match merge_entries(self.state, rhs.state) {
            Ok(v) => v,
            Err(e) => {
                return Err(e);
            },
        };
        let blockhashes = match merge_entries(self.blockhashes, rhs.blockhashes) {
            Ok(v) => v,
            Err(e) => {
                return Err(e);
            },
        };
        Ok(EvmStateLog { accounts, state, blockhashes })
    }
}

impl OrderedReadLog for EvmStateLog {
    type State = EvmStateEntry;

    open spec fn read_defined(self, item: EvmStateEntry) -> bool {
        match item {
            EvmStateEntry::Accounts(k, v) => read_compatible(seq_get(self.accounts_view(), k), v),
            EvmStateEntry::Storage(k, v) => read_compatible(seq_get(self.storage_view(), k), v),
            EvmStateEntry::Blockhash(n, h) => match seq_get(self.blockhashes_view(), n) {
                None => true,
                Some(h0) => h0 == h,
            },
        }
    }

    open spec fn read_rel(self, item: EvmStateEntry, post: Self) -> bool {
        match item {
            EvmStateEntry::Accounts(k, v) => {
                &&& post.storage_view() == self.storage_view()
                &&& post.blockhashes_view() == self.blockhashes_view()
                &&& seq_get(post.accounts_view(), k) == Some(
                    after_read(seq_get(self.accounts_view(), k), v),
                )
                &&& (forall|k2: Address|
                    k2 != k ==> #[trigger] seq_get(post.accounts_view(), k2) == seq_get(
                        self.accounts_view(),
                        k2,
                    ))
            },
            EvmStateEntry::Storage(k, v) => {
                &&& post.accounts_view() == self.accounts_view()
                &&& post.blockhashes_view() == self.blockhashes_view()
                &&& seq_get(post.storage_view(), k) == Some(
                    after_read(seq_get(self.storage_view(), k), v),
                )
                &&& (forall|k2: EvmStorageAddress|
                    k2 != k ==> #[trigger] seq_get(post.storage_view(), k2) == seq_get(
                        self.storage_view(),
                        k2,
                    ))
            },
            EvmStateEntry::Blockhash(n, h) => {
                &&& post.accounts_view() == self.accounts_view()
                &&& post.storage_view() == self.storage_view()
                &&& seq_get(post.blockhashes_view(), n) == Some(
                    match seq_get(self.blockhashes_view(), n) {
                        None => h,
                        Some(h0) => h0,
                    },
                )
                &&& (forall|n2: u64|
                    n2 != n ==> #[trigger] seq_get(post.blockhashes_view(), n2) == seq_get(
                        self.blockhashes_view(),
                        n2,
                    ))
            },
        }
    }

    /// Record one read driven by the interpreter. A repeated observation of
    /// the same key must agree with the record's current value.
    fn add_read(&mut self, item: &EvmStateEntry) -> (r: Result<(), MergeError>) {
        match item {
            EvmStateEntry::Accounts(k, v) => do_add_read(&mut self.accounts, *k, v),
            EvmStateEntry::Storage(k, v) => do_add_read(&mut self.state, *k, v),
            EvmStateEntry::Blockhash(n, h) => {
                let (pos, found) = find_pos(&self.blockhashes, n);
                if found {
                    proof {
                        lemma_get_at_index(self.blockhashes@, pos as int);
                    }
                    if opt_same(&self.blockhashes[pos].1, h) {
                        Ok(())
                    } else {
                        Err(MergeError::CausalityViolation)
                    }
                } else {
                    proof {
                        lemma_get_index(self.blockhashes@, *n);
                        if seq_get(self.blockhashes@, *n) is Some {
                            let j = choose|j: int|
                                0 <= j < self.blockhashes@.len() && (
                                #[trigger] self.blockhashes@[j]).0 == *n;
                            lemma_key_facts(*n, self.blockhashes@[j].0);
                        }
                        lemma_insert_sorted(self.blockhashes@, pos as int, *n, *h);
                    }
                    self.blockhashes.insert(pos, (*n, *h));
                    Ok(())
                }
            },
        }
    }
}

impl OrderedRwLog for EvmStateLog {
    open spec fn write_allowed(item: EvmStateEntry) -> bool {
        !(item is Blockhash)
    }

    open spec fn write_rel(self, item: EvmStateEntry, post: Self) -> bool {
        match item {
            EvmStateEntry::Accounts(k, v) => {
                &&& post.storage_view() == self.storage_view()
                &&& post.blockhashes_view() == self.blockhashes_view()
                &&& seq_get(post.accounts_view(), k) == Some(
                    after_write(seq_get(self.accounts_view(), k), v),
                )
                &&& (forall|k2: Address|
                    k2 != k ==> #[trigger] seq_get(post.accounts_view(), k2) == seq_get(
                        self.accounts_view(),
                        k2,
                    ))
            },
            EvmStateEntry::Storage(k, v) => {
                &&& post.accounts_view() == self.accounts_view()
                &&& post.blockhashes_view() == self.blockhashes_view()
                &&& seq_get(post.storage_view(), k) == Some(
                    after_write(seq_get(self.storage_view(), k), v),
                )
                &&& (forall|k2: EvmStorageAddress|
                    k2 != k ==> #[trigger] seq_get(post.storage_view(), k2) == seq_get(
                        self.storage_view(),
                        k2,
                    ))
            },
            EvmStateEntry::Blockhash(_, _) => false,
        }
    }

    /// Record one write from a committed change-set. Block hashes cannot be
    /// written.
    fn add_write(&mut self, item: EvmStateEntry) {
        match item {
            EvmStateEntry::Accounts(k, v) => do_add_write(&mut self.accounts, k, v),
            EvmStateEntry::Storage(k, v) => do_add_write(&mut self.state, k, v),
            EvmStateEntry::Blockhash(_, _) => {
                proof {
                    assert(false);
                }
            },
        }
    }
}

/// The drained, canonical form of an account log can be merged again; this
/// is the form recursive aggregation passes between provers.
impl MergeableLog for Vec<(Address, Access<Account>)> {
    type Merged = Vec<(Address, Access<Account>)>;

    open spec fn wf_log(self) -> bool {
        entries_sorted(self@)
    }

    open spec fn merge_defined(self, rhs: Self) -> bool {
        forall|k: Address| #[trigger] combine_opt(seq_get(self@, k), seq_get(rhs@, k)) is Some
    }

    open spec fn merge_rel(self, rhs: Self, m: Self::Merged) -> bool {
        &&& entries_sorted(m@)
        &&& (forall|k: Address|
            seq_get(m@, k) == #[trigger] combine_opt(
                seq_get(self@, k),
                seq_get(rhs@, k),
            )->Some_0)
    }

    /// Two-pointer merge of two sorted account logs.
    fn merge(self, rhs: Self) -> (r: Result<Self::Merged, MergeError>) {
        proof {
            lemma_seq_merge_props(self@, rhs@);
        }
        merge_entries(self, rhs)
    }
}

/// Merging with an empty log is always defined.
pub proof fn lemma_merge_empty_defined(a: EvmStateLog, e: EvmStateLog)
    requires
        e.is_empty_log(),
    ensures
        log_merge_defined(a, e),
        log_merge_defined(e, a),
{
}

/// The empty log is a left and right identity of merge: the merged log
/// holds exactly the records of the other operand.
pub proof fn lemma_merge_identity(a: EvmStateLog, e: EvmStateLog, m: EvmStateLog)
    requires
        a.wf(),
        e.is_empty_log(),
        log_merge_rel(a, e, m) || log_merge_rel(e, a, m),
    ensures
        m.accounts_view() == a.accounts_view(),
        m.storage_view() == a.storage_view(),
        m.blockhashes_view() == a.blockhashes_view(),
{
    assert forall|k: Address| #[trigger] seq_get(m.accounts_view(), k) == seq_get(
        a.accounts_view(),
        k,
    ) by {
        assert(seq_get(e.accounts_view(), k) is None);
    }
    assert forall|k: EvmStorageAddress| #[trigger] seq_get(m.storage_view(), k) == seq_get(
        a.storage_view(),
        k,
    ) by {
        assert(seq_get(e.storage_view(), k) is None);
    }
    assert forall|k: u64| #[trigger] seq_get(m.blockhashes_view(), k) == seq_get(
        a.blockhashes_view(),
        k,
    ) by {
        assert(seq_get(e.blockhashes_view(), k) is None);
    }
    crate::sorted_log::lemma_sorted_canonical(m.accounts_view(), a.accounts_view());
    crate::sorted_log::lemma_sorted_canonical(m.storage_view(), a.storage_view());
    crate::sorted_log::lemma_sorted_canonical(m.blockhashes_view(), a.blockhashes_view());
}

/// The key sequence of every key space of a merged log is strictly ordered.
pub proof fn lemma_merged_log_sorted(a: EvmStateLog, b: EvmStateLog, m: EvmStateLog)
    requires
        log_merge_rel(a, b, m),
    ensures
        entries_sorted(m.accounts_view()),
        entries_sorted(m.storage_view()),
        entries_sorted(m.blockhashes_view()),
{
}

/// One interleaved read or write on a single key.
#[derive(Clone, Copy, Debug, PartialEq, Eq)]
pub enum AccessEvent<V> {
    Read(Option<V>),
    Write(Option<V>),
}

/// The access record a single event installs on an untouched key.
pub open spec fn event_access<V>(e: AccessEvent<V>) -> Access<V> {
    match e {
        AccessEvent::Read(v) => Access::Read(v),
        AccessEvent::Write(v) => Access::Write(v),
    }
}

/// What one `add_read` / `add_write` call does to the record of its key;
/// the outer `None` is a causality violation.
pub open spec fn apply_event<V>(cur: Option<Access<V>>, e: AccessEvent<V>) -> Option<
    Option<Access<V>>,
> {
    match e {
        AccessEvent::Read(v) => if read_compatible(cur, v) {
            Some(Some(after_read(cur, v)))
        } else {
            None
        },
        AccessEvent::Write(v) => Some(Some(after_write(cur, v))),
    }
}

/// The record after a whole sequence of interleaved reads and writes.
pub open spec fn apply_events<V>(
    cur: Option<Access<V>>,
    es: Seq<AccessEvent<V>>,
) -> Option<Option<Access<V>>>
    decreases es.len(),
{
    if es.len() == 0 {
        Some(cur)
    } else {
        match apply_event(cur, es[0]) {
            Some(c2) => apply_events(c2, es.skip(1)),
            None => None,
        }
    }
}

/// The left-fold of the nine-cell merge table over the events' records.
pub open spec fn fold_merge<V>(a: Access<V>, es: Seq<AccessEvent<V>>) -> Option<Access<V>>
    decreases es.len(),
{
    if es.len() == 0 {
        Some(a)
    } else {
        match spec_merge(a, event_access(es[0])) {
            Some(m) => fold_merge(m, es.skip(1)),
            None => None,
        }
    }
}

proof fn lemma_apply_is_fold<V>(a: Access<V>, es: Seq<AccessEvent<V>>)
    ensures
        apply_events(Some(a), es) == (match fold_merge(a, es) {
            Some(m) => Some(Some(m)),
            None => None::<Option<Access<V>>>,
        }),
    decreases es.len(),
{
    if es.len() > 0 {
        assert(apply_event(Some(a), es[0]) == (match spec_merge(a, event_access(es[0])) {
            Some(m) => Some(Some(m)),
            None => None::<Option<Access<V>>>,
        }));
        match spec_merge(a, event_access(es[0])) {
            Some(m) => {
                lemma_apply_is_fold(m, es.skip(1));
            },
            None => {
            },
        }
    }
}

/// For any sequence of interleaved reads and writes on one key, the record
/// the log operations build equals the left-fold of the per-call merge
/// table, starting from the record the first event installs; both fail on
/// the same causality violations.
pub proof fn lemma_single_key_fold<V>(es: Seq<AccessEvent<V>>)
    requires
        es.len() > 0,
    ensures
        apply_events(None, es) == (match fold_merge(event_access(es[0]), es.skip(1)) {
            Some(m) => Some(Some(m)),
            None => None::<Option<Access<V>>>,
        }),
{
    assert(apply_event(None, es[0]) == Some(Some(event_access(es[0]))));
    lemma_apply_is_fold(event_access(es[0]), es.skip(1));
}

} // verus!
