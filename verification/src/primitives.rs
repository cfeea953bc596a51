//! Plain-value models of the EVM-level quantities that flow through the
//! state-access log: 160-bit addresses, 256-bit words and hashes, and the
//! commitment-level account record (nonce, balance, code hash).
//!
//! All of these are structs of machine integers, so equality in contracts is
//! structural and ordering is stated as a lexicographic comparison of limbs.

use vstd::prelude::*;

verus! {

/// A 160-bit account address, as three big-endian limbs:
/// `hi` holds the most significant 32 bits, then `mid`, then `lo`.
#[derive(Clone, Copy, Debug, PartialEq, Eq, Structural)]
pub struct Address {
    pub hi: u32,
    pub mid: u64,
    pub lo: u64,
}

/// A 256-bit word (storage slot index or value), as four big-endian limbs:
/// `w3` is the most significant.
#[derive(Clone, Copy, Debug, PartialEq, Eq, Structural)]
pub struct Word256 {
    pub w3: u64,
    pub w2: u64,
    pub w1: u64,
    pub w0: u64,
}

/// A 256-bit hash (code hash, state commitment, or block hash), as four
/// big-endian limbs: `h3` is the most significant.
#[derive(Clone, Copy, Debug, PartialEq, Eq, Structural)]
pub struct Hash256 {
    pub h3: u64,
    pub h2: u64,
    pub h1: u64,
    pub h0: u64,
}

/// The commitment-level account record. Contract code never travels inline
/// here: it is bound to the account only through `code_hash` and fetched
/// separately, which is what lets the host database verify it.
#[derive(Clone, Copy, Debug, PartialEq, Eq, Structural)]
pub struct Account {
    pub nonce: u64,
    pub balance: Word256,
    pub code_hash: Hash256,
}

/// Strict lexicographic order on addresses, most significant limb first.
pub open spec fn addr_lt(a: Address, b: Address) -> bool {
    ||| a.hi < b.hi
    ||| (a.hi == b.hi && a.mid < b.mid)
    ||| (a.hi == b.hi && a.mid == b.mid && a.lo < b.lo)
}

/// Strict lexicographic order on 256-bit words, most significant limb first.
pub open spec fn word_lt(a: Word256, b: Word256) -> bool {
    ||| a.w3 < b.w3
    ||| (a.w3 == b.w3 && a.w2 < b.w2)
    ||| (a.w3 == b.w3 && a.w2 == b.w2 && a.w1 < b.w1)
    ||| (a.w3 == b.w3 && a.w2 == b.w2 && a.w1 == b.w1 && a.w0 < b.w0)
}

impl Address {
    pub fn new(hi: u32, mid: u64, lo: u64) -> (r: Address)
        ensures
            r == (Address { hi, mid, lo }),
    {
        Address { hi, mid, lo }
    }

    pub fn lt_addr(&self, other: &Address) -> (r: bool)
        ensures
            r == addr_lt(*self, *other),
    {
        if self.hi != other.hi {
            self.hi < other.hi
        } else if self.mid != other.mid {
            self.mid < other.mid
        } else {
            self.lo < other.lo
        }
    }
}

impl Word256 {
    pub fn new(w3: u64, w2: u64, w1: u64, w0: u64) -> (r: Word256)
        ensures
            r == (Word256 { w3, w2, w1, w0 }),
    {
        Word256 { w3, w2, w1, w0 }
    }

    pub fn from_u64(v: u64) -> (r: Word256)
        ensures
            r == (Word256 { w3: 0u64, w2: 0u64, w1: 0u64, w0: v }),
    {
        Word256 { w3: 0, w2: 0, w1: 0, w0: v }
    }

    /// The zero word: the value a sparse storage slot holds when absent.
    pub fn zero() -> (r: Word256)
        ensures
            r == (Word256 { w3: 0u64, w2: 0u64, w1: 0u64, w0: 0u64 }),
    {
        Word256 { w3: 0, w2: 0, w1: 0, w0: 0 }
    }

    pub open spec fn spec_is_zero(self) -> bool {
        self.w3 == 0 && self.w2 == 0 && self.w1 == 0 && self.w0 == 0
    }

    pub fn is_zero(&self) -> (r: bool)
        ensures
            r == self.spec_is_zero(),
    {
        self.w3 == 0 && self.w2 == 0 && self.w1 == 0 && self.w0 == 0
    }

    pub fn lt_word(&self, other: &Word256) -> (r: bool)
        ensures
            r == word_lt(*self, *other),
    {
        if self.w3 != other.w3 {
            self.w3 < other.w3
        } else if self.w2 != other.w2 {
            self.w2 < other.w2
        } else if self.w1 != other.w1 {
            self.w1 < other.w1
        } else {
            self.w0 < other.w0
        }
    }
}

impl Hash256 {
    pub fn new(h3: u64, h2: u64, h1: u64, h0: u64) -> (r: Hash256)
        ensures
            r == (Hash256 { h3, h2, h1, h0 }),
    {
        Hash256 { h3, h2, h1, h0 }
    }

    pub fn from_u64(v: u64) -> (r: Hash256)
        ensures
            r == (Hash256 { h3: 0u64, h2: 0u64, h1: 0u64, h0: v }),
    {
        Hash256 { h3: 0, h2: 0, h1: 0, h0: v }
    }
}

impl Account {
    pub fn new(nonce: u64, balance: Word256, code_hash: Hash256) -> (r: Account)
        ensures
            r == (Account { nonce, balance, code_hash }),
    {
        Account { nonce, balance, code_hash }
    }
}

/// The shared execution environment of a block: two trees may only be
/// merged when their environments agree.
#[derive(Clone, Copy, Debug, PartialEq, Eq, Structural)]
pub struct BlockEnv {
    pub number: u64,
    pub timestamp: u64,
    pub coinbase: Address,
    pub basefee: Word256,
    pub gas_limit: u64,
    pub prevrandao: Hash256,
}

/// The all-zero environment.
pub open spec fn block_env_default() -> BlockEnv {
    BlockEnv {
        number: 0u64,
        timestamp: 0u64,
        coinbase: Address { hi: 0u32, mid: 0u64, lo: 0u64 },
        basefee: Word256 { w3: 0u64, w2: 0u64, w1: 0u64, w0: 0u64 },
        gas_limit: 0u64,
        prevrandao: Hash256 { h3: 0u64, h2: 0u64, h1: 0u64, h0: 0u64 },
    }
}

impl Default for BlockEnv {
    fn default() -> (r: BlockEnv)
        ensures
            r == block_env_default(),
    {
        BlockEnv {
            number: 0,
            timestamp: 0,
            coinbase: Address { hi: 0, mid: 0, lo: 0 },
            basefee: Word256 { w3: 0, w2: 0, w1: 0, w0: 0 },
            gas_limit: 0,
            prevrandao: Hash256 { h3: 0, h2: 0, h1: 0, h0: 0 },
        }
    }
}

/// A value that can sit inside a per-key access record: it can be compared
/// for equality in executable code, and that comparison agrees with spec
/// equality.
pub trait StateValue: Sized + Copy {
    fn same(&self, other: &Self) -> (r: bool)
        ensures
            r == (*self == *other),
    ;
}

impl StateValue for Account {
    fn same(&self, other: &Self) -> (r: bool)
        ensures
            r == (*self == *other),
    {
        *self == *other
    }
}

impl StateValue for Word256 {
    fn same(&self, other: &Self) -> (r: bool)
        ensures
            r == (*self == *other),
    {
        *self == *other
    }
}

impl StateValue for Hash256 {
    fn same(&self, other: &Self) -> (r: bool)
        ensures
            r == (*self == *other),
    {
        *self == *other
    }
}

/// Equality on optional state values, lifted from `StateValue`.
pub fn opt_same<T: StateValue>(a: &Option<T>, b: &Option<T>) -> (r: bool)
    ensures
        r == (*a == *b),
{
    match (a, b) {
        (None, None) => true,
        (Some(x), Some(y)) => x.same(y),
        _ => false,
    }
}

} // verus!
