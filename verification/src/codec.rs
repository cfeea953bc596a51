//! The canonical, deterministic byte schema of the persisted objects:
//! version-tagged containers, little-endian integers, and length-prefixed
//! byte strings. Aggregation across provers requires bit-identical
//! encodings, so every decoder is proved to invert its encoder exactly.

use vstd::prelude::*;

use crate::ari::{AccessListItem, EvmTransaction, TransactionAction, TransactionBody};
use crate::primitives::{Account, Address, BlockEnv, Hash256, Word256};
use crate::verifiable_state::access::{Access, Modified};
use crate::sorted_log::{check_sorted, entries_sorted};
use crate::tx_trie::{Transition, TxTree};
use crate::verifiable_state::evm::{EvmStateLog, EvmStorageAddress};
use crate::verifiable_state::EvmStateEntry;

verus! {

/// The version tag of the schema, leading every top-level object.
pub const CODEC_VERSION: u8 = 1;

// --- little-endian u64 ---

#[verifier::opaque]
pub open spec fn spec_enc_u64(v: u64) -> Seq<u8> {
    seq![
        (v & 0xff) as u8,
        ((v >> 8) & 0xff) as u8,
        ((v >> 16) & 0xff) as u8,
        ((v >> 24) & 0xff) as u8,
        ((v >> 32) & 0xff) as u8,
        ((v >> 40) & 0xff) as u8,
        ((v >> 48) & 0xff) as u8,
        ((v >> 56) & 0xff) as u8,
    ]
}

#[verifier::opaque]
pub open spec fn spec_recombine_u64(s: Seq<u8>, i: int) -> u64 {
    (s[i] as u64) | ((s[i + 1] as u64) << 8) | ((s[i + 2] as u64) << 16) | ((s[i + 3] as u64)
        << 24) | ((s[i + 4] as u64) << 32) | ((s[i + 5] as u64) << 40) | ((s[i + 6] as u64)
        << 48) | ((s[i + 7] as u64) << 56)
}

pub open spec fn spec_dec_u64(s: Seq<u8>, i: int) -> Option<(u64, int)> {
    if i + 8 <= s.len() {
        Some((spec_recombine_u64(s, i), i + 8))
    } else {
        None
    }
}

/// Every encoded 64-bit word is eight bytes long.
pub broadcast proof fn lemma_enc_u64_len(v: u64)
    ensures
        (#[trigger] spec_enc_u64(v)).len() == 8,
{
    reveal(spec_enc_u64);
}

pub fn enc_u64(out: &mut Vec<u8>, v: u64)
    ensures
        final(out)@ == old(out)@ + spec_enc_u64(v),
{
    proof {
        reveal(spec_enc_u64);
    }
    out.push((v & 0xff) as u8);
    out.push(((v >> 8) & 0xff) as u8);
    out.push(((v >> 16) & 0xff) as u8);
    out.push(((v >> 24) & 0xff) as u8);
    out.push(((v >> 32) & 0xff) as u8);
    out.push(((v >> 40) & 0xff) as u8);
    out.push(((v >> 48) & 0xff) as u8);
    out.push(((v >> 56) & 0xff) as u8);
    proof {
        assert(out@ =~= old(out)@ + spec_enc_u64(v));
    }
}

pub fn dec_u64(buf: &Vec<u8>, pos: usize) -> (r: Option<(u64, usize)>)
    requires
        pos <= buf@.len(),
    ensures
        r is Some <==> spec_dec_u64(buf@, pos as int) is Some,
        r is Some ==> Some(((r->Some_0).0, (r->Some_0).1 as int)) == spec_dec_u64(
            buf@,
            pos as int,
        ) && (r->Some_0).1 <= buf@.len(),
{
    if buf.len() - pos < 8 {
        return None;
    }
    let v: u64 = (buf[pos] as u64) | ((buf[pos + 1] as u64) << 8) | ((buf[pos + 2] as u64)
        << 16) | ((buf[pos + 3] as u64) << 24) | ((buf[pos + 4] as u64) << 32) | ((buf[pos
        + 5] as u64) << 40) | ((buf[pos + 6] as u64) << 48) | ((buf[pos + 7] as u64) << 56);
    proof {
        reveal(spec_recombine_u64);
    }
    Some((v, pos + 8))
}

/// Reading eight little-endian bytes back gives the encoded word.
pub proof fn lemma_u64_round_trip(v: u64, pre: Seq<u8>, rest: Seq<u8>)
    ensures
        spec_dec_u64(pre + spec_enc_u64(v) + rest, pre.len() as int) == Some(
            (v, pre.len() + 8int),
        ),
{
    reveal(spec_enc_u64);
    reveal(spec_recombine_u64);
    let s = pre + spec_enc_u64(v) + rest;
    let i = pre.len() as int;
    assert(s[i] == (v & 0xff) as u8);
    assert(s[i + 1] == ((v >> 8) & 0xff) as u8);
    assert(s[i + 2] == ((v >> 16) & 0xff) as u8);
    assert(s[i + 3] == ((v >> 24) & 0xff) as u8);
    assert(s[i + 4] == ((v >> 32) & 0xff) as u8);
    assert(s[i + 5] == ((v >> 40) & 0xff) as u8);
    assert(s[i + 6] == ((v >> 48) & 0xff) as u8);
    assert(s[i + 7] == ((v >> 56) & 0xff) as u8);
    assert((((v & 0xff) as u8) as u64) | ((((v >> 8) & 0xff) as u8 as u64) << 8) | ((((v >> 16)
        & 0xff) as u8 as u64) << 16) | ((((v >> 24) & 0xff) as u8 as u64) << 24) | ((((v >> 32)
        & 0xff) as u8 as u64) << 32) | ((((v >> 40) & 0xff) as u8 as u64) << 40) | ((((v >> 48)
        & 0xff) as u8 as u64) << 48) | ((((v >> 56) & 0xff) as u8 as u64) << 56) == v)
        by (bit_vector);
}

// --- single byte (tags) ---

pub open spec fn spec_dec_u8(s: Seq<u8>, i: int) -> Option<(u8, int)> {
    if i + 1 <= s.len() {
        Some((s[i], i + 1))
    } else {
        None
    }
}

pub fn dec_u8(buf: &Vec<u8>, pos: usize) -> (r: Option<(u8, usize)>)
    requires
        pos <= buf@.len(),
    ensures
        r is Some <==> spec_dec_u8(buf@, pos as int) is Some,
        r is Some ==> Some(((r->Some_0).0, (r->Some_0).1 as int)) == spec_dec_u8(
            buf@,
            pos as int,
        ) && (r->Some_0).1 <= buf@.len(),
{
    if buf.len() - pos < 1 {
        return None;
    }
    Some((buf[pos], pos + 1))
}

// --- length-prefixed byte strings ---

#[verifier::opaque]
pub open spec fn spec_enc_bytes(s: Seq<u8>) -> Seq<u8> {
    spec_enc_u64(s.len() as u64) + s
}

#[verifier::opaque]
pub open spec fn spec_dec_bytes(s: Seq<u8>, i: int) -> Option<(Seq<u8>, int)> {
    match spec_dec_u64(s, i) {
        Some((n, j)) => if j + n <= s.len() {
            Some((s.subrange(j, j + n), j + n))
        } else {
            None
        },
        None => None,
    }
}

pub fn enc_bytes(out: &mut Vec<u8>, s: &Vec<u8>)
    ensures
        final(out)@ == old(out)@ + spec_enc_bytes(s@),
{
    proof {
        reveal(spec_enc_bytes);
    }
    enc_u64(out, s.len() as u64);
    let mut t: usize = 0;
    let ghost mid = out@;
    #[verifier::loop_isolation(false)]
    while t < s.len()
        invariant
            t <= s@.len(),
            out@ == mid + s@.take(t as int),
        decreases s@.len() - t,
    {
        out.push(s[t]);
        proof {
            assert(mid + s@.take(t as int) + seq![s@[t as int]] =~= mid + s@.take(t as int + 1));
        }
        t = t + 1;
    }
    proof {
        assert(s@.take(s@.len() as int) =~= s@);
        assert(mid + s@ =~= old(out)@ + spec_enc_bytes(s@));
    }
}

pub fn dec_bytes(buf: &Vec<u8>, pos: usize) -> (r: Option<(Vec<u8>, usize)>)
    requires
        pos <= buf@.len(),
    ensures
        r is Some <==> spec_dec_bytes(buf@, pos as int) is Some,
        r is Some ==> {
            &&& Some(((r->Some_0).0@, (r->Some_0).1 as int)) == spec_dec_bytes(buf@, pos as int)
            &&& (r->Some_0).1 <= buf@.len()
        },
{
    proof {
        reveal(spec_dec_bytes);
    }
    let (n, j) = match dec_u64(buf, pos) {
        Some(p) => p,
        None => {
            return None;
        },
    };
    if n > (buf.len() - j) as u64 {
        return None;
    }
    let len = n as usize;
    let mut out: Vec<u8> = Vec::new();
    let mut t: usize = 0;
    #[verifier::loop_isolation(false)]
    while t < len
        invariant
            t <= len,
            j + len <= buf@.len(),
            out@ == buf@.subrange(j as int, j as int + t as int),
        decreases len - t,
    {
        out.push(buf[j + t]);
        proof {
            assert(buf@.subrange(j as int, j as int + t as int) + seq![buf@[j as int + t as int]]
                =~= buf@.subrange(j as int, j as int + t as int + 1));
        }
        t = t + 1;
    }
    Some((out, j + len))
}

/// A length-prefixed byte string reads back exactly.
pub proof fn lemma_bytes_round_trip(s: Seq<u8>, pre: Seq<u8>, rest: Seq<u8>)
    requires
        s.len() <= u64::MAX,
    ensures
        spec_dec_bytes(pre + spec_enc_bytes(s) + rest, pre.len() as int) == Some(
            (s, pre.len() + spec_enc_bytes(s).len() as int),
        ),
{
    reveal(spec_enc_bytes);
    reveal(spec_dec_bytes);
    broadcast use lemma_enc_u64_len;
    let whole = pre + spec_enc_bytes(s) + rest;
    assert(whole =~= pre + spec_enc_u64(s.len() as u64) + (s + rest));
    lemma_u64_round_trip(s.len() as u64, pre, s + rest);
    assert(spec_dec_u64(whole, pre.len() as int) == Some(
        (s.len() as u64, pre.len() + 8int),
    ));
    let j: int = pre.len() + 8int;
    let n: int = (s.len() as u64) as int;
    assert(n == s.len() as int);
    assert(j + n <= whole.len());
    assert(whole.subrange(j, j + n) =~= s);
}

// --- fixed-width model types ---

#[verifier::opaque]
pub open spec fn spec_enc_word(w: Word256) -> Seq<u8> {
    spec_enc_u64(w.w3) + spec_enc_u64(w.w2) + spec_enc_u64(w.w1) + spec_enc_u64(w.w0)
}

#[verifier::opaque]
pub open spec fn spec_dec_word(s: Seq<u8>, i: int) -> Option<(Word256, int)> {
    match spec_dec_u64(s, i) {
        Some((w3, j1)) => match spec_dec_u64(s, j1) {
            Some((w2, j2)) => match spec_dec_u64(s, j2) {
                Some((w1, j3)) => match spec_dec_u64(s, j3) {
                    Some((w0, j4)) => Some((Word256 { w3, w2, w1, w0 }, j4)),
                    None => None,
                },
                None => None,
            },
            None => None,
        },
        None => None,
    }
}

pub fn enc_word(out: &mut Vec<u8>, w: &Word256)
    ensures
        final(out)@ == old(out)@ + spec_enc_word(*w),
{
    proof {
        reveal(spec_enc_word);
    }
    enc_u64(out, w.w3);
    enc_u64(out, w.w2);
    enc_u64(out, w.w1);
    enc_u64(out, w.w0);
    proof {
        assert(out@ =~= old(out)@ + spec_enc_word(*w));
    }
}

pub fn dec_word(buf: &Vec<u8>, pos: usize) -> (r: Option<(Word256, usize)>)
    requires
        pos <= buf@.len(),
    ensures
        r is Some <==> spec_dec_word(buf@, pos as int) is Some,
        r is Some ==> Some(((r->Some_0).0, (r->Some_0).1 as int)) == spec_dec_word(
            buf@,
            pos as int,
        ) && (r->Some_0).1 <= buf@.len(),
{
    proof {
        reveal(spec_dec_word);
    }
    let (w3, p1) = match dec_u64(buf, pos) {
        Some(p) => p,
        None => {
            return None;
        },
    };
    let (w2, p2) = match dec_u64(buf, p1) {
        Some(p) => p,
        None => {
            return None;
        },
    };
    let (w1, p3) = match dec_u64(buf, p2) {
        Some(p) => p,
        None => {
            return None;
        },
    };
    let (w0, p4) = match dec_u64(buf, p3) {
        Some(p) => p,
        None => {
            return None;
        },
    };
    Some((Word256 { w3, w2, w1, w0 }, p4))
}

pub proof fn lemma_word_round_trip(w: Word256, pre: Seq<u8>, rest: Seq<u8>)
    ensures
        spec_dec_word(pre + spec_enc_word(w) + rest, pre.len() as int) == Some(
            (w, pre.len() + spec_enc_word(w).len() as int),
        ),
{
    reveal(spec_enc_word);
    reveal(spec_dec_word);
    broadcast use lemma_enc_u64_len;
    let whole = pre + spec_enc_word(w) + rest;
    let p0 = pre;
    let p1 = p0 + spec_enc_u64(w.w3);
    let p2 = p1 + spec_enc_u64(w.w2);
    let p3 = p2 + spec_enc_u64(w.w1);
    assert(whole =~= p0 + spec_enc_u64(w.w3) + (spec_enc_u64(w.w2) + spec_enc_u64(w.w1)
        + spec_enc_u64(w.w0) + rest));
    lemma_u64_round_trip(
        w.w3,
        p0,
        spec_enc_u64(w.w2) + spec_enc_u64(w.w1) + spec_enc_u64(w.w0) + rest,
    );
    assert(whole =~= p1 + spec_enc_u64(w.w2) + (spec_enc_u64(w.w1) + spec_enc_u64(w.w0)
        + rest));
    lemma_u64_round_trip(w.w2, p1, spec_enc_u64(w.w1) + spec_enc_u64(w.w0) + rest);
    assert(whole =~= p2 + spec_enc_u64(w.w1) + (spec_enc_u64(w.w0) + rest));
    lemma_u64_round_trip(w.w1, p2, spec_enc_u64(w.w0) + rest);
    assert(whole =~= p3 + spec_enc_u64(w.w0) + rest);
    lemma_u64_round_trip(w.w0, p3, rest);
}

#[verifier::opaque]
pub open spec fn spec_enc_hash(h: Hash256) -> Seq<u8> {
    spec_enc_u64(h.h3) + spec_enc_u64(h.h2) + spec_enc_u64(h.h1) + spec_enc_u64(h.h0)
}

#[verifier::opaque]
pub open spec fn spec_dec_hash(s: Seq<u8>, i: int) -> Option<(Hash256, int)> {
    match spec_dec_u64(s, i) {
        Some((h3, j1)) => match spec_dec_u64(s, j1) {
            Some((h2, j2)) => match spec_dec_u64(s, j2) {
                Some((h1, j3)) => match spec_dec_u64(s, j3) {
                    Some((h0, j4)) => Some((Hash256 { h3, h2, h1, h0 }, j4)),
                    None => None,
                },
                None => None,
            },
            None => None,
        },
        None => None,
    }
}

pub fn enc_hash(out: &mut Vec<u8>, h: &Hash256)
    ensures
        final(out)@ == old(out)@ + spec_enc_hash(*h),
{
    proof {
        reveal(spec_enc_hash);
    }
    enc_u64(out, h.h3);
    enc_u64(out, h.h2);
    enc_u64(out, h.h1);
    enc_u64(out, h.h0);
    proof {
        assert(out@ =~= old(out)@ + spec_enc_hash(*h));
    }
}

pub fn dec_hash(buf: &Vec<u8>, pos: usize) -> (r: Option<(Hash256, usize)>)
    requires
        pos <= buf@.len(),
    ensures
        r is Some <==> spec_dec_hash(buf@, pos as int) is Some,
        r is Some ==> Some(((r->Some_0).0, (r->Some_0).1 as int)) == spec_dec_hash(
            buf@,
            pos as int,
        ) && (r->Some_0).1 <= buf@.len(),
{
    proof {
        reveal(spec_dec_hash);
    }
    let (h3, p1) = match dec_u64(buf, pos) {
        Some(p) => p,
        None => {
            return None;
        },
    };
    let (h2, p2) = match dec_u64(buf, p1) {
        Some(p) => p,
        None => {
            return None;
        },
    };
    let (h1, p3) = match dec_u64(buf, p2) {
        Some(p) => p,
        None => {
            return None;
        },
    };
    let (h0, p4) = match dec_u64(buf, p3) {
        Some(p) => p,
        None => {
            return None;
        },
    };
    Some((Hash256 { h3, h2, h1, h0 }, p4))
}

pub proof fn lemma_hash_round_trip(h: Hash256, pre: Seq<u8>, rest: Seq<u8>)
    ensures
        spec_dec_hash(pre + spec_enc_hash(h) + rest, pre.len() as int) == Some(
            (h, pre.len() + spec_enc_hash(h).len() as int),
        ),
{
    reveal(spec_enc_hash);
    reveal(spec_dec_hash);
    broadcast use lemma_enc_u64_len;
    let whole = pre + spec_enc_hash(h) + rest;
    let p0 = pre;
    let p1 = p0 + spec_enc_u64(h.h3);
    let p2 = p1 + spec_enc_u64(h.h2);
    let p3 = p2 + spec_enc_u64(h.h1);
    assert(whole =~= p0 + spec_enc_u64(h.h3) + (spec_enc_u64(h.h2) + spec_enc_u64(h.h1)
        + spec_enc_u64(h.h0) + rest));
    lemma_u64_round_trip(
        h.h3,
        p0,
        spec_enc_u64(h.h2) + spec_enc_u64(h.h1) + spec_enc_u64(h.h0) + rest,
    );
    assert(whole =~= p1 + spec_enc_u64(h.h2) + (spec_enc_u64(h.h1) + spec_enc_u64(h.h0)
        + rest));
    lemma_u64_round_trip(h.h2, p1, spec_enc_u64(h.h1) + spec_enc_u64(h.h0) + rest);
    assert(whole =~= p2 + spec_enc_u64(h.h1) + (spec_enc_u64(h.h0) + rest));
    lemma_u64_round_trip(h.h1, p2, spec_enc_u64(h.h0) + rest);
    assert(whole =~= p3 + spec_enc_u64(h.h0) + rest);
    lemma_u64_round_trip(h.h0, p3, rest);
}

#[verifier::opaque]
pub open spec fn spec_enc_addr(a: Address) -> Seq<u8> {
    spec_enc_u64(a.hi as u64) + spec_enc_u64(a.mid) + spec_enc_u64(a.lo)
}

#[verifier::opaque]
pub open spec fn spec_dec_addr(s: Seq<u8>, i: int) -> Option<(Address, int)> {
    match spec_dec_u64(s, i) {
        Some((hi, j1)) => if hi <= u32::MAX {
            match spec_dec_u64(s, j1) {
                Some((mid, j2)) => match spec_dec_u64(s, j2) {
                    Some((lo, j3)) => Some((Address { hi: hi as u32, mid, lo }, j3)),
                    None => None,
                },
                None => None,
            }
        } else {
            None
        },
        None => None,
    }
}

pub fn enc_addr(out: &mut Vec<u8>, a: &Address)
    ensures
        final(out)@ == old(out)@ + spec_enc_addr(*a),
{
    proof {
        reveal(spec_enc_addr);
    }
    enc_u64(out, a.hi as u64);
    enc_u64(out, a.mid);
    enc_u64(out, a.lo);
    proof {
        assert(out@ =~= old(out)@ + spec_enc_addr(*a));
    }
}

pub fn dec_addr(buf: &Vec<u8>, pos: usize) -> (r: Option<(Address, usize)>)
    requires
        pos <= buf@.len(),
    ensures
        r is Some <==> spec_dec_addr(buf@, pos as int) is Some,
        r is Some ==> Some(((r->Some_0).0, (r->Some_0).1 as int)) == spec_dec_addr(
            buf@,
            pos as int,
        ) && (r->Some_0).1 <= buf@.len(),
{
    proof {
        reveal(spec_dec_addr);
    }
    let (hi, p1) = match dec_u64(buf, pos) {
        Some(p) => p,
        None => {
            return None;
        },
    };
    if hi > u32::MAX as u64 {
        return None;
    }
    let (mid, p2) = match dec_u64(buf, p1) {
        Some(p) => p,
        None => {
            return None;
        },
    };
    let (lo, p3) = match dec_u64(buf, p2) {
        Some(p) => p,
        None => {
            return None;
        },
    };
    Some((Address { hi: hi as u32, mid, lo }, p3))
}

pub proof fn lemma_addr_round_trip(a: Address, pre: Seq<u8>, rest: Seq<u8>)
    ensures
        spec_dec_addr(pre + spec_enc_addr(a) + rest, pre.len() as int) == Some(
            (a, pre.len() + spec_enc_addr(a).len() as int),
        ),
{
    reveal(spec_enc_addr);
    reveal(spec_dec_addr);
    broadcast use lemma_enc_u64_len;
    let whole = pre + spec_enc_addr(a) + rest;
    let p0 = pre;
    let p1 = p0 + spec_enc_u64(a.hi as u64);
    let p2 = p1 + spec_enc_u64(a.mid);
    assert(whole =~= p0 + spec_enc_u64(a.hi as u64) + (spec_enc_u64(a.mid) + spec_enc_u64(a.lo)
        + rest));
    lemma_u64_round_trip(a.hi as u64, p0, spec_enc_u64(a.mid) + spec_enc_u64(a.lo) + rest);
    assert(whole =~= p1 + spec_enc_u64(a.mid) + (spec_enc_u64(a.lo) + rest));
    lemma_u64_round_trip(a.mid, p1, spec_enc_u64(a.lo) + rest);
    assert(whole =~= p2 + spec_enc_u64(a.lo) + rest);
    lemma_u64_round_trip(a.lo, p2, rest);
}

#[verifier::opaque]
pub open spec fn spec_enc_account(a: Account) -> Seq<u8> {
    spec_enc_u64(a.nonce) + spec_enc_word(a.balance) + spec_enc_hash(a.code_hash)
}

#[verifier::opaque]
pub open spec fn spec_dec_account(s: Seq<u8>, i: int) -> Option<(Account, int)> {
    match spec_dec_u64(s, i) {
        Some((nonce, j1)) => match spec_dec_word(s, j1) {
            Some((balance, j2)) => match spec_dec_hash(s, j2) {
                Some((code_hash, j3)) => Some((Account { nonce, balance, code_hash }, j3)),
                None => None,
            },
            None => None,
        },
        None => None,
    }
}

pub fn enc_account(out: &mut Vec<u8>, a: &Account)
    ensures
        final(out)@ == old(out)@ + spec_enc_account(*a),
{
    proof {
        reveal(spec_enc_account);
    }
    enc_u64(out, a.nonce);
    enc_word(out, &a.balance);
    enc_hash(out, &a.code_hash);
    proof {
        assert(out@ =~= old(out)@ + spec_enc_account(*a));
    }
}

pub fn dec_account(buf: &Vec<u8>, pos: usize) -> (r: Option<(Account, usize)>)
    requires
        pos <= buf@.len(),
    ensures
        r is Some <==> spec_dec_account(buf@, pos as int) is Some,
        r is Some ==> Some(((r->Some_0).0, (r->Some_0).1 as int)) == spec_dec_account(
            buf@,
            pos as int,
        ) && (r->Some_0).1 <= buf@.len(),
{
    proof {
        reveal(spec_dec_account);
    }
    let (nonce, p1) = match dec_u64(buf, pos) {
        Some(p) => p,
        None => {
            return None;
        },
    };
    let (balance, p2) = match dec_word(buf, p1) {
        Some(p) => p,
        None => {
            return None;
        },
    };
    let (code_hash, p3) = match dec_hash(buf, p2) {
        Some(p) => p,
        None => {
            return None;
        },
    };
    Some((Account { nonce, balance, code_hash }, p3))
}

#[verifier::rlimit(100)]
#[verifier::spinoff_prover]
pub proof fn lemma_account_round_trip(a: Account, pre: Seq<u8>, rest: Seq<u8>)
    ensures
        spec_dec_account(pre + spec_enc_account(a) + rest, pre.len() as int) == Some(
            (a, pre.len() + spec_enc_account(a).len() as int),
        ),
{
    reveal(spec_enc_account);
    reveal(spec_dec_account);
    broadcast use lemma_enc_u64_len;
    let whole = pre + spec_enc_account(a) + rest;
    let p0 = pre;
    let p1 = p0 + spec_enc_u64(a.nonce);
    let p2 = p1 + spec_enc_word(a.balance);
    assert(whole =~= p0 + spec_enc_u64(a.nonce) + (spec_enc_word(a.balance) + spec_enc_hash(
        a.code_hash,
    ) + rest));
    lemma_u64_round_trip(a.nonce, p0, spec_enc_word(a.balance) + spec_enc_hash(a.code_hash)
        + rest);
    assert(whole =~= p1 + spec_enc_word(a.balance) + (spec_enc_hash(a.code_hash) + rest));
    lemma_word_round_trip(a.balance, p1, spec_enc_hash(a.code_hash) + rest);
    assert(whole =~= p2 + spec_enc_hash(a.code_hash) + rest);
    lemma_hash_round_trip(a.code_hash, p2, rest);
}

// --- optional values (tag byte, then the payload when present) ---

#[verifier::opaque]
pub open spec fn spec_enc_opt_account(v: Option<Account>) -> Seq<u8> {
    match v {
        None => seq![0u8],
        Some(a) => seq![1u8] + spec_enc_account(a),
    }
}

#[verifier::opaque]
pub open spec fn spec_dec_opt_account(s: Seq<u8>, i: int) -> Option<(Option<Account>, int)> {
    match spec_dec_u8(s, i) {
        Some((tag, j)) => if tag == 0 {
            Some((None, j))
        } else if tag == 1 {
            match spec_dec_account(s, j) {
                Some((a, k)) => Some((Some(a), k)),
                None => None,
            }
        } else {
            None
        },
        None => None,
    }
}

pub fn enc_opt_account(out: &mut Vec<u8>, v: &Option<Account>)
    ensures
        final(out)@ == old(out)@ + spec_enc_opt_account(*v),
{
    proof {
        reveal(spec_enc_opt_account);
    }
    match v {
        None => {
            out.push(0u8);
            proof {
                assert(out@ =~= old(out)@ + spec_enc_opt_account(*v));
            }
        },
        Some(a) => {
            out.push(1u8);
            enc_account(out, a);
            proof {
                assert(out@ =~= old(out)@ + spec_enc_opt_account(*v));
            }
        },
    }
}

pub fn dec_opt_account(buf: &Vec<u8>, pos: usize) -> (r: Option<(Option<Account>, usize)>)
    requires
        pos <= buf@.len(),
    ensures
        r is Some <==> spec_dec_opt_account(buf@, pos as int) is Some,
        r is Some ==> Some(((r->Some_0).0, (r->Some_0).1 as int)) == spec_dec_opt_account(
            buf@,
            pos as int,
        ) && (r->Some_0).1 <= buf@.len(),
{
    proof {
        reveal(spec_dec_opt_account);
    }
    let (tag, j) = match dec_u8(buf, pos) {
        Some(p) => p,
        None => {
            return None;
        },
    };
    if tag == 0 {
        Some((None, j))
    } else if tag == 1 {
        match dec_account(buf, j) {
            Some((a, k)) => Some((Some(a), k)),
            None => None,
        }
    } else {
        None
    }
}

pub proof fn lemma_opt_account_round_trip(v: Option<Account>, pre: Seq<u8>, rest: Seq<u8>)
    ensures
        spec_dec_opt_account(pre + spec_enc_opt_account(v) + rest, pre.len() as int) == Some(
            (v, pre.len() + spec_enc_opt_account(v).len() as int),
        ),
{
    reveal(spec_enc_opt_account);
    reveal(spec_dec_opt_account);
    broadcast use lemma_enc_u64_len;
    let whole = pre + spec_enc_opt_account(v) + rest;
    match v {
        None => {
            assert(whole[pre.len() as int] == 0u8);
        },
        Some(a) => {
            assert(whole[pre.len() as int] == 1u8);
            let p1 = pre + seq![1u8];
            assert(whole =~= p1 + spec_enc_account(a) + rest);
            lemma_account_round_trip(a, p1, rest);
        },
    }
}

#[verifier::opaque]
pub open spec fn spec_enc_opt_word(v: Option<Word256>) -> Seq<u8> {
    match v {
        None => seq![0u8],
        Some(w) => seq![1u8] + spec_enc_word(w),
    }
}

#[verifier::opaque]
pub open spec fn spec_dec_opt_word(s: Seq<u8>, i: int) -> Option<(Option<Word256>, int)> {
    match spec_dec_u8(s, i) {
        Some((tag, j)) => if tag == 0 {
            Some((None, j))
        } else if tag == 1 {
            match spec_dec_word(s, j) {
                Some((w, k)) => Some((Some(w), k)),
                None => None,
            }
        } else {
            None
        },
        None => None,
    }
}

pub fn enc_opt_word(out: &mut Vec<u8>, v: &Option<Word256>)
    ensures
        final(out)@ == old(out)@ + spec_enc_opt_word(*v),
{
    proof {
        reveal(spec_enc_opt_word);
    }
    match v {
        None => {
            out.push(0u8);
            proof {
                assert(out@ =~= old(out)@ + spec_enc_opt_word(*v));
            }
        },
        Some(w) => {
            out.push(1u8);
            enc_word(out, w);
            proof {
                assert(out@ =~= old(out)@ + spec_enc_opt_word(*v));
            }
        },
    }
}

pub fn dec_opt_word(buf: &Vec<u8>, pos: usize) -> (r: Option<(Option<Word256>, usize)>)
    requires
        pos <= buf@.len(),
    ensures
        r is Some <==> spec_dec_opt_word(buf@, pos as int) is Some,
        r is Some ==> Some(((r->Some_0).0, (r->Some_0).1 as int)) == spec_dec_opt_word(
            buf@,
            pos as int,
        ) && (r->Some_0).1 <= buf@.len(),
{
    proof {
        reveal(spec_dec_opt_word);
    }
    let (tag, j) = match dec_u8(buf, pos) {
        Some(p) => p,
        None => {
            return None;
        },
    };
    if tag == 0 {
        Some((None, j))
    } else if tag == 1 {
        match dec_word(buf, j) {
            Some((w, k)) => Some((Some(w), k)),
            None => None,
        }
    } else {
        None
    }
}

pub proof fn lemma_opt_word_round_trip(v: Option<Word256>, pre: Seq<u8>, rest: Seq<u8>)
    ensures
        spec_dec_opt_word(pre + spec_enc_opt_word(v) + rest, pre.len() as int) == Some(
            (v, pre.len() + spec_enc_opt_word(v).len() as int),
        ),
{
    reveal(spec_enc_opt_word);
    reveal(spec_dec_opt_word);
    broadcast use lemma_enc_u64_len;
    let whole = pre + spec_enc_opt_word(v) + rest;
    match v {
        None => {
            assert(whole[pre.len() as int] == 0u8);
        },
        Some(w) => {
            assert(whole[pre.len() as int] == 1u8);
            let p1 = pre + seq![1u8];
            assert(whole =~= p1 + spec_enc_word(w) + rest);
            lemma_word_round_trip(w, p1, rest);
        },
    }
}

#[verifier::opaque]
pub open spec fn spec_enc_opt_hash(v: Option<Hash256>) -> Seq<u8> {
    match v {
        None => seq![0u8],
        Some(h) => seq![1u8] + spec_enc_hash(h),
    }
}

#[verifier::opaque]
pub open spec fn spec_dec_opt_hash(s: Seq<u8>, i: int) -> Option<(Option<Hash256>, int)> {
    match spec_dec_u8(s, i) {
        Some((tag, j)) => if tag == 0 {
            Some((None, j))
        } else if tag == 1 {
            match spec_dec_hash(s, j) {
                Some((h, k)) => Some((Some(h), k)),
                None => None,
            }
        } else {
            None
        },
        None => None,
    }
}

pub fn enc_opt_hash(out: &mut Vec<u8>, v: &Option<Hash256>)
    ensures
        final(out)@ == old(out)@ + spec_enc_opt_hash(*v),
{
    proof {
        reveal(spec_enc_opt_hash);
    }
    match v {
        None => {
            out.push(0u8);
            proof {
                assert(out@ =~= old(out)@ + spec_enc_opt_hash(*v));
            }
        },
        Some(h) => {
            out.push(1u8);
            enc_hash(out, h);
            proof {
                assert(out@ =~= old(out)@ + spec_enc_opt_hash(*v));
            }
        },
    }
}

pub fn dec_opt_hash(buf: &Vec<u8>, pos: usize) -> (r: Option<(Option<Hash256>, usize)>)
    requires
        pos <= buf@.len(),
    ensures
        r is Some <==> spec_dec_opt_hash(buf@, pos as int) is Some,
        r is Some ==> Some(((r->Some_0).0, (r->Some_0).1 as int)) == spec_dec_opt_hash(
            buf@,
            pos as int,
        ) && (r->Some_0).1 <= buf@.len(),
{
    proof {
        reveal(spec_dec_opt_hash);
    }
    let (tag, j) = match dec_u8(buf, pos) {
        Some(p) => p,
        None => {
            return None;
        },
    };
    if tag == 0 {
        Some((None, j))
    } else if tag == 1 {
        match dec_hash(buf, j) {
            Some((h, k)) => Some((Some(h), k)),
            None => None,
        }
    } else {
        None
    }
}

pub proof fn lemma_opt_hash_round_trip(v: Option<Hash256>, pre: Seq<u8>, rest: Seq<u8>)
    ensures
        spec_dec_opt_hash(pre + spec_enc_opt_hash(v) + rest, pre.len() as int) == Some(
            (v, pre.len() + spec_enc_opt_hash(v).len() as int),
        ),
{
    reveal(spec_enc_opt_hash);
    reveal(spec_dec_opt_hash);
    broadcast use lemma_enc_u64_len;
    let whole = pre + spec_enc_opt_hash(v) + rest;
    match v {
        None => {
            assert(whole[pre.len() as int] == 0u8);
        },
        Some(h) => {
            assert(whole[pre.len() as int] == 1u8);
            let p1 = pre + seq![1u8];
            assert(whole =~= p1 + spec_enc_hash(h) + rest);
            lemma_hash_round_trip(h, p1, rest);
        },
    }
}

// --- access records ---

#[verifier::opaque]
pub open spec fn spec_enc_access_account(a: Access<Account>) -> Seq<u8> {
    match a {
        Access::Read(v) => seq![0u8] + spec_enc_opt_account(v),
        Access::ReadThenWrite(m) => seq![1u8] + spec_enc_opt_account(m.original)
            + spec_enc_opt_account(m.modified),
        Access::Write(v) => seq![2u8] + spec_enc_opt_account(v),
    }
}

#[verifier::opaque]
pub open spec fn spec_dec_access_account(s: Seq<u8>, i: int) -> Option<(Access<Account>, int)> {
    match spec_dec_u8(s, i) {
        Some((tag, j)) => if tag == 0 {
            match spec_dec_opt_account(s, j) {
                Some((v, k)) => Some((Access::Read(v), k)),
                None => None,
            }
        } else if tag == 1 {
            match spec_dec_opt_account(s, j) {
                Some((o, k)) => match spec_dec_opt_account(s, k) {
                    Some((m, k2)) => Some(
                        (Access::ReadThenWrite(Modified { original: o, modified: m }), k2),
                    ),
                    None => None,
                },
                None => None,
            }
        } else if tag == 2 {
            match spec_dec_opt_account(s, j) {
                Some((v, k)) => Some((Access::Write(v), k)),
                None => None,
            }
        } else {
            None
        },
        None => None,
    }
}

pub fn enc_access_account(out: &mut Vec<u8>, a: &Access<Account>)
    ensures
        final(out)@ == old(out)@ + spec_enc_access_account(*a),
{
    proof {
        reveal(spec_enc_access_account);
    }
    match a {
        Access::Read(v) => {
            out.push(0u8);
            enc_opt_account(out, v);
        },
        Access::ReadThenWrite(m) => {
            out.push(1u8);
            enc_opt_account(out, &m.original);
            enc_opt_account(out, &m.modified);
        },
        Access::Write(v) => {
            out.push(2u8);
            enc_opt_account(out, v);
        },
    }
    proof {
        assert(out@ =~= old(out)@ + spec_enc_access_account(*a));
    }
}

pub fn dec_access_account(buf: &Vec<u8>, pos: usize) -> (r: Option<(Access<Account>, usize)>)
    requires
        pos <= buf@.len(),
    ensures
        r is Some <==> spec_dec_access_account(buf@, pos as int) is Some,
        r is Some ==> Some(((r->Some_0).0, (r->Some_0).1 as int)) == spec_dec_access_account(
            buf@,
            pos as int,
        ) && (r->Some_0).1 <= buf@.len(),
{
    proof {
        reveal(spec_dec_access_account);
    }
    let (tag, j) = match dec_u8(buf, pos) {
        Some(p) => p,
        None => {
            return None;
        },
    };
    if tag == 0 {
        match dec_opt_account(buf, j) {
            Some((v, k)) => Some((Access::Read(v), k)),
            None => None,
        }
    } else if tag == 1 {
        let (o, k) = match dec_opt_account(buf, j) {
            Some(p) => p,
            None => {
                return None;
            },
        };
        match dec_opt_account(buf, k) {
            Some((m, k2)) => Some(
                (Access::ReadThenWrite(Modified { original: o, modified: m }), k2),
            ),
            None => None,
        }
    } else if tag == 2 {
        match dec_opt_account(buf, j) {
            Some((v, k)) => Some((Access::Write(v), k)),
            None => None,
        }
    } else {
        None
    }
}

#[verifier::rlimit(100)]
#[verifier::spinoff_prover]
proof fn lemma_access_account_rt_rtw(m: Modified<Account>, pre: Seq<u8>, rest: Seq<u8>)
    ensures
        spec_dec_access_account(
            pre + spec_enc_access_account(Access::ReadThenWrite(m)) + rest,
            pre.len() as int,
        ) == Some(
            (
                Access::ReadThenWrite(m),
                pre.len() + spec_enc_access_account(
                    Access::<Account>::ReadThenWrite(m),
                ).len() as int,
            ),
        ),
{
    reveal(spec_enc_access_account);
    reveal(spec_dec_access_account);
    broadcast use lemma_enc_u64_len;
    let a = Access::ReadThenWrite(m);
    let whole = pre + spec_enc_access_account(a) + rest;
    assert(whole[pre.len() as int] == 1u8);
    let p1 = pre + seq![1u8];
    assert(whole =~= p1 + spec_enc_opt_account(m.original) + (spec_enc_opt_account(m.modified)
        + rest));
    lemma_opt_account_round_trip(m.original, p1, spec_enc_opt_account(m.modified) + rest);
    let p2 = p1 + spec_enc_opt_account(m.original);
    assert(whole =~= p2 + spec_enc_opt_account(m.modified) + rest);
    lemma_opt_account_round_trip(m.modified, p2, rest);
}

#[verifier::rlimit(100)]
#[verifier::spinoff_prover]
pub proof fn lemma_access_account_round_trip(a: Access<Account>, pre: Seq<u8>, rest: Seq<u8>)
    ensures
        spec_dec_access_account(pre + spec_enc_access_account(a) + rest, pre.len() as int)
            == Some((a, pre.len() + spec_enc_access_account(a).len() as int)),
{
    reveal(spec_enc_access_account);
    reveal(spec_dec_access_account);
    broadcast use lemma_enc_u64_len;
    let whole = pre + spec_enc_access_account(a) + rest;
    match a {
        Access::Read(v) => {
            assert(whole[pre.len() as int] == 0u8);
            let p1 = pre + seq![0u8];
            assert(whole =~= p1 + spec_enc_opt_account(v) + rest);
            lemma_opt_account_round_trip(v, p1, rest);
        },
        Access::ReadThenWrite(m) => {
            lemma_access_account_rt_rtw(m, pre, rest);
        },
        Access::Write(v) => {
            assert(whole[pre.len() as int] == 2u8);
            let p1 = pre + seq![2u8];
            assert(whole =~= p1 + spec_enc_opt_account(v) + rest);
            lemma_opt_account_round_trip(v, p1, rest);
        },
    }
}

#[verifier::opaque]
pub open spec fn spec_enc_access_word(a: Access<Word256>) -> Seq<u8> {
    match a {
        Access::Read(v) => seq![0u8] + spec_enc_opt_word(v),
        Access::ReadThenWrite(m) => seq![1u8] + spec_enc_opt_word(m.original)
            + spec_enc_opt_word(m.modified),
        Access::Write(v) => seq![2u8] + spec_enc_opt_word(v),
    }
}

#[verifier::opaque]
pub open spec fn spec_dec_access_word(s: Seq<u8>, i: int) -> Option<(Access<Word256>, int)> {
    match spec_dec_u8(s, i) {
        Some((tag, j)) => if tag == 0 {
            match spec_dec_opt_word(s, j) {
                Some((v, k)) => Some((Access::Read(v), k)),
                None => None,
            }
        } else if tag == 1 {
            match spec_dec_opt_word(s, j) {
                Some((o, k)) => match spec_dec_opt_word(s, k) {
                    Some((m, k2)) => Some(
                        (Access::ReadThenWrite(Modified { original: o, modified: m }), k2),
                    ),
                    None => None,
                },
                None => None,
            }
        } else if tag == 2 {
            match spec_dec_opt_word(s, j) {
                Some((v, k)) => Some((Access::Write(v), k)),
                None => None,
            }
        } else {
            None
        },
        None => None,
    }
}

pub fn enc_access_word(out: &mut Vec<u8>, a: &Access<Word256>)
    ensures
        final(out)@ == old(out)@ + spec_enc_access_word(*a),
{
    proof {
        reveal(spec_enc_access_word);
    }
    match a {
        Access::Read(v) => {
            out.push(0u8);
            enc_opt_word(out, v);
        },
        Access::ReadThenWrite(m) => {
            out.push(1u8);
            enc_opt_word(out, &m.original);
            enc_opt_word(out, &m.modified);
        },
        Access::Write(v) => {
            out.push(2u8);
            enc_opt_word(out, v);
        },
    }
    proof {
        assert(out@ =~= old(out)@ + spec_enc_access_word(*a));
    }
}

pub fn dec_access_word(buf: &Vec<u8>, pos: usize) -> (r: Option<(Access<Word256>, usize)>)
    requires
        pos <= buf@.len(),
    ensures
        r is Some <==> spec_dec_access_word(buf@, pos as int) is Some,
        r is Some ==> Some(((r->Some_0).0, (r->Some_0).1 as int)) == spec_dec_access_word(
            buf@,
            pos as int,
        ) && (r->Some_0).1 <= buf@.len(),
{
    proof {
        reveal(spec_dec_access_word);
    }
    let (tag, j) = match dec_u8(buf, pos) {
        Some(p) => p,
        None => {
            return None;
        },
    };
    if tag == 0 {
        match dec_opt_word(buf, j) {
            Some((v, k)) => Some((Access::Read(v), k)),
            None => None,
        }
    } else if tag == 1 {
        let (o, k) = match dec_opt_word(buf, j) {
            Some(p) => p,
            None => {
                return None;
            },
        };
        match dec_opt_word(buf, k) {
            Some((m, k2)) => Some(
                (Access::ReadThenWrite(Modified { original: o, modified: m }), k2),
            ),
            None => None,
        }
    } else if tag == 2 {
        match dec_opt_word(buf, j) {
            Some((v, k)) => Some((Access::Write(v), k)),
            None => None,
        }
    } else {
        None
    }
}

#[verifier::rlimit(100)]
#[verifier::spinoff_prover]
pub proof fn lemma_access_word_round_trip(a: Access<Word256>, pre: Seq<u8>, rest: Seq<u8>)
    ensures
        spec_dec_access_word(pre + spec_enc_access_word(a) + rest, pre.len() as int) == Some(
            (a, pre.len() + spec_enc_access_word(a).len() as int),
        ),
{
    reveal(spec_enc_access_word);
    reveal(spec_dec_access_word);
    broadcast use lemma_enc_u64_len;
    let whole = pre + spec_enc_access_word(a) + rest;
    match a {
        Access::Read(v) => {
            assert(whole[pre.len() as int] == 0u8);
            let p1 = pre + seq![0u8];
            assert(whole =~= p1 + spec_enc_opt_word(v) + rest);
            lemma_opt_word_round_trip(v, p1, rest);
        },
        Access::ReadThenWrite(m) => {
            assert(whole[pre.len() as int] == 1u8);
            let p1 = pre + seq![1u8];
            assert(whole =~= p1 + spec_enc_opt_word(m.original) + (spec_enc_opt_word(m.modified)
                + rest));
            lemma_opt_word_round_trip(m.original, p1, spec_enc_opt_word(m.modified) + rest);
            let p2 = p1 + spec_enc_opt_word(m.original);
            assert(whole =~= p2 + spec_enc_opt_word(m.modified) + rest);
            lemma_opt_word_round_trip(m.modified, p2, rest);
        },
        Access::Write(v) => {
            assert(whole[pre.len() as int] == 2u8);
            let p1 = pre + seq![2u8];
            assert(whole =~= p1 + spec_enc_opt_word(v) + rest);
            lemma_opt_word_round_trip(v, p1, rest);
        },
    }
}

// --- storage keys ---

pub open spec fn spec_enc_storage_addr(k: EvmStorageAddress) -> Seq<u8> {
    spec_enc_addr(k.0) + spec_enc_word(k.1)
}

pub open spec fn spec_dec_storage_addr(s: Seq<u8>, i: int) -> Option<(EvmStorageAddress, int)> {
    match spec_dec_addr(s, i) {
        Some((a, j)) => match spec_dec_word(s, j) {
            Some((w, k)) => Some((EvmStorageAddress(a, w), k)),
            None => None,
        },
        None => None,
    }
}

pub fn enc_storage_addr(out: &mut Vec<u8>, k: &EvmStorageAddress)
    ensures
        final(out)@ == old(out)@ + spec_enc_storage_addr(*k),
{
    enc_addr(out, &k.0);
    enc_word(out, &k.1);
    proof {
        assert(out@ =~= old(out)@ + spec_enc_storage_addr(*k));
    }
}

pub fn dec_storage_addr(buf: &Vec<u8>, pos: usize) -> (r: Option<(EvmStorageAddress, usize)>)
    requires
        pos <= buf@.len(),
    ensures
        r is Some <==> spec_dec_storage_addr(buf@, pos as int) is Some,
        r is Some ==> Some(((r->Some_0).0, (r->Some_0).1 as int)) == spec_dec_storage_addr(
            buf@,
            pos as int,
        ) && (r->Some_0).1 <= buf@.len(),
{
    let (a, j) = match dec_addr(buf, pos) {
        Some(p) => p,
        None => {
            return None;
        },
    };
    match dec_word(buf, j) {
        Some((w, k)) => Some((EvmStorageAddress(a, w), k)),
        None => None,
    }
}

pub proof fn lemma_storage_addr_round_trip(k: EvmStorageAddress, pre: Seq<u8>, rest: Seq<u8>)
    ensures
        spec_dec_storage_addr(pre + spec_enc_storage_addr(k) + rest, pre.len() as int) == Some(
            (k, pre.len() + spec_enc_storage_addr(k).len() as int),
        ),
{
    broadcast use lemma_enc_u64_len;
    let whole = pre + spec_enc_storage_addr(k) + rest;
    assert(whole =~= pre + spec_enc_addr(k.0) + (spec_enc_word(k.1) + rest));
    lemma_addr_round_trip(k.0, pre, spec_enc_word(k.1) + rest);
    let p1 = pre + spec_enc_addr(k.0);
    assert(whole =~= p1 + spec_enc_word(k.1) + rest);
    lemma_word_round_trip(k.1, p1, rest);
}

// --- counted lists ---

/// The elements' encodings, concatenated.
pub open spec fn spec_enc_list<T>(s: Seq<T>, f: spec_fn(T) -> Seq<u8>) -> Seq<u8>
    decreases s.len(),
{
    if s.len() == 0 {
        Seq::empty()
    } else {
        f(s[0]) + spec_enc_list(s.skip(1), f)
    }
}

/// A counted list: the element count, then the elements.
pub open spec fn spec_enc_vec<T>(s: Seq<T>, f: spec_fn(T) -> Seq<u8>) -> Seq<u8> {
    spec_enc_u64(s.len() as u64) + spec_enc_list(s, f)
}

pub open spec fn spec_dec_list<T>(
    s: Seq<u8>,
    i: int,
    n: int,
    g: spec_fn(Seq<u8>, int) -> Option<(T, int)>,
) -> Option<(Seq<T>, int)>
    decreases n,
{
    if n <= 0 {
        Some((Seq::empty(), i))
    } else {
        match g(s, i) {
            Some((x, j)) => match spec_dec_list(s, j, n - 1, g) {
                Some((xs, k)) => Some((seq![x] + xs, k)),
                None => None,
            },
            None => None,
        }
    }
}

pub open spec fn spec_dec_vec<T>(
    s: Seq<u8>,
    i: int,
    g: spec_fn(Seq<u8>, int) -> Option<(T, int)>,
) -> Option<(Seq<T>, int)> {
    match spec_dec_u64(s, i) {
        Some((n, j)) => spec_dec_list(s, j, n as int, g),
        None => None,
    }
}

pub proof fn lemma_enc_list_push<T>(s: Seq<T>, x: T, f: spec_fn(T) -> Seq<u8>)
    ensures
        spec_enc_list(s.push(x), f) == spec_enc_list(s, f) + f(x),
    decreases s.len(),
{
    broadcast use lemma_enc_u64_len;
    if s.len() == 0 {
        assert(s.push(x)[0] == x);
        assert(s.push(x).skip(1) =~= s);
        assert(f(x) + spec_enc_list(s, f) =~= f(x));
        assert(spec_enc_list(s, f) + f(x) =~= f(x));
    } else {
        assert(s.push(x)[0] == s[0]);
        assert(s.push(x).skip(1) =~= s.skip(1).push(x));
        lemma_enc_list_push(s.skip(1), x, f);
        assert(f(s[0]) + (spec_enc_list(s.skip(1), f) + f(x)) =~= (f(s[0]) + spec_enc_list(
            s.skip(1),
            f,
        )) + f(x));
    }
}

/// A counted list of elements whose decoder inverts their encoder reads
/// back exactly.
pub proof fn lemma_list_round_trip<T>(
    s: Seq<T>,
    pre: Seq<u8>,
    rest: Seq<u8>,
    f: spec_fn(T) -> Seq<u8>,
    g: spec_fn(Seq<u8>, int) -> Option<(T, int)>,
)
    requires
        forall|k2: int, p: Seq<u8>, r2: Seq<u8>|
            0 <= k2 < s.len() ==> #[trigger] g(p + f(s[k2]) + r2, p.len() as int) == Some(
                (s[k2], p.len() + f(s[k2]).len() as int),
            ),
    ensures
        spec_dec_list(pre + spec_enc_list(s, f) + rest, pre.len() as int, s.len() as int, g)
            == Some((s, pre.len() + spec_enc_list(s, f).len() as int)),
    decreases s.len(),
{
    broadcast use lemma_enc_u64_len;

    if s.len() == 0 {
        assert(spec_enc_list(s, f) =~= Seq::<u8>::empty());
        assert(Seq::<T>::empty() =~= s);
        assert(pre + spec_enc_list(s, f) + rest =~= pre + rest);
    } else {
        let tail = spec_enc_list(s.skip(1), f) + rest;
        let whole = pre + spec_enc_list(s, f) + rest;
        assert(whole =~= pre + f(s[0]) + tail);
        assert(g(pre + f(s[0]) + tail, pre.len() as int) == Some(
            (s[0], pre.len() + f(s[0]).len() as int),
        ));
        let p1 = pre + f(s[0]);
        assert(whole =~= p1 + spec_enc_list(s.skip(1), f) + rest);
        assert forall|k2: int, p: Seq<u8>, r2: Seq<u8>| 0 <= k2 < s.skip(1).len() implies
            #[trigger] g(p + f(s.skip(1)[k2]) + r2, p.len() as int) == Some(
            (s.skip(1)[k2], p.len() + f(s.skip(1)[k2]).len() as int),
        ) by {
            assert(s.skip(1)[k2] == s[k2 + 1]);
            assert(g(p + f(s[k2 + 1]) + r2, p.len() as int) == Some(
                (s[k2 + 1], p.len() + f(s[k2 + 1]).len() as int),
            ));
        }
        lemma_list_round_trip(s.skip(1), p1, rest, f, g);
        assert(seq![s[0]] + s.skip(1) =~= s);
    }
}

/// A counted list together with its count prefix reads back exactly.
pub proof fn lemma_vec_round_trip<T>(
    s: Seq<T>,
    pre: Seq<u8>,
    rest: Seq<u8>,
    f: spec_fn(T) -> Seq<u8>,
    g: spec_fn(Seq<u8>, int) -> Option<(T, int)>,
)
    requires
        s.len() <= u64::MAX,
        forall|k2: int, p: Seq<u8>, r2: Seq<u8>|
            0 <= k2 < s.len() ==> #[trigger] g(p + f(s[k2]) + r2, p.len() as int) == Some(
                (s[k2], p.len() + f(s[k2]).len() as int),
            ),
    ensures
        spec_dec_vec(pre + spec_enc_vec(s, f) + rest, pre.len() as int, g) == Some(
            (s, pre.len() + spec_enc_vec(s, f).len() as int),
        ),
{
    broadcast use lemma_enc_u64_len;

    let whole = pre + spec_enc_vec(s, f) + rest;
    assert(whole =~= pre + spec_enc_u64(s.len() as u64) + (spec_enc_list(s, f) + rest));
    lemma_u64_round_trip(s.len() as u64, pre, spec_enc_list(s, f) + rest);
    let p1 = pre + spec_enc_u64(s.len() as u64);
    assert(whole =~= p1 + spec_enc_list(s, f) + rest);
    lemma_list_round_trip(s, p1, rest, f, g);
}

// --- log entries and entry lists ---

#[verifier::opaque]
pub open spec fn spec_enc_acct_pair(x: (Address, Access<Account>)) -> Seq<u8> {
    spec_enc_addr(x.0) + spec_enc_access_account(x.1)
}

#[verifier::opaque]
pub open spec fn spec_dec_acct_pair(s: Seq<u8>, i: int) -> Option<((Address, Access<Account>), int)> {
    match spec_dec_addr(s, i) {
        Some((a, j)) => match spec_dec_access_account(s, j) {
            Some((ac, k)) => Some(((a, ac), k)),
            None => None,
        },
        None => None,
    }
}

fn enc_acct_pair(out: &mut Vec<u8>, x: &(Address, Access<Account>))
    ensures
        final(out)@ == old(out)@ + spec_enc_acct_pair(*x),
{
    proof {
        reveal(spec_enc_acct_pair);
    }
    enc_addr(out, &x.0);
    enc_access_account(out, &x.1);
    proof {
        assert(out@ =~= old(out)@ + spec_enc_acct_pair(*x));
    }
}

fn dec_acct_pair(buf: &Vec<u8>, pos: usize) -> (r: Option<((Address, Access<Account>), usize)>)
    requires
        pos <= buf@.len(),
    ensures
        r is Some <==> spec_dec_acct_pair(buf@, pos as int) is Some,
        r is Some ==> Some(((r->Some_0).0, (r->Some_0).1 as int)) == spec_dec_acct_pair(
            buf@,
            pos as int,
        ) && (r->Some_0).1 <= buf@.len(),
{
    proof {
        reveal(spec_dec_acct_pair);
    }
    let (a, j) = match dec_addr(buf, pos) {
        Some(p) => p,
        None => {
            return None;
        },
    };
    match dec_access_account(buf, j) {
        Some((ac, k)) => Some(((a, ac), k)),
        None => None,
    }
}

proof fn lemma_acct_pair_round_trip(x: (Address, Access<Account>), pre: Seq<u8>, rest: Seq<u8>)
    ensures
        spec_dec_acct_pair(pre + spec_enc_acct_pair(x) + rest, pre.len() as int) == Some(
            (x, pre.len() + spec_enc_acct_pair(x).len() as int),
        ),
{
    reveal(spec_enc_acct_pair);
    reveal(spec_dec_acct_pair);
    broadcast use lemma_enc_u64_len;

    let whole = pre + spec_enc_acct_pair(x) + rest;
    assert(whole =~= pre + spec_enc_addr(x.0) + (spec_enc_access_account(x.1) + rest));
    lemma_addr_round_trip(x.0, pre, spec_enc_access_account(x.1) + rest);
    let p1 = pre + spec_enc_addr(x.0);
    assert(whole =~= p1 + spec_enc_access_account(x.1) + rest);
    lemma_access_account_round_trip(x.1, p1, rest);
}

#[verifier::opaque]
pub open spec fn spec_enc_stor_pair(x: (EvmStorageAddress, Access<Word256>)) -> Seq<u8> {
    spec_enc_storage_addr(x.0) + spec_enc_access_word(x.1)
}

#[verifier::opaque]
pub open spec fn spec_dec_stor_pair(s: Seq<u8>, i: int) -> Option<((EvmStorageAddress, Access<Word256>), int)> {
    match spec_dec_storage_addr(s, i) {
        Some((a, j)) => match spec_dec_access_word(s, j) {
            Some((ac, k)) => Some(((a, ac), k)),
            None => None,
        },
        None => None,
    }
}

fn enc_stor_pair(out: &mut Vec<u8>, x: &(EvmStorageAddress, Access<Word256>))
    ensures
        final(out)@ == old(out)@ + spec_enc_stor_pair(*x),
{
    proof {
        reveal(spec_enc_stor_pair);
    }
    enc_storage_addr(out, &x.0);
    enc_access_word(out, &x.1);
    proof {
        assert(out@ =~= old(out)@ + spec_enc_stor_pair(*x));
    }
}

fn dec_stor_pair(buf: &Vec<u8>, pos: usize) -> (r: Option<((EvmStorageAddress, Access<Word256>), usize)>)
    requires
        pos <= buf@.len(),
    ensures
        r is Some <==> spec_dec_stor_pair(buf@, pos as int) is Some,
        r is Some ==> Some(((r->Some_0).0, (r->Some_0).1 as int)) == spec_dec_stor_pair(
            buf@,
            pos as int,
        ) && (r->Some_0).1 <= buf@.len(),
{
    proof {
        reveal(spec_dec_stor_pair);
    }
    let (a, j) = match dec_storage_addr(buf, pos) {
        Some(p) => p,
        None => {
            return None;
        },
    };
    match dec_access_word(buf, j) {
        Some((ac, k)) => Some(((a, ac), k)),
        None => None,
    }
}

proof fn lemma_stor_pair_round_trip(x: (EvmStorageAddress, Access<Word256>), pre: Seq<u8>, rest: Seq<u8>)
    ensures
        spec_dec_stor_pair(pre + spec_enc_stor_pair(x) + rest, pre.len() as int) == Some(
            (x, pre.len() + spec_enc_stor_pair(x).len() as int),
        ),
{
    reveal(spec_enc_stor_pair);
    reveal(spec_dec_stor_pair);
    broadcast use lemma_enc_u64_len;

    let whole = pre + spec_enc_stor_pair(x) + rest;
    assert(whole =~= pre + spec_enc_storage_addr(x.0) + (spec_enc_access_word(x.1) + rest));
    lemma_storage_addr_round_trip(x.0, pre, spec_enc_access_word(x.1) + rest);
    let p1 = pre + spec_enc_storage_addr(x.0);
    assert(whole =~= p1 + spec_enc_access_word(x.1) + rest);
    lemma_access_word_round_trip(x.1, p1, rest);
}

#[verifier::opaque]
pub open spec fn spec_enc_bh_pair(x: (u64, Option<Hash256>)) -> Seq<u8> {
    spec_enc_u64(x.0) + spec_enc_opt_hash(x.1)
}

#[verifier::opaque]
pub open spec fn spec_dec_bh_pair(s: Seq<u8>, i: int) -> Option<((u64, Option<Hash256>), int)> {
    match spec_dec_u64(s, i) {
        Some((n, j)) => match spec_dec_opt_hash(s, j) {
            Some((h, k)) => Some(((n, h), k)),
            None => None,
        },
        None => None,
    }
}

fn enc_bh_pair(out: &mut Vec<u8>, x: &(u64, Option<Hash256>))
    ensures
        final(out)@ == old(out)@ + spec_enc_bh_pair(*x),
{
    proof {
        reveal(spec_enc_bh_pair);
    }
    enc_u64(out, x.0);
    enc_opt_hash(out, &x.1);
    proof {
        assert(out@ =~= old(out)@ + spec_enc_bh_pair(*x));
    }
}

fn dec_bh_pair(buf: &Vec<u8>, pos: usize) -> (r: Option<((u64, Option<Hash256>), usize)>)
    requires
        pos <= buf@.len(),
    ensures
        r is Some <==> spec_dec_bh_pair(buf@, pos as int) is Some,
        r is Some ==> Some(((r->Some_0).0, (r->Some_0).1 as int)) == spec_dec_bh_pair(
            buf@,
            pos as int,
        ) && (r->Some_0).1 <= buf@.len(),
{
    proof {
        reveal(spec_dec_bh_pair);
    }
    let (n, j) = match dec_u64(buf, pos) {
        Some(p) => p,
        None => {
            return None;
        },
    };
    match dec_opt_hash(buf, j) {
        Some((h, k)) => Some(((n, h), k)),
        None => None,
    }
}

proof fn lemma_bh_pair_round_trip(x: (u64, Option<Hash256>), pre: Seq<u8>, rest: Seq<u8>)
    ensures
        spec_dec_bh_pair(pre + spec_enc_bh_pair(x) + rest, pre.len() as int) == Some(
            (x, pre.len() + spec_enc_bh_pair(x).len() as int),
        ),
{
    reveal(spec_enc_bh_pair);
    reveal(spec_dec_bh_pair);
    broadcast use lemma_enc_u64_len;

    let whole = pre + spec_enc_bh_pair(x) + rest;
    assert(whole =~= pre + spec_enc_u64(x.0) + (spec_enc_opt_hash(x.1) + rest));
    lemma_u64_round_trip(x.0, pre, spec_enc_opt_hash(x.1) + rest);
    let p1 = pre + spec_enc_u64(x.0);
    assert(whole =~= p1 + spec_enc_opt_hash(x.1) + rest);
    lemma_opt_hash_round_trip(x.1, p1, rest);
}


#[verifier::loop_isolation(false)]
fn enc_acct_pair_list(out: &mut Vec<u8>, v: &Vec<(Address, Access<Account>)>)
    ensures
        final(out)@ == old(out)@ + spec_enc_vec(v@, |x: (Address, Access<Account>)| spec_enc_acct_pair(x)),
{
    let ghost f = |x: (Address, Access<Account>)| spec_enc_acct_pair(x);
    enc_u64(out, v.len() as u64);
    let ghost mid = out@;
    proof {
        assert(spec_enc_list(v@.take(0), f) =~= Seq::<u8>::empty());
        assert(mid + spec_enc_list(v@.take(0), f) =~= mid);
    }
    let mut i: usize = 0;
    while i < v.len()
        invariant
            i <= v@.len(),
            out@ == mid + spec_enc_list(v@.take(i as int), f),
        decreases v@.len() - i,
    {
        enc_acct_pair(out, &v[i]);
        proof {
            lemma_enc_list_push(v@.take(i as int), v@[i as int], f);
            assert(v@.take(i as int + 1) =~= v@.take(i as int).push(v@[i as int]));
            assert(mid + spec_enc_list(v@.take(i as int), f) + f(v@[i as int]) =~= mid
                + spec_enc_list(v@.take(i as int + 1), f));
        }
        i = i + 1;
    }
    proof {
        assert(v@.take(v@.len() as int) =~= v@);
        assert(mid + spec_enc_list(v@, f) =~= old(out)@ + spec_enc_vec(v@, f));
    }
}

#[verifier::loop_isolation(false)]
fn dec_acct_pair_list(buf: &Vec<u8>, pos: usize) -> (r: Option<(Vec<(Address, Access<Account>)>, usize)>)
    requires
        pos <= buf@.len(),
    ensures
        r is Some <==> spec_dec_vec(buf@, pos as int, |ss: Seq<u8>, ii: int| spec_dec_acct_pair(ss, ii))
            is Some,
        r is Some ==> Some(((r->Some_0).0@, (r->Some_0).1 as int)) == spec_dec_vec(
            buf@,
            pos as int,
            |ss: Seq<u8>, ii: int| spec_dec_acct_pair(ss, ii),
        ) && (r->Some_0).1 <= buf@.len(),
{
    let ghost g = |ss: Seq<u8>, ii: int| spec_dec_acct_pair(ss, ii);
    let (n, j0) = match dec_u64(buf, pos) {
        Some(p) => p,
        None => {
            return None;
        },
    };
    let mut out: Vec<(Address, Access<Account>)> = Vec::new();
    let mut t: u64 = 0;
    let mut cur: usize = j0;
    proof {
        assert(out@ =~= Seq::<(Address, Access<Account>)>::empty());
    }
    while t < n
        invariant
            t <= n,
            cur <= buf@.len(),
            (match spec_dec_list(buf@, j0 as int, n as int, g) {
                Some((xs, k)) => (match spec_dec_list(buf@, cur as int, n as int - t as int, g) {
                    Some((xs2, k2)) => xs == out@ + xs2 && k == k2,
                    None => false,
                }),
                None => (spec_dec_list(buf@, cur as int, n as int - t as int, g) is None),
            }),
        decreases n - t,
    {
        let (x, nx) = match dec_acct_pair(buf, cur) {
            Some(p) => p,
            None => {
                return None;
            },
        };
        out.push(x);
        proof {
            let rest = spec_dec_list(buf@, nx as int, n as int - t as int - 1, g);
            if rest is Some {
                assert(out@ + rest->Some_0.0 =~= out@.drop_last() + (seq![x] + rest->Some_0.0));
            }
        }
        cur = nx;
        t = t + 1;
    }
    proof {
        assert(spec_dec_list(buf@, cur as int, 0, g) == Some(
            (Seq::<(Address, Access<Account>)>::empty(), cur as int),
        ));
        assert(out@ + Seq::<(Address, Access<Account>)>::empty() =~= out@);
    }
    Some((out, cur))
}

#[verifier::loop_isolation(false)]
fn enc_stor_pair_list(out: &mut Vec<u8>, v: &Vec<(EvmStorageAddress, Access<Word256>)>)
    ensures
        final(out)@ == old(out)@ + spec_enc_vec(v@, |x: (EvmStorageAddress, Access<Word256>)| spec_enc_stor_pair(x)),
{
    let ghost f = |x: (EvmStorageAddress, Access<Word256>)| spec_enc_stor_pair(x);
    enc_u64(out, v.len() as u64);
    let ghost mid = out@;
    proof {
        assert(spec_enc_list(v@.take(0), f) =~= Seq::<u8>::empty());
        assert(mid + spec_enc_list(v@.take(0), f) =~= mid);
    }
    let mut i: usize = 0;
    while i < v.len()
        invariant
            i <= v@.len(),
            out@ == mid + spec_enc_list(v@.take(i as int), f),
        decreases v@.len() - i,
    {
        enc_stor_pair(out, &v[i]);
        proof {
            lemma_enc_list_push(v@.take(i as int), v@[i as int], f);
            assert(v@.take(i as int + 1) =~= v@.take(i as int).push(v@[i as int]));
            assert(mid + spec_enc_list(v@.take(i as int), f) + f(v@[i as int]) =~= mid
                + spec_enc_list(v@.take(i as int + 1), f));
        }
        i = i + 1;
    }
    proof {
        assert(v@.take(v@.len() as int) =~= v@);
        assert(mid + spec_enc_list(v@, f) =~= old(out)@ + spec_enc_vec(v@, f));
    }
}

#[verifier::loop_isolation(false)]
fn dec_stor_pair_list(buf: &Vec<u8>, pos: usize) -> (r: Option<(Vec<(EvmStorageAddress, Access<Word256>)>, usize)>)
    requires
        pos <= buf@.len(),
    ensures
        r is Some <==> spec_dec_vec(buf@, pos as int, |ss: Seq<u8>, ii: int| spec_dec_stor_pair(ss, ii))
            is Some,
        r is Some ==> Some(((r->Some_0).0@, (r->Some_0).1 as int)) == spec_dec_vec(
            buf@,
            pos as int,
            |ss: Seq<u8>, ii: int| spec_dec_stor_pair(ss, ii),
        ) && (r->Some_0).1 <= buf@.len(),
{
    let ghost g = |ss: Seq<u8>, ii: int| spec_dec_stor_pair(ss, ii);
    let (n, j0) = match dec_u64(buf, pos) {
        Some(p) => p,
        None => {
            return None;
        },
    };
    let mut out: Vec<(EvmStorageAddress, Access<Word256>)> = Vec::new();
    let mut t: u64 = 0;
    let mut cur: usize = j0;
    proof {
        assert(out@ =~= Seq::<(EvmStorageAddress, Access<Word256>)>::empty());
    }
    while t < n
        invariant
            t <= n,
            cur <= buf@.len(),
            (match spec_dec_list(buf@, j0 as int, n as int, g) {
                Some((xs, k)) => (match spec_dec_list(buf@, cur as int, n as int - t as int, g) {
                    Some((xs2, k2)) => xs == out@ + xs2 && k == k2,
                    None => false,
                }),
                None => (spec_dec_list(buf@, cur as int, n as int - t as int, g) is None),
            }),
        decreases n - t,
    {
        let (x, nx) = match dec_stor_pair(buf, cur) {
            Some(p) => p,
            None => {
                return None;
            },
        };
        out.push(x);
        proof {
            let rest = spec_dec_list(buf@, nx as int, n as int - t as int - 1, g);
            if rest is Some {
                assert(out@ + rest->Some_0.0 =~= out@.drop_last() + (seq![x] + rest->Some_0.0));
            }
        }
        cur = nx;
        t = t + 1;
    }
    proof {
        assert(spec_dec_list(buf@, cur as int, 0, g) == Some(
            (Seq::<(EvmStorageAddress, Access<Word256>)>::empty(), cur as int),
        ));
        assert(out@ + Seq::<(EvmStorageAddress, Access<Word256>)>::empty() =~= out@);
    }
    Some((out, cur))
}

#[verifier::loop_isolation(false)]
fn enc_bh_pair_list(out: &mut Vec<u8>, v: &Vec<(u64, Option<Hash256>)>)
    ensures
        final(out)@ == old(out)@ + spec_enc_vec(v@, |x: (u64, Option<Hash256>)| spec_enc_bh_pair(x)),
{
    let ghost f = |x: (u64, Option<Hash256>)| spec_enc_bh_pair(x);
    enc_u64(out, v.len() as u64);
    let ghost mid = out@;
    proof {
        assert(spec_enc_list(v@.take(0), f) =~= Seq::<u8>::empty());
        assert(mid + spec_enc_list(v@.take(0), f) =~= mid);
    }
    let mut i: usize = 0;
    while i < v.len()
        invariant
            i <= v@.len(),
            out@ == mid + spec_enc_list(v@.take(i as int), f),
        decreases v@.len() - i,
    {
        enc_bh_pair(out, &v[i]);
        proof {
            lemma_enc_list_push(v@.take(i as int), v@[i as int], f);
            assert(v@.take(i as int + 1) =~= v@.take(i as int).push(v@[i as int]));
            assert(mid + spec_enc_list(v@.take(i as int), f) + f(v@[i as int]) =~= mid
                + spec_enc_list(v@.take(i as int + 1), f));
        }
        i = i + 1;
    }
    proof {
        assert(v@.take(v@.len() as int) =~= v@);
        assert(mid + spec_enc_list(v@, f) =~= old(out)@ + spec_enc_vec(v@, f));
    }
}

#[verifier::loop_isolation(false)]
fn dec_bh_pair_list(buf: &Vec<u8>, pos: usize) -> (r: Option<(Vec<(u64, Option<Hash256>)>, usize)>)
    requires
        pos <= buf@.len(),
    ensures
        r is Some <==> spec_dec_vec(buf@, pos as int, |ss: Seq<u8>, ii: int| spec_dec_bh_pair(ss, ii))
            is Some,
        r is Some ==> Some(((r->Some_0).0@, (r->Some_0).1 as int)) == spec_dec_vec(
            buf@,
            pos as int,
            |ss: Seq<u8>, ii: int| spec_dec_bh_pair(ss, ii),
        ) && (r->Some_0).1 <= buf@.len(),
{
    let ghost g = |ss: Seq<u8>, ii: int| spec_dec_bh_pair(ss, ii);
    let (n, j0) = match dec_u64(buf, pos) {
        Some(p) => p,
        None => {
            return None;
        },
    };
    let mut out: Vec<(u64, Option<Hash256>)> = Vec::new();
    let mut t: u64 = 0;
    let mut cur: usize = j0;
    proof {
        assert(out@ =~= Seq::<(u64, Option<Hash256>)>::empty());
    }
    while t < n
        invariant
            t <= n,
            cur <= buf@.len(),
            (match spec_dec_list(buf@, j0 as int, n as int, g) {
                Some((xs, k)) => (match spec_dec_list(buf@, cur as int, n as int - t as int, g) {
                    Some((xs2, k2)) => xs == out@ + xs2 && k == k2,
                    None => false,
                }),
                None => (spec_dec_list(buf@, cur as int, n as int - t as int, g) is None),
            }),
        decreases n - t,
    {
        let (x, nx) = match dec_bh_pair(buf, cur) {
            Some(p) => p,
            None => {
                return None;
            },
        };
        out.push(x);
        proof {
            let rest = spec_dec_list(buf@, nx as int, n as int - t as int - 1, g);
            if rest is Some {
                assert(out@ + rest->Some_0.0 =~= out@.drop_last() + (seq![x] + rest->Some_0.0));
            }
        }
        cur = nx;
        t = t + 1;
    }
    proof {
        assert(spec_dec_list(buf@, cur as int, 0, g) == Some(
            (Seq::<(u64, Option<Hash256>)>::empty(), cur as int),
        ));
        assert(out@ + Seq::<(u64, Option<Hash256>)>::empty() =~= out@);
    }
    Some((out, cur))
}


// --- the state log ---

#[verifier::opaque]
pub open spec fn spec_enc_state_log(l: EvmStateLog) -> Seq<u8> {
    seq![CODEC_VERSION] + spec_enc_vec(
        l.accounts_view(),
        |x: (Address, Access<Account>)| spec_enc_acct_pair(x),
    ) + spec_enc_vec(l.storage_view(), |x: (EvmStorageAddress, Access<Word256>)| spec_enc_stor_pair(x))
        + spec_enc_vec(l.blockhashes_view(), |x: (u64, Option<Hash256>)| spec_enc_bh_pair(x))
}

/// The decoded canonical parts of a state log: account entries, storage
/// entries and block-hash entries, each required to be strictly sorted.
#[verifier::opaque]
pub open spec fn spec_dec_log_parts(s: Seq<u8>, i: int) -> Option<
    (
        (
            Seq<(Address, Access<Account>)>,
            Seq<(EvmStorageAddress, Access<Word256>)>,
            Seq<(u64, Option<Hash256>)>,
        ),
        int,
    ),
> {
    match spec_dec_u8(s, i) {
        Some((ver, j0)) => if ver == CODEC_VERSION {
            match spec_dec_vec(s, j0, |ss: Seq<u8>, ii: int| spec_dec_acct_pair(ss, ii)) {
                Some((accts, j1)) => match spec_dec_vec(
                    s,
                    j1,
                    |ss: Seq<u8>, ii: int| spec_dec_stor_pair(ss, ii),
                ) {
                    Some((stor, j2)) => match spec_dec_vec(
                        s,
                        j2,
                        |ss: Seq<u8>, ii: int| spec_dec_bh_pair(ss, ii),
                    ) {
                        Some((bh, j3)) => if entries_sorted(accts) && entries_sorted(stor)
                            && entries_sorted(bh) {
                            Some(((accts, stor, bh), j3))
                        } else {
                            None
                        },
                        None => None,
                    },
                    None => None,
                },
                None => None,
            }
        } else {
            None
        },
        None => None,
    }
}

/// Serialize a state log into the canonical schema.
pub fn encode_state_log(l: &EvmStateLog) -> (r: Vec<u8>)
    ensures
        r@ == spec_enc_state_log(*l),
{
    proof {
        reveal(spec_enc_state_log);
    }
    let mut out: Vec<u8> = Vec::new();
    out.push(CODEC_VERSION);
    enc_acct_pair_list(&mut out, l.accounts_entries());
    enc_stor_pair_list(&mut out, l.storage_entries());
    enc_bh_pair_list(&mut out, l.blockhash_entries());
    proof {
        assert(out@ =~= spec_enc_state_log(*l));
    }
    out
}

/// Deserialize a state log, rejecting non-canonical (unsorted) input.
pub fn decode_state_log(buf: &Vec<u8>, pos: usize) -> (r: Option<(EvmStateLog, usize)>)
    requires
        pos <= buf@.len(),
    ensures
        r is Some <==> spec_dec_log_parts(buf@, pos as int) is Some,
        r is Some ==> {
            &&& (r->Some_0).0.wf()
            &&& spec_dec_log_parts(buf@, pos as int) == Some(
                (
                    (
                        (r->Some_0).0.accounts_view(),
                        (r->Some_0).0.storage_view(),
                        (r->Some_0).0.blockhashes_view(),
                    ),
                    (r->Some_0).1 as int,
                ),
            )
            &&& (r->Some_0).1 <= buf@.len()
        },
{
    proof {
        reveal(spec_dec_log_parts);
    }
    let (ver, j0) = match dec_u8(buf, pos) {
        Some(p) => p,
        None => {
            return None;
        },
    };
    if ver != CODEC_VERSION {
        return None;
    }
    let (accts, j1) = match dec_acct_pair_list(buf, j0) {
        Some(p) => p,
        None => {
            return None;
        },
    };
    let (stor, j2) = match dec_stor_pair_list(buf, j1) {
        Some(p) => p,
        None => {
            return None;
        },
    };
    let (bh, j3) = match dec_bh_pair_list(buf, j2) {
        Some(p) => p,
        None => {
            return None;
        },
    };
    if !check_sorted(&accts) || !check_sorted(&stor) || !check_sorted(&bh) {
        return None;
    }
    Some((EvmStateLog::from_parts(accts, stor, bh), j3))
}

/// A canonical state log reads back with exactly its canonical parts.
#[verifier::rlimit(100)]
#[verifier::spinoff_prover]
pub proof fn lemma_state_log_round_trip(l: EvmStateLog, pre: Seq<u8>, rest: Seq<u8>)
    requires
        l.wf(),
        l.accounts_view().len() <= u64::MAX,
        l.storage_view().len() <= u64::MAX,
        l.blockhashes_view().len() <= u64::MAX,
    ensures
        spec_dec_log_parts(pre + spec_enc_state_log(l) + rest, pre.len() as int) == Some(
            (
                (l.accounts_view(), l.storage_view(), l.blockhashes_view()),
                pre.len() + spec_enc_state_log(l).len() as int,
            ),
        ),
{
    reveal(spec_enc_state_log);
    reveal(spec_dec_log_parts);
    broadcast use lemma_enc_u64_len;

    let fa = |x: (Address, Access<Account>)| spec_enc_acct_pair(x);
    let fs = |x: (EvmStorageAddress, Access<Word256>)| spec_enc_stor_pair(x);
    let fb = |x: (u64, Option<Hash256>)| spec_enc_bh_pair(x);
    let ga = |ss: Seq<u8>, ii: int| spec_dec_acct_pair(ss, ii);
    let gs = |ss: Seq<u8>, ii: int| spec_dec_stor_pair(ss, ii);
    let gb = |ss: Seq<u8>, ii: int| spec_dec_bh_pair(ss, ii);
    let ea = spec_enc_vec(l.accounts_view(), fa);
    let es = spec_enc_vec(l.storage_view(), fs);
    let eb = spec_enc_vec(l.blockhashes_view(), fb);
    let whole = pre + spec_enc_state_log(l) + rest;
    assert(whole[pre.len() as int] == CODEC_VERSION);
    let p1 = pre + seq![CODEC_VERSION];
    assert forall|k2: int, p: Seq<u8>, r2: Seq<u8>| 0 <= k2 < l.accounts_view().len() implies
        #[trigger] ga(p + fa(l.accounts_view()[k2]) + r2, p.len() as int) == Some(
        (l.accounts_view()[k2], p.len() + fa(l.accounts_view()[k2]).len() as int),
    ) by {
        lemma_acct_pair_round_trip(l.accounts_view()[k2], p, r2);
    }
    assert forall|k2: int, p: Seq<u8>, r2: Seq<u8>| 0 <= k2 < l.storage_view().len() implies
        #[trigger] gs(p + fs(l.storage_view()[k2]) + r2, p.len() as int) == Some(
        (l.storage_view()[k2], p.len() + fs(l.storage_view()[k2]).len() as int),
    ) by {
        lemma_stor_pair_round_trip(l.storage_view()[k2], p, r2);
    }
    assert forall|k2: int, p: Seq<u8>, r2: Seq<u8>| 0 <= k2 < l.blockhashes_view().len() implies
        #[trigger] gb(p + fb(l.blockhashes_view()[k2]) + r2, p.len() as int) == Some(
        (l.blockhashes_view()[k2], p.len() + fb(l.blockhashes_view()[k2]).len() as int),
    ) by {
        lemma_bh_pair_round_trip(l.blockhashes_view()[k2], p, r2);
    }
    assert(whole =~= p1 + ea + (es + eb + rest));
    lemma_vec_round_trip(l.accounts_view(), p1, es + eb + rest, fa, ga);
    let p2 = p1 + ea;
    assert(whole =~= p2 + es + (eb + rest));
    lemma_vec_round_trip(l.storage_view(), p2, eb + rest, fs, gs);
    let p3 = p2 + es;
    assert(whole =~= p3 + eb + rest);
    lemma_vec_round_trip(l.blockhashes_view(), p3, rest, fb, gb);
}

// --- single state entries ---

#[verifier::opaque]
pub open spec fn spec_enc_state_entry(e: EvmStateEntry) -> Seq<u8> {
    match e {
        EvmStateEntry::Accounts(a, v) => seq![CODEC_VERSION, 0u8] + spec_enc_addr(a)
            + spec_enc_opt_account(v),
        EvmStateEntry::Storage(k, v) => seq![CODEC_VERSION, 1u8] + spec_enc_storage_addr(k)
            + spec_enc_opt_word(v),
        EvmStateEntry::Blockhash(n, h) => seq![CODEC_VERSION, 2u8] + spec_enc_u64(n)
            + spec_enc_opt_hash(h),
    }
}

#[verifier::opaque]
pub open spec fn spec_dec_state_entry(s: Seq<u8>, i: int) -> Option<(EvmStateEntry, int)> {
    match spec_dec_u8(s, i) {
        Some((ver, j0)) => if ver == CODEC_VERSION {
            match spec_dec_u8(s, j0) {
                Some((tag, j)) => if tag == 0 {
                    match spec_dec_addr(s, j) {
                        Some((a, k)) => match spec_dec_opt_account(s, k) {
                            Some((v, k2)) => Some((EvmStateEntry::Accounts(a, v), k2)),
                            None => None,
                        },
                        None => None,
                    }
                } else if tag == 1 {
                    match spec_dec_storage_addr(s, j) {
                        Some((sk, k)) => match spec_dec_opt_word(s, k) {
                            Some((v, k2)) => Some((EvmStateEntry::Storage(sk, v), k2)),
                            None => None,
                        },
                        None => None,
                    }
                } else if tag == 2 {
                    match spec_dec_u64(s, j) {
                        Some((n, k)) => match spec_dec_opt_hash(s, k) {
                            Some((h, k2)) => Some((EvmStateEntry::Blockhash(n, h), k2)),
                            None => None,
                        },
                        None => None,
                    }
                } else {
                    None
                },
                None => None,
            }
        } else {
            None
        },
        None => None,
    }
}

/// Serialize one state entry into the canonical schema.
pub fn encode_state_entry(e: &EvmStateEntry) -> (r: Vec<u8>)
    ensures
        r@ == spec_enc_state_entry(*e),
{
    proof {
        reveal(spec_enc_state_entry);
    }
    let mut out: Vec<u8> = Vec::new();
    out.push(CODEC_VERSION);
    match e {
        EvmStateEntry::Accounts(a, v) => {
            out.push(0u8);
            enc_addr(&mut out, a);
            enc_opt_account(&mut out, v);
        },
        EvmStateEntry::Storage(k, v) => {
            out.push(1u8);
            enc_storage_addr(&mut out, k);
            enc_opt_word(&mut out, v);
        },
        EvmStateEntry::Blockhash(n, h) => {
            out.push(2u8);
            enc_u64(&mut out, *n);
            enc_opt_hash(&mut out, h);
        },
    }
    proof {
        assert(out@ =~= spec_enc_state_entry(*e));
    }
    out
}

/// Deserialize one state entry.
pub fn decode_state_entry(buf: &Vec<u8>, pos: usize) -> (r: Option<(EvmStateEntry, usize)>)
    requires
        pos <= buf@.len(),
    ensures
        r is Some <==> spec_dec_state_entry(buf@, pos as int) is Some,
        r is Some ==> Some(((r->Some_0).0, (r->Some_0).1 as int)) == spec_dec_state_entry(
            buf@,
            pos as int,
        ) && (r->Some_0).1 <= buf@.len(),
{
    proof {
        reveal(spec_dec_state_entry);
    }
    let (ver, j0) = match dec_u8(buf, pos) {
        Some(p) => p,
        None => {
            return None;
        },
    };
    if ver != CODEC_VERSION {
        return None;
    }
    let (tag, j) = match dec_u8(buf, j0) {
        Some(p) => p,
        None => {
            return None;
        },
    };
    if tag == 0 {
        let (a, k) = match dec_addr(buf, j) {
            Some(p) => p,
            None => {
                return None;
            },
        };
        match dec_opt_account(buf, k) {
            Some((v, k2)) => Some((EvmStateEntry::Accounts(a, v), k2)),
            None => None,
        }
    } else if tag == 1 {
        let (sk, k) = match dec_storage_addr(buf, j) {
            Some(p) => p,
            None => {
                return None;
            },
        };
        match dec_opt_word(buf, k) {
            Some((v, k2)) => Some((EvmStateEntry::Storage(sk, v), k2)),
            None => None,
        }
    } else if tag == 2 {
        let (n, k) = match dec_u64(buf, j) {
            Some(p) => p,
            None => {
                return None;
            },
        };
        match dec_opt_hash(buf, k) {
            Some((h, k2)) => Some((EvmStateEntry::Blockhash(n, h), k2)),
            None => None,
        }
    } else {
        None
    }
}

/// A state entry reads back exactly.
#[verifier::rlimit(100)]
#[verifier::spinoff_prover]
pub proof fn lemma_state_entry_round_trip(e: EvmStateEntry, pre: Seq<u8>, rest: Seq<u8>)
    ensures
        spec_dec_state_entry(pre + spec_enc_state_entry(e) + rest, pre.len() as int) == Some(
            (e, pre.len() + spec_enc_state_entry(e).len() as int),
        ),
{
    reveal(spec_enc_state_entry);
    reveal(spec_dec_state_entry);
    broadcast use lemma_enc_u64_len;

    let whole = pre + spec_enc_state_entry(e) + rest;
    assert(whole[pre.len() as int] == CODEC_VERSION);
    match e {
        EvmStateEntry::Accounts(a, v) => {
            assert(whole[pre.len() as int + 1] == 0u8);
            let p1 = pre + seq![CODEC_VERSION, 0u8];
            assert(whole =~= p1 + spec_enc_addr(a) + (spec_enc_opt_account(v) + rest));
            lemma_addr_round_trip(a, p1, spec_enc_opt_account(v) + rest);
            let p2 = p1 + spec_enc_addr(a);
            assert(whole =~= p2 + spec_enc_opt_account(v) + rest);
            lemma_opt_account_round_trip(v, p2, rest);
        },
        EvmStateEntry::Storage(k, v) => {
            assert(whole[pre.len() as int + 1] == 1u8);
            let p1 = pre + seq![CODEC_VERSION, 1u8];
            assert(whole =~= p1 + spec_enc_storage_addr(k) + (spec_enc_opt_word(v) + rest));
            lemma_storage_addr_round_trip(k, p1, spec_enc_opt_word(v) + rest);
            let p2 = p1 + spec_enc_storage_addr(k);
            assert(whole =~= p2 + spec_enc_opt_word(v) + rest);
            lemma_opt_word_round_trip(v, p2, rest);
        },
        EvmStateEntry::Blockhash(n, h) => {
            assert(whole[pre.len() as int + 1] == 2u8);
            let p1 = pre + seq![CODEC_VERSION, 2u8];
            assert(whole =~= p1 + spec_enc_u64(n) + (spec_enc_opt_hash(h) + rest));
            lemma_u64_round_trip(n, p1, spec_enc_opt_hash(h) + rest);
            let p2 = p1 + spec_enc_u64(n);
            assert(whole =~= p2 + spec_enc_opt_hash(h) + rest);
            lemma_opt_hash_round_trip(h, p2, rest);
        },
    }
}


// --- optional 64-bit words ---

#[verifier::opaque]
pub open spec fn spec_enc_opt_u64(v: Option<u64>) -> Seq<u8> {
    match v {
        None => seq![0u8],
        Some(n) => seq![1u8] + spec_enc_u64(n),
    }
}

#[verifier::opaque]
pub open spec fn spec_dec_opt_u64(s: Seq<u8>, i: int) -> Option<(Option<u64>, int)> {
    match spec_dec_u8(s, i) {
        Some((tag, j)) => if tag == 0 {
            Some((None, j))
        } else if tag == 1 {
            match spec_dec_u64(s, j) {
                Some((n, k)) => Some((Some(n), k)),
                None => None,
            }
        } else {
            None
        },
        None => None,
    }
}

fn enc_opt_u64(out: &mut Vec<u8>, v: &Option<u64>)
    ensures
        final(out)@ == old(out)@ + spec_enc_opt_u64(*v),
{
    proof {
        reveal(spec_enc_opt_u64);
    }
    match v {
        None => {
            out.push(0u8);
            proof {
                assert(out@ =~= old(out)@ + spec_enc_opt_u64(*v));
            }
        },
        Some(n) => {
            out.push(1u8);
            enc_u64(out, *n);
            proof {
                assert(out@ =~= old(out)@ + spec_enc_opt_u64(*v));
            }
        },
    }
}

fn dec_opt_u64(buf: &Vec<u8>, pos: usize) -> (r: Option<(Option<u64>, usize)>)
    requires
        pos <= buf@.len(),
    ensures
        r is Some <==> spec_dec_opt_u64(buf@, pos as int) is Some,
        r is Some ==> Some(((r->Some_0).0, (r->Some_0).1 as int)) == spec_dec_opt_u64(
            buf@,
            pos as int,
        ) && (r->Some_0).1 <= buf@.len(),
{
    proof {
        reveal(spec_dec_opt_u64);
    }
    let (tag, j) = match dec_u8(buf, pos) {
        Some(p) => p,
        None => {
            return None;
        },
    };
    if tag == 0 {
        Some((None, j))
    } else if tag == 1 {
        match dec_u64(buf, j) {
            Some((n, k)) => Some((Some(n), k)),
            None => None,
        }
    } else {
        None
    }
}

proof fn lemma_opt_u64_round_trip(v: Option<u64>, pre: Seq<u8>, rest: Seq<u8>)
    ensures
        spec_dec_opt_u64(pre + spec_enc_opt_u64(v) + rest, pre.len() as int) == Some(
            (v, pre.len() + spec_enc_opt_u64(v).len() as int),
        ),
{
    reveal(spec_enc_opt_u64);
    reveal(spec_dec_opt_u64);
    broadcast use lemma_enc_u64_len;

    let whole = pre + spec_enc_opt_u64(v) + rest;
    match v {
        None => {
            assert(whole[pre.len() as int] == 0u8);
        },
        Some(n) => {
            assert(whole[pre.len() as int] == 1u8);
            let p1 = pre + seq![1u8];
            assert(whole =~= p1 + spec_enc_u64(n) + rest);
            lemma_u64_round_trip(n, p1, rest);
        },
    }
}

// --- transaction actions ---

#[verifier::opaque]
pub open spec fn spec_enc_action(a: TransactionAction) -> Seq<u8> {
    match a {
        TransactionAction::Create => seq![0u8],
        TransactionAction::Call(ad) => seq![1u8] + spec_enc_addr(ad),
    }
}

#[verifier::opaque]
pub open spec fn spec_dec_action(s: Seq<u8>, i: int) -> Option<(TransactionAction, int)> {
    match spec_dec_u8(s, i) {
        Some((tag, j)) => if tag == 0 {
            Some((TransactionAction::Create, j))
        } else if tag == 1 {
            match spec_dec_addr(s, j) {
                Some((ad, k)) => Some((TransactionAction::Call(ad), k)),
                None => None,
            }
        } else {
            None
        },
        None => None,
    }
}

fn enc_action(out: &mut Vec<u8>, a: &TransactionAction)
    ensures
        final(out)@ == old(out)@ + spec_enc_action(*a),
{
    proof {
        reveal(spec_enc_action);
    }
    match a {
        TransactionAction::Create => {
            out.push(0u8);
            proof {
                assert(out@ =~= old(out)@ + spec_enc_action(*a));
            }
        },
        TransactionAction::Call(ad) => {
            out.push(1u8);
            enc_addr(out, ad);
            proof {
                assert(out@ =~= old(out)@ + spec_enc_action(*a));
            }
        },
    }
}

fn dec_action(buf: &Vec<u8>, pos: usize) -> (r: Option<(TransactionAction, usize)>)
    requires
        pos <= buf@.len(),
    ensures
        r is Some <==> spec_dec_action(buf@, pos as int) is Some,
        r is Some ==> Some(((r->Some_0).0, (r->Some_0).1 as int)) == spec_dec_action(
            buf@,
            pos as int,
        ) && (r->Some_0).1 <= buf@.len(),
{
    proof {
        reveal(spec_dec_action);
    }
    let (tag, j) = match dec_u8(buf, pos) {
        Some(p) => p,
        None => {
            return None;
        },
    };
    if tag == 0 {
        Some((TransactionAction::Create, j))
    } else if tag == 1 {
        match dec_addr(buf, j) {
            Some((ad, k)) => Some((TransactionAction::Call(ad), k)),
            None => None,
        }
    } else {
        None
    }
}

proof fn lemma_action_round_trip(a: TransactionAction, pre: Seq<u8>, rest: Seq<u8>)
    ensures
        spec_dec_action(pre + spec_enc_action(a) + rest, pre.len() as int) == Some(
            (a, pre.len() + spec_enc_action(a).len() as int),
        ),
{
    reveal(spec_enc_action);
    reveal(spec_dec_action);
    broadcast use lemma_enc_u64_len;

    let whole = pre + spec_enc_action(a) + rest;
    match a {
        TransactionAction::Create => {
            assert(whole[pre.len() as int] == 0u8);
        },
        TransactionAction::Call(ad) => {
            assert(whole[pre.len() as int] == 1u8);
            let p1 = pre + seq![1u8];
            assert(whole =~= p1 + spec_enc_addr(ad) + rest);
            lemma_addr_round_trip(ad, p1, rest);
        },
    }
}

#[verifier::loop_isolation(false)]
fn enc_word_list(out: &mut Vec<u8>, v: &Vec<Word256>)
    ensures
        final(out)@ == old(out)@ + spec_enc_vec(v@, |x: Word256| spec_enc_word(x)),
{
    let ghost f = |x: Word256| spec_enc_word(x);
    enc_u64(out, v.len() as u64);
    let ghost mid = out@;
    proof {
        assert(spec_enc_list(v@.take(0), f) =~= Seq::<u8>::empty());
        assert(mid + spec_enc_list(v@.take(0), f) =~= mid);
    }
    let mut i: usize = 0;
    while i < v.len()
        invariant
            i <= v@.len(),
            out@ == mid + spec_enc_list(v@.take(i as int), f),
        decreases v@.len() - i,
    {
        enc_word(out, &v[i]);
        proof {
            lemma_enc_list_push(v@.take(i as int), v@[i as int], f);
            assert(v@.take(i as int + 1) =~= v@.take(i as int).push(v@[i as int]));
            assert(mid + spec_enc_list(v@.take(i as int), f) + f(v@[i as int]) =~= mid
                + spec_enc_list(v@.take(i as int + 1), f));
        }
        i = i + 1;
    }
    proof {
        assert(v@.take(v@.len() as int) =~= v@);
        assert(mid + spec_enc_list(v@, f) =~= old(out)@ + spec_enc_vec(v@, f));
    }
}

#[verifier::loop_isolation(false)]
fn dec_word_list(buf: &Vec<u8>, pos: usize) -> (r: Option<(Vec<Word256>, usize)>)
    requires
        pos <= buf@.len(),
    ensures
        r is Some <==> spec_dec_vec(buf@, pos as int, |ss: Seq<u8>, ii: int| spec_dec_word(ss, ii))
            is Some,
        r is Some ==> Some(((r->Some_0).0@, (r->Some_0).1 as int)) == spec_dec_vec(
            buf@,
            pos as int,
            |ss: Seq<u8>, ii: int| spec_dec_word(ss, ii),
        ) && (r->Some_0).1 <= buf@.len(),
{
    let ghost g = |ss: Seq<u8>, ii: int| spec_dec_word(ss, ii);
    let (n, j0) = match dec_u64(buf, pos) {
        Some(p) => p,
        None => {
            return None;
        },
    };
    let mut out: Vec<Word256> = Vec::new();
    let mut t: u64 = 0;
    let mut cur: usize = j0;
    proof {
        assert(out@ =~= Seq::<Word256>::empty());
    }
    while t < n
        invariant
            t <= n,
            cur <= buf@.len(),
            (match spec_dec_list(buf@, j0 as int, n as int, g) {
                Some((xs, k)) => (match spec_dec_list(buf@, cur as int, n as int - t as int, g) {
                    Some((xs2, k2)) => xs == out@ + xs2 && k == k2,
                    None => false,
                }),
                None => (spec_dec_list(buf@, cur as int, n as int - t as int, g) is None),
            }),
        decreases n - t,
    {
        let (x, nx) = match dec_word(buf, cur) {
            Some(p) => p,
            None => {
                return None;
            },
        };
        out.push(x);
        proof {
            let rest = spec_dec_list(buf@, nx as int, n as int - t as int - 1, g);
            if rest is Some {
                assert(out@ + rest->Some_0.0 =~= out@.drop_last() + (seq![x] + rest->Some_0.0));
            }
        }
        cur = nx;
        t = t + 1;
    }
    proof {
        assert(spec_dec_list(buf@, cur as int, 0, g) == Some(
            (Seq::<Word256>::empty(), cur as int),
        ));
        assert(out@ + Seq::<Word256>::empty() =~= out@);
    }
    Some((out, cur))
}

// --- access-list items ---

/// The ghost shape of one access-list item.
pub struct AccessItemView {
    pub address: Address,
    pub slots: Seq<Word256>,
}

pub open spec fn view_access_item(x: AccessListItem) -> AccessItemView {
    AccessItemView { address: x.address, slots: x.slots@ }
}

pub open spec fn item_view_ok(v: AccessItemView) -> bool {
    v.slots.len() <= u64::MAX
}

#[verifier::opaque]
pub open spec fn spec_enc_access_item(v: AccessItemView) -> Seq<u8> {
    spec_enc_addr(v.address) + spec_enc_vec(v.slots, |w: Word256| spec_enc_word(w))
}

#[verifier::opaque]
pub open spec fn spec_dec_access_item(s: Seq<u8>, i: int) -> Option<(AccessItemView, int)> {
    match spec_dec_addr(s, i) {
        Some((a, j)) => match spec_dec_vec(s, j, |ss: Seq<u8>, ii: int| spec_dec_word(ss, ii)) {
            Some((slots, k)) => Some((AccessItemView { address: a, slots }, k)),
            None => None,
        },
        None => None,
    }
}

fn enc_access_item(out: &mut Vec<u8>, x: &AccessListItem)
    ensures
        final(out)@ == old(out)@ + spec_enc_access_item(view_access_item(*x)),
{
    proof {
        reveal(spec_enc_access_item);
    }
    enc_addr(out, &x.address);
    enc_word_list(out, &x.slots);
    proof {
        assert(out@ =~= old(out)@ + spec_enc_access_item(view_access_item(*x)));
    }
}

fn dec_access_item(buf: &Vec<u8>, pos: usize) -> (r: Option<(AccessListItem, usize)>)
    requires
        pos <= buf@.len(),
    ensures
        r is Some <==> spec_dec_access_item(buf@, pos as int) is Some,
        r is Some ==> Some((view_access_item((r->Some_0).0), (r->Some_0).1 as int))
            == spec_dec_access_item(buf@, pos as int) && (r->Some_0).1 <= buf@.len(),
{
    proof {
        reveal(spec_dec_access_item);
    }
    let (a, j) = match dec_addr(buf, pos) {
        Some(p) => p,
        None => {
            return None;
        },
    };
    match dec_word_list(buf, j) {
        Some((slots, k)) => Some((AccessListItem { address: a, slots }, k)),
        None => None,
    }
}

proof fn lemma_access_item_round_trip(v: AccessItemView, pre: Seq<u8>, rest: Seq<u8>)
    requires
        item_view_ok(v),
    ensures
        spec_dec_access_item(pre + spec_enc_access_item(v) + rest, pre.len() as int) == Some(
            (v, pre.len() + spec_enc_access_item(v).len() as int),
        ),
{
    reveal(spec_enc_access_item);
    reveal(spec_dec_access_item);
    broadcast use lemma_enc_u64_len;

    let fw = |w: Word256| spec_enc_word(w);
    let gw = |ss: Seq<u8>, ii: int| spec_dec_word(ss, ii);
    let whole = pre + spec_enc_access_item(v) + rest;
    assert(whole =~= pre + spec_enc_addr(v.address) + (spec_enc_vec(v.slots, fw) + rest));
    lemma_addr_round_trip(v.address, pre, spec_enc_vec(v.slots, fw) + rest);
    let p1 = pre + spec_enc_addr(v.address);
    assert(whole =~= p1 + spec_enc_vec(v.slots, fw) + rest);
    assert forall|k2: int, p: Seq<u8>, r2: Seq<u8>| 0 <= k2 < v.slots.len() implies
        #[trigger] gw(p + fw(v.slots[k2]) + r2, p.len() as int) == Some(
        (v.slots[k2], p.len() + fw(v.slots[k2]).len() as int),
    ) by {
        lemma_word_round_trip(v.slots[k2], p, r2);
    }
    lemma_vec_round_trip(v.slots, p1, rest, fw, gw);
}


#[verifier::loop_isolation(false)]
fn enc_access_item_list(out: &mut Vec<u8>, v: &Vec<AccessListItem>)
    ensures
        final(out)@ == old(out)@ + spec_enc_vec(
            v@.map_values(|e: AccessListItem| view_access_item(e)),
            |x: AccessItemView| spec_enc_access_item(x),
        ),
{
    let ghost f = |x: AccessItemView| spec_enc_access_item(x);
    let ghost vs = v@.map_values(|e: AccessListItem| view_access_item(e));
    enc_u64(out, v.len() as u64);
    let ghost mid = out@;
    proof {
        assert(spec_enc_list(vs.take(0), f) =~= Seq::<u8>::empty());
        assert(mid + spec_enc_list(vs.take(0), f) =~= mid);
    }
    let mut i: usize = 0;
    while i < v.len()
        invariant
            i <= v@.len(),
            out@ == mid + spec_enc_list(vs.take(i as int), f),
        decreases v@.len() - i,
    {
        enc_access_item(out, &v[i]);
        proof {
            assert(vs[i as int] == view_access_item(v@[i as int]));
            lemma_enc_list_push(vs.take(i as int), vs[i as int], f);
            assert(vs.take(i as int + 1) =~= vs.take(i as int).push(vs[i as int]));
            assert(mid + spec_enc_list(vs.take(i as int), f) + f(vs[i as int]) =~= mid
                + spec_enc_list(vs.take(i as int + 1), f));
        }
        i = i + 1;
    }
    proof {
        assert(vs.take(vs.len() as int) =~= vs);
        assert(mid + spec_enc_list(vs, f) =~= old(out)@ + spec_enc_vec(vs, f));
    }
}

#[verifier::loop_isolation(false)]
fn dec_access_item_list(buf: &Vec<u8>, pos: usize) -> (r: Option<(Vec<AccessListItem>, usize)>)
    requires
        pos <= buf@.len(),
    ensures
        r is Some <==> spec_dec_vec(buf@, pos as int, |ss: Seq<u8>, ii: int| spec_dec_access_item(ss, ii))
            is Some,
        r is Some ==> Some(
            ((r->Some_0).0@.map_values(|e: AccessListItem| view_access_item(e)), (r->Some_0).1 as int),
        ) == spec_dec_vec(buf@, pos as int, |ss: Seq<u8>, ii: int| spec_dec_access_item(ss, ii)) && (
        r->Some_0).1 <= buf@.len(),
{
    let ghost g = |ss: Seq<u8>, ii: int| spec_dec_access_item(ss, ii);
    let (n, j0) = match dec_u64(buf, pos) {
        Some(p) => p,
        None => {
            return None;
        },
    };
    let mut out: Vec<AccessListItem> = Vec::new();
    let mut t: u64 = 0;
    let mut cur: usize = j0;
    proof {
        assert(out@.map_values(|e: AccessListItem| view_access_item(e)) =~= Seq::<AccessItemView>::empty());
    }
    while t < n
        invariant
            t <= n,
            cur <= buf@.len(),
            (match spec_dec_list(buf@, j0 as int, n as int, g) {
                Some((xs, k)) => (match spec_dec_list(buf@, cur as int, n as int - t as int, g) {
                    Some((xs2, k2)) => xs == out@.map_values(|e: AccessListItem| view_access_item(e)) + xs2 && k == k2,
                    None => false,
                }),
                None => (spec_dec_list(buf@, cur as int, n as int - t as int, g) is None),
            }),
        decreases n - t,
    {
        let (x, nx) = match dec_access_item(buf, cur) {
            Some(p) => p,
            None => {
                return None;
            },
        };
        let ghost prev = out@;
        out.push(x);
        proof {
            assert(out@.map_values(|e: AccessListItem| view_access_item(e)) =~= prev.map_values(
                |e: AccessListItem| view_access_item(e),
            ).push(view_access_item(x)));
            let rest = spec_dec_list(buf@, nx as int, n as int - t as int - 1, g);
            if rest is Some {
                assert(out@.map_values(|e: AccessListItem| view_access_item(e)) + rest->Some_0.0 =~= prev.map_values(
                    |e: AccessListItem| view_access_item(e),
                ) + (seq![view_access_item(x)] + rest->Some_0.0));
            }
        }
        cur = nx;
        t = t + 1;
    }
    proof {
        assert(spec_dec_list(buf@, cur as int, 0, g) == Some(
            (Seq::<AccessItemView>::empty(), cur as int),
        ));
        assert(out@.map_values(|e: AccessListItem| view_access_item(e)) + Seq::<AccessItemView>::empty() =~= out@.map_values(
            |e: AccessListItem| view_access_item(e),
        ));
    }
    Some((out, cur))
}

// --- transaction bodies and transactions ---

/// The ghost shape of a transaction body.
pub enum BodyView {
    Legacy {
        chain_id: Option<u64>,
        nonce: u64,
        gas_price: Word256,
        gas_limit: u64,
        action: TransactionAction,
        value: Word256,
        input: Seq<u8>,
    },
    EIP2930 {
        chain_id: u64,
        nonce: u64,
        gas_price: Word256,
        gas_limit: u64,
        action: TransactionAction,
        value: Word256,
        input: Seq<u8>,
        access_list: Seq<AccessItemView>,
    },
    EIP1559 {
        chain_id: u64,
        nonce: u64,
        max_priority_fee_per_gas: Word256,
        max_fee_per_gas: Word256,
        gas_limit: u64,
        action: TransactionAction,
        value: Word256,
        input: Seq<u8>,
        access_list: Seq<AccessItemView>,
    },
}

pub open spec fn view_body(b: TransactionBody) -> BodyView {
    match b {
        TransactionBody::Legacy { chain_id, nonce, gas_price, gas_limit, action, value, input } => BodyView::Legacy {
            chain_id,
            nonce,
            gas_price,
            gas_limit,
            action,
            value,
            input: input@,
        },
        TransactionBody::EIP2930 {
            chain_id,
            nonce,
            gas_price,
            gas_limit,
            action,
            value,
            input,
            access_list,
        } => BodyView::EIP2930 {
            chain_id,
            nonce,
            gas_price,
            gas_limit,
            action,
            value,
            input: input@,
            access_list: access_list@.map_values(|e: AccessListItem| view_access_item(e)),
        },
        TransactionBody::EIP1559 {
            chain_id,
            nonce,
            max_priority_fee_per_gas,
            max_fee_per_gas,
            gas_limit,
            action,
            value,
            input,
            access_list,
        } => BodyView::EIP1559 {
            chain_id,
            nonce,
            max_priority_fee_per_gas,
            max_fee_per_gas,
            gas_limit,
            action,
            value,
            input: input@,
            access_list: access_list@.map_values(|e: AccessListItem| view_access_item(e)),
        },
    }
}

pub open spec fn body_view_ok(b: BodyView) -> bool {
    match b {
        BodyView::Legacy { input, .. } => input.len() <= u64::MAX,
        BodyView::EIP2930 { input, access_list, .. } => input.len() <= u64::MAX
            && access_list.len() <= u64::MAX && (forall|i: int|
            0 <= i < access_list.len() ==> item_view_ok(#[trigger] access_list[i])),
        BodyView::EIP1559 { input, access_list, .. } => input.len() <= u64::MAX
            && access_list.len() <= u64::MAX && (forall|i: int|
            0 <= i < access_list.len() ==> item_view_ok(#[trigger] access_list[i])),
    }
}

#[verifier::opaque]
pub open spec fn spec_enc_body(b: BodyView) -> Seq<u8> {
    match b {
        BodyView::Legacy { chain_id, nonce, gas_price, gas_limit, action, value, input } => seq![
            0u8,
        ] + spec_enc_opt_u64(chain_id) + spec_enc_u64(nonce) + spec_enc_word(gas_price)
            + spec_enc_u64(gas_limit) + spec_enc_action(action) + spec_enc_word(value)
            + spec_enc_bytes(input),
        BodyView::EIP2930 {
            chain_id,
            nonce,
            gas_price,
            gas_limit,
            action,
            value,
            input,
            access_list,
        } => seq![1u8] + spec_enc_u64(chain_id) + spec_enc_u64(nonce) + spec_enc_word(gas_price)
            + spec_enc_u64(gas_limit) + spec_enc_action(action) + spec_enc_word(value)
            + spec_enc_bytes(input) + spec_enc_vec(
            access_list,
            |x: AccessItemView| spec_enc_access_item(x),
        ),
        BodyView::EIP1559 {
            chain_id,
            nonce,
            max_priority_fee_per_gas,
            max_fee_per_gas,
            gas_limit,
            action,
            value,
            input,
            access_list,
        } => seq![2u8] + spec_enc_u64(chain_id) + spec_enc_u64(nonce) + spec_enc_word(
            max_priority_fee_per_gas,
        ) + spec_enc_word(max_fee_per_gas) + spec_enc_u64(gas_limit) + spec_enc_action(action)
            + spec_enc_word(value) + spec_enc_bytes(input) + spec_enc_vec(
            access_list,
            |x: AccessItemView| spec_enc_access_item(x),
        ),
    }
}

#[verifier::opaque]
pub open spec fn spec_dec_body(s: Seq<u8>, i: int) -> Option<(BodyView, int)> {
    match spec_dec_u8(s, i) {
        Some((tag, j)) => if tag == 0 {
            match spec_dec_opt_u64(s, j) {
                Some((chain_id, j1)) => match spec_dec_u64(s, j1) {
                    Some((nonce, j2)) => match spec_dec_word(s, j2) {
                        Some((gas_price, j3)) => match spec_dec_u64(s, j3) {
                            Some((gas_limit, j4)) => match spec_dec_action(s, j4) {
                                Some((action, j5)) => match spec_dec_word(s, j5) {
                                    Some((value, j6)) => match spec_dec_bytes(s, j6) {
                                        Some((input, j7)) => Some(
                                            (
                                                BodyView::Legacy {
                                                    chain_id,
                                                    nonce,
                                                    gas_price,
                                                    gas_limit,
                                                    action,
                                                    value,
                                                    input,
                                                },
                                                j7,
                                            ),
                                        ),
                                        None => None,
                                    },
                                    None => None,
                                },
                                None => None,
                            },
                            None => None,
                        },
                        None => None,
                    },
                    None => None,
                },
                None => None,
            }
        } else if tag == 1 {
            match spec_dec_u64(s, j) {
                Some((chain_id, j1)) => match spec_dec_u64(s, j1) {
                    Some((nonce, j2)) => match spec_dec_word(s, j2) {
                        Some((gas_price, j3)) => match spec_dec_u64(s, j3) {
                            Some((gas_limit, j4)) => match spec_dec_action(s, j4) {
                                Some((action, j5)) => match spec_dec_word(s, j5) {
                                    Some((value, j6)) => match spec_dec_bytes(s, j6) {
                                        Some((input, j7)) => match spec_dec_vec(
                                            s,
                                            j7,
                                            |ss: Seq<u8>, ii: int| spec_dec_access_item(ss, ii),
                                        ) {
                                            Some((access_list, j8)) => Some(
                                                (
                                                    BodyView::EIP2930 {
                                                        chain_id,
                                                        nonce,
                                                        gas_price,
                                                        gas_limit,
                                                        action,
                                                        value,
                                                        input,
                                                        access_list,
                                                    },
                                                    j8,
                                                ),
                                            ),
                                            None => None,
                                        },
                                        None => None,
                                    },
                                    None => None,
                                },
                                None => None,
                            },
                            None => None,
                        },
                        None => None,
                    },
                    None => None,
                },
                None => None,
            }
        } else if tag == 2 {
            match spec_dec_u64(s, j) {
                Some((chain_id, j1)) => match spec_dec_u64(s, j1) {
                    Some((nonce, j2)) => match spec_dec_word(s, j2) {
                        Some((max_priority_fee_per_gas, j3)) => match spec_dec_word(s, j3) {
                            Some((max_fee_per_gas, j4)) => match spec_dec_u64(s, j4) {
                                Some((gas_limit, j5)) => match spec_dec_action(s, j5) {
                                    Some((action, j6)) => match spec_dec_word(s, j6) {
                                        Some((value, j7)) => match spec_dec_bytes(s, j7) {
                                            Some((input, j8)) => match spec_dec_vec(
                                                s,
                                                j8,
                                                |ss: Seq<u8>, ii: int| spec_dec_access_item(
                                                    ss,
                                                    ii,
                                                ),
                                            ) {
                                                Some((access_list, j9)) => Some(
                                                    (
                                                        BodyView::EIP1559 {
                                                            chain_id,
                                                            nonce,
                                                            max_priority_fee_per_gas,
                                                            max_fee_per_gas,
                                                            gas_limit,
                                                            action,
                                                            value,
                                                            input,
                                                            access_list,
                                                        },
                                                        j9,
                                                    ),
                                                ),
                                                None => None,
                                            },
                                            None => None,
                                        },
                                        None => None,
                                    },
                                    None => None,
                                },
                                None => None,
                            },
                            None => None,
                        },
                        None => None,
                    },
                    None => None,
                },
                None => None,
            }
        } else {
            None
        },
        None => None,
    }
}


fn enc_body(out: &mut Vec<u8>, b: &TransactionBody)
    ensures
        final(out)@ == old(out)@ + spec_enc_body(view_body(*b)),
{
    proof {
        reveal(spec_enc_body);
    }
    match b {
        TransactionBody::Legacy { chain_id, nonce, gas_price, gas_limit, action, value, input } => {
            out.push(0u8);
            enc_opt_u64(out, chain_id);
            enc_u64(out, *nonce);
            enc_word(out, gas_price);
            enc_u64(out, *gas_limit);
            enc_action(out, action);
            enc_word(out, value);
            enc_bytes(out, input);
        },
        TransactionBody::EIP2930 {
            chain_id,
            nonce,
            gas_price,
            gas_limit,
            action,
            value,
            input,
            access_list,
        } => {
            out.push(1u8);
            enc_u64(out, *chain_id);
            enc_u64(out, *nonce);
            enc_word(out, gas_price);
            enc_u64(out, *gas_limit);
            enc_action(out, action);
            enc_word(out, value);
            enc_bytes(out, input);
            enc_access_item_list(out, access_list);
        },
        TransactionBody::EIP1559 {
            chain_id,
            nonce,
            max_priority_fee_per_gas,
            max_fee_per_gas,
            gas_limit,
            action,
            value,
            input,
            access_list,
        } => {
            out.push(2u8);
            enc_u64(out, *chain_id);
            enc_u64(out, *nonce);
            enc_word(out, max_priority_fee_per_gas);
            enc_word(out, max_fee_per_gas);
            enc_u64(out, *gas_limit);
            enc_action(out, action);
            enc_word(out, value);
            enc_bytes(out, input);
            enc_access_item_list(out, access_list);
        },
    }
    proof {
        assert(out@ =~= old(out)@ + spec_enc_body(view_body(*b)));
    }
}

#[verifier::rlimit(100)]
fn dec_body(buf: &Vec<u8>, pos: usize) -> (r: Option<(TransactionBody, usize)>)
    requires
        pos <= buf@.len(),
    ensures
        r is Some <==> spec_dec_body(buf@, pos as int) is Some,
        r is Some ==> Some((view_body((r->Some_0).0), (r->Some_0).1 as int)) == spec_dec_body(
            buf@,
            pos as int,
        ) && (r->Some_0).1 <= buf@.len(),
{
    proof {
        reveal(spec_dec_body);
    }
    let (tag, j) = match dec_u8(buf, pos) {
        Some(p) => p,
        None => {
            return None;
        },
    };
    if tag == 0 {
        let (chain_id, j1) = match dec_opt_u64(buf, j) {
            Some(p) => p,
            None => {
                return None;
            },
        };
        let (nonce, j2) = match dec_u64(buf, j1) {
            Some(p) => p,
            None => {
                return None;
            },
        };
        let (gas_price, j3) = match dec_word(buf, j2) {
            Some(p) => p,
            None => {
                return None;
            },
        };
        let (gas_limit, j4) = match dec_u64(buf, j3) {
            Some(p) => p,
            None => {
                return None;
            },
        };
        let (action, j5) = match dec_action(buf, j4) {
            Some(p) => p,
            None => {
                return None;
            },
        };
        let (value, j6) = match dec_word(buf, j5) {
            Some(p) => p,
            None => {
                return None;
            },
        };
        let (input, j7) = match dec_bytes(buf, j6) {
            Some(p) => p,
            None => {
                return None;
            },
        };
        Some(
            (
                TransactionBody::Legacy {
                    chain_id,
                    nonce,
                    gas_price,
                    gas_limit,
                    action,
                    value,
                    input,
                },
                j7,
            ),
        )
    } else if tag == 1 {
        let (chain_id, j1) = match dec_u64(buf, j) {
            Some(p) => p,
            None => {
                return None;
            },
        };
        let (nonce, j2) = match dec_u64(buf, j1) {
            Some(p) => p,
            None => {
                return None;
            },
        };
        let (gas_price, j3) = match dec_word(buf, j2) {
            Some(p) => p,
            None => {
                return None;
            },
        };
        let (gas_limit, j4) = match dec_u64(buf, j3) {
            Some(p) => p,
            None => {
                return None;
            },
        };
        let (action, j5) = match dec_action(buf, j4) {
            Some(p) => p,
            None => {
                return None;
            },
        };
        let (value, j6) = match dec_word(buf, j5) {
            Some(p) => p,
            None => {
                return None;
            },
        };
        let (input, j7) = match dec_bytes(buf, j6) {
            Some(p) => p,
            None => {
                return None;
            },
        };
        let (access_list, j8) = match dec_access_item_list(buf, j7) {
            Some(p) => p,
            None => {
                return None;
            },
        };
        Some(
            (
                TransactionBody::EIP2930 {
                    chain_id,
                    nonce,
                    gas_price,
                    gas_limit,
                    action,
                    value,
                    input,
                    access_list,
                },
                j8,
            ),
        )
    } else if tag == 2 {
        let (chain_id, j1) = match dec_u64(buf, j) {
            Some(p) => p,
            None => {
                return None;
            },
        };
        let (nonce, j2) = match dec_u64(buf, j1) {
            Some(p) => p,
            None => {
                return None;
            },
        };
        let (max_priority_fee_per_gas, j3) = match dec_word(buf, j2) {
            Some(p) => p,
            None => {
                return None;
            },
        };
        let (max_fee_per_gas, j4) = match dec_word(buf, j3) {
            Some(p) => p,
            None => {
                return None;
            },
        };
        let (gas_limit, j5) = match dec_u64(buf, j4) {
            Some(p) => p,
            None => {
                return None;
            },
        };
        let (action, j6) = match dec_action(buf, j5) {
            Some(p) => p,
            None => {
                return None;
            },
        };
        let (value, j7) = match dec_word(buf, j6) {
            Some(p) => p,
            None => {
                return None;
            },
        };
        let (input, j8) = match dec_bytes(buf, j7) {
            Some(p) => p,
            None => {
                return None;
            },
        };
        let (access_list, j9) = match dec_access_item_list(buf, j8) {
            Some(p) => p,
            None => {
                return None;
            },
        };
        Some(
            (
                TransactionBody::EIP1559 {
                    chain_id,
                    nonce,
                    max_priority_fee_per_gas,
                    max_fee_per_gas,
                    gas_limit,
                    action,
                    value,
                    input,
                    access_list,
                },
                j9,
            ),
        )
    } else {
        None
    }
}

proof fn lemma_access_items_hyp(al: Seq<AccessItemView>)
    requires
        forall|i: int| 0 <= i < al.len() ==> item_view_ok(#[trigger] al[i]),
    ensures
        forall|k2: int, p: Seq<u8>, r2: Seq<u8>|
            0 <= k2 < al.len() ==> #[trigger] spec_dec_access_item(
                p + spec_enc_access_item(al[k2]) + r2,
                p.len() as int,
            ) == Some((al[k2], p.len() + spec_enc_access_item(al[k2]).len() as int)),
{
    assert forall|k2: int, p: Seq<u8>, r2: Seq<u8>| 0 <= k2 < al.len() implies
        #[trigger] spec_dec_access_item(p + spec_enc_access_item(al[k2]) + r2, p.len() as int)
        == Some((al[k2], p.len() + spec_enc_access_item(al[k2]).len() as int)) by {
        lemma_access_item_round_trip(al[k2], p, r2);
    }
}


#[verifier::rlimit(100)]
#[verifier::spinoff_prover]
proof fn lemma_body_rt_legacy(b: BodyView, pre: Seq<u8>, rest: Seq<u8>)
    requires
        body_view_ok(b),
        b is Legacy,
    ensures
        spec_dec_body(pre + spec_enc_body(b) + rest, pre.len() as int) == Some(
            (b, pre.len() + spec_enc_body(b).len() as int),
        ),
{
    reveal(spec_enc_body);
    reveal(spec_dec_body);
    broadcast use lemma_enc_u64_len;

    match b {
        BodyView::Legacy { chain_id, nonce, gas_price, gas_limit, action, value, input } => {
        let whole = pre + spec_enc_body(b) + rest;
        assert(whole[pre.len() as int] == 0u8);
        let p1 = pre + seq![0u8];
        assert(whole =~= p1 + spec_enc_opt_u64(chain_id) + (spec_enc_u64(nonce) + spec_enc_word(gas_price) + spec_enc_u64(gas_limit) + spec_enc_action(action) + spec_enc_word(value) + spec_enc_bytes(input) + rest));
        lemma_opt_u64_round_trip(chain_id, p1, spec_enc_u64(nonce) + spec_enc_word(gas_price) + spec_enc_u64(gas_limit) + spec_enc_action(action) + spec_enc_word(value) + spec_enc_bytes(input) + rest);
        let p2 = p1 + spec_enc_opt_u64(chain_id);
        assert(whole =~= p2 + spec_enc_u64(nonce) + (spec_enc_word(gas_price) + spec_enc_u64(gas_limit) + spec_enc_action(action) + spec_enc_word(value) + spec_enc_bytes(input) + rest));
        lemma_u64_round_trip(nonce, p2, spec_enc_word(gas_price) + spec_enc_u64(gas_limit) + spec_enc_action(action) + spec_enc_word(value) + spec_enc_bytes(input) + rest);
        let p3 = p2 + spec_enc_u64(nonce);
        assert(whole =~= p3 + spec_enc_word(gas_price) + (spec_enc_u64(gas_limit) + spec_enc_action(action) + spec_enc_word(value) + spec_enc_bytes(input) + rest));
        lemma_word_round_trip(gas_price, p3, spec_enc_u64(gas_limit) + spec_enc_action(action) + spec_enc_word(value) + spec_enc_bytes(input) + rest);
        let p4 = p3 + spec_enc_word(gas_price);
        assert(whole =~= p4 + spec_enc_u64(gas_limit) + (spec_enc_action(action) + spec_enc_word(value) + spec_enc_bytes(input) + rest));
        lemma_u64_round_trip(gas_limit, p4, spec_enc_action(action) + spec_enc_word(value) + spec_enc_bytes(input) + rest);
        let p5 = p4 + spec_enc_u64(gas_limit);
        assert(whole =~= p5 + spec_enc_action(action) + (spec_enc_word(value) + spec_enc_bytes(input) + rest));
        lemma_action_round_trip(action, p5, spec_enc_word(value) + spec_enc_bytes(input) + rest);
        let p6 = p5 + spec_enc_action(action);
        assert(whole =~= p6 + spec_enc_word(value) + (spec_enc_bytes(input) + rest));
        lemma_word_round_trip(value, p6, spec_enc_bytes(input) + rest);
        let p7 = p6 + spec_enc_word(value);
        assert(whole =~= p7 + spec_enc_bytes(input) + rest);
        lemma_bytes_round_trip(input, p7, rest);
        },
        _ => {
        },
    }
}

#[verifier::rlimit(100)]
#[verifier::spinoff_prover]
proof fn lemma_body_rt_eip2930(b: BodyView, pre: Seq<u8>, rest: Seq<u8>)
    requires
        body_view_ok(b),
        b is EIP2930,
    ensures
        spec_dec_body(pre + spec_enc_body(b) + rest, pre.len() as int) == Some(
            (b, pre.len() + spec_enc_body(b).len() as int),
        ),
{
    reveal(spec_enc_body);
    reveal(spec_dec_body);
    broadcast use lemma_enc_u64_len;

    match b {
        BodyView::EIP2930 { chain_id, nonce, gas_price, gas_limit, action, value, input, access_list } => {
        let whole = pre + spec_enc_body(b) + rest;
        assert(whole[pre.len() as int] == 1u8);
        let p1 = pre + seq![1u8];
        assert(whole =~= p1 + spec_enc_u64(chain_id) + (spec_enc_u64(nonce) + spec_enc_word(gas_price) + spec_enc_u64(gas_limit) + spec_enc_action(action) + spec_enc_word(value) + spec_enc_bytes(input) + spec_enc_vec(access_list, |x: AccessItemView| spec_enc_access_item(x)) + rest));
        lemma_u64_round_trip(chain_id, p1, spec_enc_u64(nonce) + spec_enc_word(gas_price) + spec_enc_u64(gas_limit) + spec_enc_action(action) + spec_enc_word(value) + spec_enc_bytes(input) + spec_enc_vec(access_list, |x: AccessItemView| spec_enc_access_item(x)) + rest);
        let p2 = p1 + spec_enc_u64(chain_id);
        assert(whole =~= p2 + spec_enc_u64(nonce) + (spec_enc_word(gas_price) + spec_enc_u64(gas_limit) + spec_enc_action(action) + spec_enc_word(value) + spec_enc_bytes(input) + spec_enc_vec(access_list, |x: AccessItemView| spec_enc_access_item(x)) + rest));
        lemma_u64_round_trip(nonce, p2, spec_enc_word(gas_price) + spec_enc_u64(gas_limit) + spec_enc_action(action) + spec_enc_word(value) + spec_enc_bytes(input) + spec_enc_vec(access_list, |x: AccessItemView| spec_enc_access_item(x)) + rest);
        let p3 = p2 + spec_enc_u64(nonce);
        assert(whole =~= p3 + spec_enc_word(gas_price) + (spec_enc_u64(gas_limit) + spec_enc_action(action) + spec_enc_word(value) + spec_enc_bytes(input) + spec_enc_vec(access_list, |x: AccessItemView| spec_enc_access_item(x)) + rest));
        lemma_word_round_trip(gas_price, p3, spec_enc_u64(gas_limit) + spec_enc_action(action) + spec_enc_word(value) + spec_enc_bytes(input) + spec_enc_vec(access_list, |x: AccessItemView| spec_enc_access_item(x)) + rest);
        let p4 = p3 + spec_enc_word(gas_price);
        assert(whole =~= p4 + spec_enc_u64(gas_limit) + (spec_enc_action(action) + spec_enc_word(value) + spec_enc_bytes(input) + spec_enc_vec(access_list, |x: AccessItemView| spec_enc_access_item(x)) + rest));
        lemma_u64_round_trip(gas_limit, p4, spec_enc_action(action) + spec_enc_word(value) + spec_enc_bytes(input) + spec_enc_vec(access_list, |x: AccessItemView| spec_enc_access_item(x)) + rest);
        let p5 = p4 + spec_enc_u64(gas_limit);
        assert(whole =~= p5 + spec_enc_action(action) + (spec_enc_word(value) + spec_enc_bytes(input) + spec_enc_vec(access_list, |x: AccessItemView| spec_enc_access_item(x)) + rest));
        lemma_action_round_trip(action, p5, spec_enc_word(value) + spec_enc_bytes(input) + spec_enc_vec(access_list, |x: AccessItemView| spec_enc_access_item(x)) + rest);
        let p6 = p5 + spec_enc_action(action);
        assert(whole =~= p6 + spec_enc_word(value) + (spec_enc_bytes(input) + spec_enc_vec(access_list, |x: AccessItemView| spec_enc_access_item(x)) + rest));
        lemma_word_round_trip(value, p6, spec_enc_bytes(input) + spec_enc_vec(access_list, |x: AccessItemView| spec_enc_access_item(x)) + rest);
        let p7 = p6 + spec_enc_word(value);
        assert(whole =~= p7 + spec_enc_bytes(input) + (spec_enc_vec(access_list, |x: AccessItemView| spec_enc_access_item(x)) + rest));
        lemma_bytes_round_trip(input, p7, spec_enc_vec(access_list, |x: AccessItemView| spec_enc_access_item(x)) + rest);
        let p8 = p7 + spec_enc_bytes(input);
        assert(whole =~= p8 + spec_enc_vec(access_list, |x: AccessItemView| spec_enc_access_item(x)) + rest);
        lemma_access_items_hyp(access_list);
        lemma_vec_round_trip(access_list, p8, rest, |x: AccessItemView| spec_enc_access_item(x), |ss: Seq<u8>, ii: int| spec_dec_access_item(ss, ii));
        },
        _ => {
        },
    }
}

#[verifier::rlimit(100)]
#[verifier::spinoff_prover]
proof fn lemma_body_rt_eip1559(b: BodyView, pre: Seq<u8>, rest: Seq<u8>)
    requires
        body_view_ok(b),
        b is EIP1559,
    ensures
        spec_dec_body(pre + spec_enc_body(b) + rest, pre.len() as int) == Some(
            (b, pre.len() + spec_enc_body(b).len() as int),
        ),
{
    reveal(spec_enc_body);
    reveal(spec_dec_body);
    broadcast use lemma_enc_u64_len;

    match b {
        BodyView::EIP1559 { chain_id, nonce, max_priority_fee_per_gas, max_fee_per_gas, gas_limit, action, value, input, access_list } => {
        let whole = pre + spec_enc_body(b) + rest;
        assert(whole[pre.len() as int] == 2u8);
        let p1 = pre + seq![2u8];
        assert(whole =~= p1 + spec_enc_u64(chain_id) + (spec_enc_u64(nonce) + spec_enc_word(max_priority_fee_per_gas) + spec_enc_word(max_fee_per_gas) + spec_enc_u64(gas_limit) + spec_enc_action(action) + spec_enc_word(value) + spec_enc_bytes(input) + spec_enc_vec(access_list, |x: AccessItemView| spec_enc_access_item(x)) + rest));
        lemma_u64_round_trip(chain_id, p1, spec_enc_u64(nonce) + spec_enc_word(max_priority_fee_per_gas) + spec_enc_word(max_fee_per_gas) + spec_enc_u64(gas_limit) + spec_enc_action(action) + spec_enc_word(value) + spec_enc_bytes(input) + spec_enc_vec(access_list, |x: AccessItemView| spec_enc_access_item(x)) + rest);
        let p2 = p1 + spec_enc_u64(chain_id);
        assert(whole =~= p2 + spec_enc_u64(nonce) + (spec_enc_word(max_priority_fee_per_gas) + spec_enc_word(max_fee_per_gas) + spec_enc_u64(gas_limit) + spec_enc_action(action) + spec_enc_word(value) + spec_enc_bytes(input) + spec_enc_vec(access_list, |x: AccessItemView| spec_enc_access_item(x)) + rest));
        lemma_u64_round_trip(nonce, p2, spec_enc_word(max_priority_fee_per_gas) + spec_enc_word(max_fee_per_gas) + spec_enc_u64(gas_limit) + spec_enc_action(action) + spec_enc_word(value) + spec_enc_bytes(input) + spec_enc_vec(access_list, |x: AccessItemView| spec_enc_access_item(x)) + rest);
        let p3 = p2 + spec_enc_u64(nonce);
        assert(whole =~= p3 + spec_enc_word(max_priority_fee_per_gas) + (spec_enc_word(max_fee_per_gas) + spec_enc_u64(gas_limit) + spec_enc_action(action) + spec_enc_word(value) + spec_enc_bytes(input) + spec_enc_vec(access_list, |x: AccessItemView| spec_enc_access_item(x)) + rest));
        lemma_word_round_trip(max_priority_fee_per_gas, p3, spec_enc_word(max_fee_per_gas) + spec_enc_u64(gas_limit) + spec_enc_action(action) + spec_enc_word(value) + spec_enc_bytes(input) + spec_enc_vec(access_list, |x: AccessItemView| spec_enc_access_item(x)) + rest);
        let p4 = p3 + spec_enc_word(max_priority_fee_per_gas);
        assert(whole =~= p4 + spec_enc_word(max_fee_per_gas) + (spec_enc_u64(gas_limit) + spec_enc_action(action) + spec_enc_word(value) + spec_enc_bytes(input) + spec_enc_vec(access_list, |x: AccessItemView| spec_enc_access_item(x)) + rest));
        lemma_word_round_trip(max_fee_per_gas, p4, spec_enc_u64(gas_limit) + spec_enc_action(action) + spec_enc_word(value) + spec_enc_bytes(input) + spec_enc_vec(access_list, |x: AccessItemView| spec_enc_access_item(x)) + rest);
        let p5 = p4 + spec_enc_word(max_fee_per_gas);
        assert(whole =~= p5 + spec_enc_u64(gas_limit) + (spec_enc_action(action) + spec_enc_word(value) + spec_enc_bytes(input) + spec_enc_vec(access_list, |x: AccessItemView| spec_enc_access_item(x)) + rest));
        lemma_u64_round_trip(gas_limit, p5, spec_enc_action(action) + spec_enc_word(value) + spec_enc_bytes(input) + spec_enc_vec(access_list, |x: AccessItemView| spec_enc_access_item(x)) + rest);
        let p6 = p5 + spec_enc_u64(gas_limit);
        assert(whole =~= p6 + spec_enc_action(action) + (spec_enc_word(value) + spec_enc_bytes(input) + spec_enc_vec(access_list, |x: AccessItemView| spec_enc_access_item(x)) + rest));
        lemma_action_round_trip(action, p6, spec_enc_word(value) + spec_enc_bytes(input) + spec_enc_vec(access_list, |x: AccessItemView| spec_enc_access_item(x)) + rest);
        let p7 = p6 + spec_enc_action(action);
        assert(whole =~= p7 + spec_enc_word(value) + (spec_enc_bytes(input) + spec_enc_vec(access_list, |x: AccessItemView| spec_enc_access_item(x)) + rest));
        lemma_word_round_trip(value, p7, spec_enc_bytes(input) + spec_enc_vec(access_list, |x: AccessItemView| spec_enc_access_item(x)) + rest);
        let p8 = p7 + spec_enc_word(value);
        assert(whole =~= p8 + spec_enc_bytes(input) + (spec_enc_vec(access_list, |x: AccessItemView| spec_enc_access_item(x)) + rest));
        lemma_bytes_round_trip(input, p8, spec_enc_vec(access_list, |x: AccessItemView| spec_enc_access_item(x)) + rest);
        let p9 = p8 + spec_enc_bytes(input);
        assert(whole =~= p9 + spec_enc_vec(access_list, |x: AccessItemView| spec_enc_access_item(x)) + rest);
        lemma_access_items_hyp(access_list);
        lemma_vec_round_trip(access_list, p9, rest, |x: AccessItemView| spec_enc_access_item(x), |ss: Seq<u8>, ii: int| spec_dec_access_item(ss, ii));
        },
        _ => {
        },
    }
}

/// A transaction body reads back exactly.
pub proof fn lemma_body_round_trip(b: BodyView, pre: Seq<u8>, rest: Seq<u8>)
    requires
        body_view_ok(b),
    ensures
        spec_dec_body(pre + spec_enc_body(b) + rest, pre.len() as int) == Some(
            (b, pre.len() + spec_enc_body(b).len() as int),
        ),
{
    match b {
        BodyView::Legacy { .. } => {
            lemma_body_rt_legacy(b, pre, rest);
        },
        BodyView::EIP2930 { .. } => {
            lemma_body_rt_eip2930(b, pre, rest);
        },
        BodyView::EIP1559 { .. } => {
            lemma_body_rt_eip1559(b, pre, rest);
        },
    }
}


// --- whole transactions ---

/// The ghost shape of a transaction.
pub struct TxView {
    pub sender: Address,
    pub body: BodyView,
}

pub open spec fn view_tx(t: EvmTransaction) -> TxView {
    TxView { sender: t.sender, body: view_body(t.body) }
}

pub open spec fn tx_view_ok(t: TxView) -> bool {
    body_view_ok(t.body)
}

#[verifier::opaque]
pub open spec fn spec_enc_tx(t: TxView) -> Seq<u8> {
    spec_enc_addr(t.sender) + spec_enc_body(t.body)
}

#[verifier::opaque]
pub open spec fn spec_dec_tx(s: Seq<u8>, i: int) -> Option<(TxView, int)> {
    match spec_dec_addr(s, i) {
        Some((sender, j)) => match spec_dec_body(s, j) {
            Some((body, k)) => Some((TxView { sender, body }, k)),
            None => None,
        },
        None => None,
    }
}

fn enc_tx(out: &mut Vec<u8>, t: &EvmTransaction)
    ensures
        final(out)@ == old(out)@ + spec_enc_tx(view_tx(*t)),
{
    proof {
        reveal(spec_enc_tx);
    }
    enc_addr(out, &t.sender);
    enc_body(out, &t.body);
    proof {
        assert(out@ =~= old(out)@ + spec_enc_tx(view_tx(*t)));
    }
}

fn dec_tx(buf: &Vec<u8>, pos: usize) -> (r: Option<(EvmTransaction, usize)>)
    requires
        pos <= buf@.len(),
    ensures
        r is Some <==> spec_dec_tx(buf@, pos as int) is Some,
        r is Some ==> Some((view_tx((r->Some_0).0), (r->Some_0).1 as int)) == spec_dec_tx(
            buf@,
            pos as int,
        ) && (r->Some_0).1 <= buf@.len(),
{
    proof {
        reveal(spec_dec_tx);
    }
    let (sender, j) = match dec_addr(buf, pos) {
        Some(p) => p,
        None => {
            return None;
        },
    };
    match dec_body(buf, j) {
        Some((body, k)) => Some((EvmTransaction { sender, body }, k)),
        None => None,
    }
}

proof fn lemma_tx_round_trip(t: TxView, pre: Seq<u8>, rest: Seq<u8>)
    requires
        tx_view_ok(t),
    ensures
        spec_dec_tx(pre + spec_enc_tx(t) + rest, pre.len() as int) == Some(
            (t, pre.len() + spec_enc_tx(t).len() as int),
        ),
{
    reveal(spec_enc_tx);
    reveal(spec_dec_tx);
    broadcast use lemma_enc_u64_len;

    let whole = pre + spec_enc_tx(t) + rest;
    assert(whole =~= pre + spec_enc_addr(t.sender) + (spec_enc_body(t.body) + rest));
    lemma_addr_round_trip(t.sender, pre, spec_enc_body(t.body) + rest);
    let p1 = pre + spec_enc_addr(t.sender);
    assert(whole =~= p1 + spec_enc_body(t.body) + rest);
    lemma_body_round_trip(t.body, p1, rest);
}

#[verifier::loop_isolation(false)]
fn enc_tx_list(out: &mut Vec<u8>, v: &Vec<EvmTransaction>)
    ensures
        final(out)@ == old(out)@ + spec_enc_vec(
            v@.map_values(|e: EvmTransaction| view_tx(e)),
            |x: TxView| spec_enc_tx(x),
        ),
{
    let ghost f = |x: TxView| spec_enc_tx(x);
    let ghost vs = v@.map_values(|e: EvmTransaction| view_tx(e));
    enc_u64(out, v.len() as u64);
    let ghost mid = out@;
    proof {
        assert(spec_enc_list(vs.take(0), f) =~= Seq::<u8>::empty());
        assert(mid + spec_enc_list(vs.take(0), f) =~= mid);
    }
    let mut i: usize = 0;
    while i < v.len()
        invariant
            i <= v@.len(),
            out@ == mid + spec_enc_list(vs.take(i as int), f),
        decreases v@.len() - i,
    {
        enc_tx(out, &v[i]);
        proof {
            assert(vs[i as int] == view_tx(v@[i as int]));
            lemma_enc_list_push(vs.take(i as int), vs[i as int], f);
            assert(vs.take(i as int + 1) =~= vs.take(i as int).push(vs[i as int]));
            assert(mid + spec_enc_list(vs.take(i as int), f) + f(vs[i as int]) =~= mid
                + spec_enc_list(vs.take(i as int + 1), f));
        }
        i = i + 1;
    }
    proof {
        assert(vs.take(vs.len() as int) =~= vs);
        assert(mid + spec_enc_list(vs, f) =~= old(out)@ + spec_enc_vec(vs, f));
    }
}

#[verifier::loop_isolation(false)]
fn dec_tx_list(buf: &Vec<u8>, pos: usize) -> (r: Option<(Vec<EvmTransaction>, usize)>)
    requires
        pos <= buf@.len(),
    ensures
        r is Some <==> spec_dec_vec(buf@, pos as int, |ss: Seq<u8>, ii: int| spec_dec_tx(ss, ii))
            is Some,
        r is Some ==> Some(
            ((r->Some_0).0@.map_values(|e: EvmTransaction| view_tx(e)), (r->Some_0).1 as int),
        ) == spec_dec_vec(buf@, pos as int, |ss: Seq<u8>, ii: int| spec_dec_tx(ss, ii)) && (
        r->Some_0).1 <= buf@.len(),
{
    let ghost g = |ss: Seq<u8>, ii: int| spec_dec_tx(ss, ii);
    let (n, j0) = match dec_u64(buf, pos) {
        Some(p) => p,
        None => {
            return None;
        },
    };
    let mut out: Vec<EvmTransaction> = Vec::new();
    let mut t: u64 = 0;
    let mut cur: usize = j0;
    proof {
        assert(out@.map_values(|e: EvmTransaction| view_tx(e)) =~= Seq::<TxView>::empty());
    }
    while t < n
        invariant
            t <= n,
            cur <= buf@.len(),
            (match spec_dec_list(buf@, j0 as int, n as int, g) {
                Some((xs, k)) => (match spec_dec_list(buf@, cur as int, n as int - t as int, g) {
                    Some((xs2, k2)) => xs == out@.map_values(|e: EvmTransaction| view_tx(e)) + xs2 && k == k2,
                    None => false,
                }),
                None => (spec_dec_list(buf@, cur as int, n as int - t as int, g) is None),
            }),
        decreases n - t,
    {
        let (x, nx) = match dec_tx(buf, cur) {
            Some(p) => p,
            None => {
                return None;
            },
        };
        let ghost prev = out@;
        out.push(x);
        proof {
            assert(out@.map_values(|e: EvmTransaction| view_tx(e)) =~= prev.map_values(
                |e: EvmTransaction| view_tx(e),
            ).push(view_tx(x)));
            let rest = spec_dec_list(buf@, nx as int, n as int - t as int - 1, g);
            if rest is Some {
                assert(out@.map_values(|e: EvmTransaction| view_tx(e)) + rest->Some_0.0 =~= prev.map_values(
                    |e: EvmTransaction| view_tx(e),
                ) + (seq![view_tx(x)] + rest->Some_0.0));
            }
        }
        cur = nx;
        t = t + 1;
    }
    proof {
        assert(spec_dec_list(buf@, cur as int, 0, g) == Some(
            (Seq::<TxView>::empty(), cur as int),
        ));
        assert(out@.map_values(|e: EvmTransaction| view_tx(e)) + Seq::<TxView>::empty() =~= out@.map_values(
            |e: EvmTransaction| view_tx(e),
        ));
    }
    Some((out, cur))
}

// --- the block environment ---

#[verifier::opaque]
pub open spec fn spec_enc_block_env(e: BlockEnv) -> Seq<u8> {
    spec_enc_u64(e.number) + spec_enc_u64(e.timestamp) + spec_enc_addr(e.coinbase)
        + spec_enc_word(e.basefee) + spec_enc_u64(e.gas_limit) + spec_enc_hash(e.prevrandao)
}

#[verifier::opaque]
pub open spec fn spec_dec_block_env(s: Seq<u8>, i: int) -> Option<(BlockEnv, int)> {
    match spec_dec_u64(s, i) {
        Some((number, j1)) => match spec_dec_u64(s, j1) {
            Some((timestamp, j2)) => match spec_dec_addr(s, j2) {
                Some((coinbase, j3)) => match spec_dec_word(s, j3) {
                    Some((basefee, j4)) => match spec_dec_u64(s, j4) {
                        Some((gas_limit, j5)) => match spec_dec_hash(s, j5) {
                            Some((prevrandao, j6)) => Some(
                                (
                                    BlockEnv {
                                        number,
                                        timestamp,
                                        coinbase,
                                        basefee,
                                        gas_limit,
                                        prevrandao,
                                    },
                                    j6,
                                ),
                            ),
                            None => None,
                        },
                        None => None,
                    },
                    None => None,
                },
                None => None,
            },
            None => None,
        },
        None => None,
    }
}

fn enc_block_env(out: &mut Vec<u8>, e: &BlockEnv)
    ensures
        final(out)@ == old(out)@ + spec_enc_block_env(*e),
{
    proof {
        reveal(spec_enc_block_env);
    }
    enc_u64(out, e.number);
    enc_u64(out, e.timestamp);
    enc_addr(out, &e.coinbase);
    enc_word(out, &e.basefee);
    enc_u64(out, e.gas_limit);
    enc_hash(out, &e.prevrandao);
    proof {
        assert(out@ =~= old(out)@ + spec_enc_block_env(*e));
    }
}

fn dec_block_env(buf: &Vec<u8>, pos: usize) -> (r: Option<(BlockEnv, usize)>)
    requires
        pos <= buf@.len(),
    ensures
        r is Some <==> spec_dec_block_env(buf@, pos as int) is Some,
        r is Some ==> Some(((r->Some_0).0, (r->Some_0).1 as int)) == spec_dec_block_env(
            buf@,
            pos as int,
        ) && (r->Some_0).1 <= buf@.len(),
{
    proof {
        reveal(spec_dec_block_env);
    }
    let (number, j1) = match dec_u64(buf, pos) {
        Some(p) => p,
        None => {
            return None;
        },
    };
    let (timestamp, j2) = match dec_u64(buf, j1) {
        Some(p) => p,
        None => {
            return None;
        },
    };
    let (coinbase, j3) = match dec_addr(buf, j2) {
        Some(p) => p,
        None => {
            return None;
        },
    };
    let (basefee, j4) = match dec_word(buf, j3) {
        Some(p) => p,
        None => {
            return None;
        },
    };
    let (gas_limit, j5) = match dec_u64(buf, j4) {
        Some(p) => p,
        None => {
            return None;
        },
    };
    let (prevrandao, j6) = match dec_hash(buf, j5) {
        Some(p) => p,
        None => {
            return None;
        },
    };
    Some((BlockEnv { number, timestamp, coinbase, basefee, gas_limit, prevrandao }, j6))
}

#[verifier::rlimit(100)]
#[verifier::spinoff_prover]
proof fn lemma_block_env_round_trip(e: BlockEnv, pre: Seq<u8>, rest: Seq<u8>)
    ensures
        spec_dec_block_env(pre + spec_enc_block_env(e) + rest, pre.len() as int) == Some(
            (e, pre.len() + spec_enc_block_env(e).len() as int),
        ),
{
    reveal(spec_enc_block_env);
    reveal(spec_dec_block_env);
    broadcast use lemma_enc_u64_len;

    let whole = pre + spec_enc_block_env(e) + rest;
    let p1 = pre;
    assert(whole =~= p1 + spec_enc_u64(e.number) + (spec_enc_u64(e.timestamp) + spec_enc_addr(
        e.coinbase,
    ) + spec_enc_word(e.basefee) + spec_enc_u64(e.gas_limit) + spec_enc_hash(e.prevrandao)
        + rest));
    lemma_u64_round_trip(
        e.number,
        p1,
        spec_enc_u64(e.timestamp) + spec_enc_addr(e.coinbase) + spec_enc_word(e.basefee)
            + spec_enc_u64(e.gas_limit) + spec_enc_hash(e.prevrandao) + rest,
    );
    let p2 = p1 + spec_enc_u64(e.number);
    assert(whole =~= p2 + spec_enc_u64(e.timestamp) + (spec_enc_addr(e.coinbase)
        + spec_enc_word(e.basefee) + spec_enc_u64(e.gas_limit) + spec_enc_hash(e.prevrandao)
        + rest));
    lemma_u64_round_trip(
        e.timestamp,
        p2,
        spec_enc_addr(e.coinbase) + spec_enc_word(e.basefee) + spec_enc_u64(e.gas_limit)
            + spec_enc_hash(e.prevrandao) + rest,
    );
    let p3 = p2 + spec_enc_u64(e.timestamp);
    assert(whole =~= p3 + spec_enc_addr(e.coinbase) + (spec_enc_word(e.basefee) + spec_enc_u64(
        e.gas_limit,
    ) + spec_enc_hash(e.prevrandao) + rest));
    lemma_addr_round_trip(
        e.coinbase,
        p3,
        spec_enc_word(e.basefee) + spec_enc_u64(e.gas_limit) + spec_enc_hash(e.prevrandao)
            + rest,
    );
    let p4 = p3 + spec_enc_addr(e.coinbase);
    assert(whole =~= p4 + spec_enc_word(e.basefee) + (spec_enc_u64(e.gas_limit)
        + spec_enc_hash(e.prevrandao) + rest));
    lemma_word_round_trip(
        e.basefee,
        p4,
        spec_enc_u64(e.gas_limit) + spec_enc_hash(e.prevrandao) + rest,
    );
    let p5 = p4 + spec_enc_word(e.basefee);
    assert(whole =~= p5 + spec_enc_u64(e.gas_limit) + (spec_enc_hash(e.prevrandao) + rest));
    lemma_u64_round_trip(e.gas_limit, p5, spec_enc_hash(e.prevrandao) + rest);
    let p6 = p5 + spec_enc_u64(e.gas_limit);
    assert(whole =~= p6 + spec_enc_hash(e.prevrandao) + rest);
    lemma_hash_round_trip(e.prevrandao, p6, rest);
}


// --- transitions ---

/// The canonical parts of a state log, as decoding returns them.
pub type LogParts = (
    Seq<(Address, Access<Account>)>,
    Seq<(EvmStorageAddress, Access<Word256>)>,
    Seq<(u64, Option<Hash256>)>,
);

/// The ghost shape of a transition.
pub enum TransitionView {
    Applied(Hash256, Hash256),
    Logged(LogParts),
    Hybrid(Hash256, Hash256, LogParts),
}

pub open spec fn view_log(l: EvmStateLog) -> LogParts {
    (l.accounts_view(), l.storage_view(), l.blockhashes_view())
}

pub open spec fn view_transition(t: Transition<Hash256, EvmStateLog>) -> TransitionView {
    match t {
        Transition::Applied(a, b) => TransitionView::Applied(a, b),
        Transition::Logged(l) => TransitionView::Logged(view_log(l)),
        Transition::Hybrid(a, b, l) => TransitionView::Hybrid(a, b, view_log(l)),
    }
}

pub open spec fn log_ok(l: EvmStateLog) -> bool {
    &&& l.wf()
    &&& l.accounts_view().len() <= u64::MAX
    &&& l.storage_view().len() <= u64::MAX
    &&& l.blockhashes_view().len() <= u64::MAX
}

pub open spec fn transition_ok(t: Transition<Hash256, EvmStateLog>) -> bool {
    match t {
        Transition::Applied(_, _) => true,
        Transition::Logged(l) => log_ok(l),
        Transition::Hybrid(_, _, l) => log_ok(l),
    }
}

#[verifier::opaque]
pub open spec fn spec_enc_transition(t: Transition<Hash256, EvmStateLog>) -> Seq<u8> {
    match t {
        Transition::Applied(a, b) => seq![CODEC_VERSION, 0u8] + spec_enc_hash(a)
            + spec_enc_hash(b),
        Transition::Logged(l) => seq![CODEC_VERSION, 1u8] + spec_enc_state_log(l),
        Transition::Hybrid(a, b, l) => seq![CODEC_VERSION, 2u8] + spec_enc_hash(a)
            + spec_enc_hash(b) + spec_enc_state_log(l),
    }
}

#[verifier::opaque]
pub open spec fn spec_dec_transition(s: Seq<u8>, i: int) -> Option<(TransitionView, int)> {
    match spec_dec_u8(s, i) {
        Some((ver, j0)) => if ver == CODEC_VERSION {
            match spec_dec_u8(s, j0) {
                Some((tag, j)) => if tag == 0 {
                    match spec_dec_hash(s, j) {
                        Some((a, k)) => match spec_dec_hash(s, k) {
                            Some((b, k2)) => Some((TransitionView::Applied(a, b), k2)),
                            None => None,
                        },
                        None => None,
                    }
                } else if tag == 1 {
                    match spec_dec_log_parts(s, j) {
                        Some((parts, k)) => Some((TransitionView::Logged(parts), k)),
                        None => None,
                    }
                } else if tag == 2 {
                    match spec_dec_hash(s, j) {
                        Some((a, k)) => match spec_dec_hash(s, k) {
                            Some((b, k2)) => match spec_dec_log_parts(s, k2) {
                                Some((parts, k3)) => Some(
                                    (TransitionView::Hybrid(a, b, parts), k3),
                                ),
                                None => None,
                            },
                            None => None,
                        },
                        None => None,
                    }
                } else {
                    None
                },
                None => None,
            }
        } else {
            None
        },
        None => None,
    }
}

/// Serialize a transition into the canonical schema.
pub fn encode_transition(t: &Transition<Hash256, EvmStateLog>) -> (r: Vec<u8>)
    ensures
        r@ == spec_enc_transition(*t),
{
    proof {
        reveal(spec_enc_transition);
    }
    let mut out: Vec<u8> = Vec::new();
    out.push(CODEC_VERSION);
    match t {
        Transition::Applied(a, b) => {
            out.push(0u8);
            enc_hash(&mut out, a);
            enc_hash(&mut out, b);
        },
        Transition::Logged(l) => {
            out.push(1u8);
            let encoded = encode_state_log(l);
            let mut i: usize = 0;
            let ghost mid = out@;
            #[verifier::loop_isolation(false)]
            while i < encoded.len()
                invariant
                    i <= encoded@.len(),
                    out@ == mid + encoded@.take(i as int),
                decreases encoded@.len() - i,
            {
                out.push(encoded[i]);
                proof {
                    assert(mid + encoded@.take(i as int) + seq![encoded@[i as int]] =~= mid
                        + encoded@.take(i as int + 1));
                }
                i = i + 1;
            }
            proof {
                assert(encoded@.take(encoded@.len() as int) =~= encoded@);
            }
        },
        Transition::Hybrid(a, b, l) => {
            out.push(2u8);
            enc_hash(&mut out, a);
            enc_hash(&mut out, b);
            let encoded = encode_state_log(l);
            let mut i: usize = 0;
            let ghost mid = out@;
            #[verifier::loop_isolation(false)]
            while i < encoded.len()
                invariant
                    i <= encoded@.len(),
                    out@ == mid + encoded@.take(i as int),
                decreases encoded@.len() - i,
            {
                out.push(encoded[i]);
                proof {
                    assert(mid + encoded@.take(i as int) + seq![encoded@[i as int]] =~= mid
                        + encoded@.take(i as int + 1));
                }
                i = i + 1;
            }
            proof {
                assert(encoded@.take(encoded@.len() as int) =~= encoded@);
            }
        },
    }
    proof {
        assert(out@ =~= spec_enc_transition(*t));
    }
    out
}

/// Deserialize a transition, rejecting non-canonical input.
pub fn decode_transition(buf: &Vec<u8>, pos: usize) -> (r: Option<
    (Transition<Hash256, EvmStateLog>, usize),
>)
    requires
        pos <= buf@.len(),
    ensures
        r is Some <==> spec_dec_transition(buf@, pos as int) is Some,
        r is Some ==> {
            &&& Some((view_transition((r->Some_0).0), (r->Some_0).1 as int))
                == spec_dec_transition(buf@, pos as int)
            &&& crate::tx_trie::transition_wf((r->Some_0).0)
            &&& (r->Some_0).1 <= buf@.len()
        },
{
    proof {
        reveal(spec_dec_transition);
    }
    let (ver, j0) = match dec_u8(buf, pos) {
        Some(p) => p,
        None => {
            return None;
        },
    };
    if ver != CODEC_VERSION {
        return None;
    }
    let (tag, j) = match dec_u8(buf, j0) {
        Some(p) => p,
        None => {
            return None;
        },
    };
    if tag == 0 {
        let (a, k) = match dec_hash(buf, j) {
            Some(p) => p,
            None => {
                return None;
            },
        };
        match dec_hash(buf, k) {
            Some((b, k2)) => Some((Transition::Applied(a, b), k2)),
            None => None,
        }
    } else if tag == 1 {
        match decode_state_log(buf, j) {
            Some((l, k)) => Some((Transition::Logged(l), k)),
            None => None,
        }
    } else if tag == 2 {
        let (a, k) = match dec_hash(buf, j) {
            Some(p) => p,
            None => {
                return None;
            },
        };
        let (b, k2) = match dec_hash(buf, k) {
            Some(p) => p,
            None => {
                return None;
            },
        };
        match decode_state_log(buf, k2) {
            Some((l, k3)) => Some((Transition::Hybrid(a, b, l), k3)),
            None => None,
        }
    } else {
        None
    }
}

/// A transition reads back with exactly its canonical parts.
#[verifier::rlimit(100)]
#[verifier::spinoff_prover]
pub proof fn lemma_transition_round_trip(
    t: Transition<Hash256, EvmStateLog>,
    pre: Seq<u8>,
    rest: Seq<u8>,
)
    requires
        transition_ok(t),
    ensures
        spec_dec_transition(pre + spec_enc_transition(t) + rest, pre.len() as int) == Some(
            (view_transition(t), pre.len() + spec_enc_transition(t).len() as int),
        ),
{
    reveal(spec_enc_transition);
    reveal(spec_dec_transition);
    broadcast use lemma_enc_u64_len;

    let whole = pre + spec_enc_transition(t) + rest;
    assert(whole[pre.len() as int] == CODEC_VERSION);
    match t {
        Transition::Applied(a, b) => {
            assert(whole[pre.len() as int + 1] == 0u8);
            let p1 = pre + seq![CODEC_VERSION, 0u8];
            assert(whole =~= p1 + spec_enc_hash(a) + (spec_enc_hash(b) + rest));
            lemma_hash_round_trip(a, p1, spec_enc_hash(b) + rest);
            let p2 = p1 + spec_enc_hash(a);
            assert(whole =~= p2 + spec_enc_hash(b) + rest);
            lemma_hash_round_trip(b, p2, rest);
        },
        Transition::Logged(l) => {
            assert(whole[pre.len() as int + 1] == 1u8);
            let p1 = pre + seq![CODEC_VERSION, 1u8];
            assert(whole =~= p1 + spec_enc_state_log(l) + rest);
            lemma_state_log_round_trip(l, p1, rest);
        },
        Transition::Hybrid(a, b, l) => {
            assert(whole[pre.len() as int + 1] == 2u8);
            let p1 = pre + seq![CODEC_VERSION, 2u8];
            assert(whole =~= p1 + spec_enc_hash(a) + (spec_enc_hash(b) + spec_enc_state_log(l)
                + rest));
            lemma_hash_round_trip(a, p1, spec_enc_hash(b) + spec_enc_state_log(l) + rest);
            let p2 = p1 + spec_enc_hash(a);
            assert(whole =~= p2 + spec_enc_hash(b) + (spec_enc_state_log(l) + rest));
            lemma_hash_round_trip(b, p2, spec_enc_state_log(l) + rest);
            let p3 = p2 + spec_enc_hash(b);
            assert(whole =~= p3 + spec_enc_state_log(l) + rest);
            lemma_state_log_round_trip(l, p3, rest);
        },
    }
}

// --- transaction trees ---

/// The ghost shape of a transaction tree.
pub struct TreeView {
    pub includes: Seq<TxView>,
    pub state_change: TransitionView,
    pub env: BlockEnv,
}

pub open spec fn view_tree(t: TxTree<Hash256, EvmTransaction, EvmStateLog, BlockEnv>) -> TreeView {
    TreeView {
        includes: t.includes@.map_values(|e: EvmTransaction| view_tx(e)),
        state_change: view_transition(t.state_change),
        env: t.env,
    }
}

pub open spec fn tree_ok(t: TxTree<Hash256, EvmTransaction, EvmStateLog, BlockEnv>) -> bool {
    &&& t.includes@.len() <= u64::MAX
    &&& (forall|i: int|
        0 <= i < t.includes@.len() ==> tx_view_ok(view_tx(#[trigger] t.includes@[i])))
    &&& transition_ok(t.state_change)
}

pub open spec fn spec_enc_tx_tree(t: TxTree<Hash256, EvmTransaction, EvmStateLog, BlockEnv>) -> Seq<
    u8,
> {
    seq![CODEC_VERSION] + spec_enc_vec(
        t.includes@.map_values(|e: EvmTransaction| view_tx(e)),
        |x: TxView| spec_enc_tx(x),
    ) + spec_enc_transition(t.state_change) + spec_enc_block_env(t.env)
}

pub open spec fn spec_dec_tx_tree(s: Seq<u8>, i: int) -> Option<(TreeView, int)> {
    match spec_dec_u8(s, i) {
        Some((ver, j0)) => if ver == CODEC_VERSION {
            match spec_dec_vec(s, j0, |ss: Seq<u8>, ii: int| spec_dec_tx(ss, ii)) {
                Some((txs, j1)) => match spec_dec_transition(s, j1) {
                    Some((tv, j2)) => match spec_dec_block_env(s, j2) {
                        Some((env, j3)) => Some(
                            (TreeView { includes: txs, state_change: tv, env }, j3),
                        ),
                        None => None,
                    },
                    None => None,
                },
                None => None,
            }
        } else {
            None
        },
        None => None,
    }
}

/// Serialize a transaction tree into the canonical schema.
pub fn encode_tx_tree(t: &TxTree<Hash256, EvmTransaction, EvmStateLog, BlockEnv>) -> (r: Vec<u8>)
    ensures
        r@ == spec_enc_tx_tree(*t),
{
    let mut out: Vec<u8> = Vec::new();
    out.push(CODEC_VERSION);
    enc_tx_list(&mut out, &t.includes);
    let encoded = encode_transition(&t.state_change);
    let mut i: usize = 0;
    let ghost mid = out@;
    #[verifier::loop_isolation(false)]
    while i < encoded.len()
        invariant
            i <= encoded@.len(),
            out@ == mid + encoded@.take(i as int),
        decreases encoded@.len() - i,
    {
        out.push(encoded[i]);
        proof {
            assert(mid + encoded@.take(i as int) + seq![encoded@[i as int]] =~= mid
                + encoded@.take(i as int + 1));
        }
        i = i + 1;
    }
    proof {
        assert(encoded@.take(encoded@.len() as int) =~= encoded@);
    }
    enc_block_env(&mut out, &t.env);
    proof {
        assert(out@ =~= spec_enc_tx_tree(*t));
    }
    out
}

/// Deserialize a transaction tree, rejecting non-canonical input.
pub fn decode_tx_tree(buf: &Vec<u8>, pos: usize) -> (r: Option<
    (TxTree<Hash256, EvmTransaction, EvmStateLog, BlockEnv>, usize),
>)
    requires
        pos <= buf@.len(),
    ensures
        r is Some <==> spec_dec_tx_tree(buf@, pos as int) is Some,
        r is Some ==> {
            &&& Some((view_tree((r->Some_0).0), (r->Some_0).1 as int)) == spec_dec_tx_tree(
                buf@,
                pos as int,
            )
            &&& (r->Some_0).0.wf()
            &&& (r->Some_0).1 <= buf@.len()
        },
{
    let (ver, j0) = match dec_u8(buf, pos) {
        Some(p) => p,
        None => {
            return None;
        },
    };
    if ver != CODEC_VERSION {
        return None;
    }
    let (includes, j1) = match dec_tx_list(buf, j0) {
        Some(p) => p,
        None => {
            return None;
        },
    };
    let (state_change, j2) = match decode_transition(buf, j1) {
        Some(p) => p,
        None => {
            return None;
        },
    };
    match dec_block_env(buf, j2) {
        Some((env, j3)) => Some((TxTree { includes, state_change, env }, j3)),
        None => None,
    }
}

/// A transaction tree reads back with exactly its canonical parts.
#[verifier::rlimit(100)]
#[verifier::spinoff_prover]
pub proof fn lemma_tx_tree_round_trip(
    t: TxTree<Hash256, EvmTransaction, EvmStateLog, BlockEnv>,
    pre: Seq<u8>,
    rest: Seq<u8>,
)
    requires
        tree_ok(t),
    ensures
        spec_dec_tx_tree(pre + spec_enc_tx_tree(t) + rest, pre.len() as int) == Some(
            (view_tree(t), pre.len() + spec_enc_tx_tree(t).len() as int),
        ),
{
    broadcast use lemma_enc_u64_len;

    let ft = |x: TxView| spec_enc_tx(x);
    let gt = |ss: Seq<u8>, ii: int| spec_dec_tx(ss, ii);
    let txs = t.includes@.map_values(|e: EvmTransaction| view_tx(e));
    let whole = pre + spec_enc_tx_tree(t) + rest;
    assert(whole[pre.len() as int] == CODEC_VERSION);
    let p1 = pre + seq![CODEC_VERSION];
    assert forall|k2: int, p: Seq<u8>, r2: Seq<u8>| 0 <= k2 < txs.len() implies #[trigger] gt(
        p + ft(txs[k2]) + r2,
        p.len() as int,
    ) == Some((txs[k2], p.len() + ft(txs[k2]).len() as int)) by {
        assert(txs[k2] == view_tx(t.includes@[k2]));
        lemma_tx_round_trip(txs[k2], p, r2);
    }
    assert(whole =~= p1 + spec_enc_vec(txs, ft) + (spec_enc_transition(t.state_change)
        + spec_enc_block_env(t.env) + rest));
    lemma_vec_round_trip(
        txs,
        p1,
        spec_enc_transition(t.state_change) + spec_enc_block_env(t.env) + rest,
        ft,
        gt,
    );
    let p2 = p1 + spec_enc_vec(txs, ft);
    assert(whole =~= p2 + spec_enc_transition(t.state_change) + (spec_enc_block_env(t.env)
        + rest));
    lemma_transition_round_trip(
        t.state_change,
        p2,
        spec_enc_block_env(t.env) + rest,
    );
    let p3 = p2 + spec_enc_transition(t.state_change);
    assert(whole =~= p3 + spec_enc_block_env(t.env) + rest);
    lemma_block_env_round_trip(t.env, p3, rest);
}

} // verus!
