//! The canonical byte schema (round trips for every persisted object) and
//! the host database's self-verification: inline-code rejection, code
//! hashing, block-hash requests, storage defaults, and committed
//! change-sets.

use amethyst_core::ari::{AccessListItem, EvmTransaction, TransactionAction, TransactionBody};
use amethyst_core::codec;
use amethyst_core::db::{AccountChange, AccountPayload, HostDB, HostDBError};
use amethyst_core::primitives::{Account, Address, BlockEnv, Hash256, Word256};
use amethyst_core::tx_trie::{Transition, TxTree};
use amethyst_core::verifiable_state::access::{Access, Modified};
use amethyst_core::verifiable_state::evm::{EvmStateLog, EvmStorageAddress};
use amethyst_core::verifiable_state::{EvmStateEntry, OrderedReadLog, OrderedRwLog};

fn addr(n: u64) -> Address {
    Address::new(0, 0, n)
}

fn acct(balance: u64) -> Account {
    Account::new(2, Word256::from_u64(balance), Hash256::from_u64(3))
}

fn w(n: u64) -> Word256 {
    Word256::from_u64(n)
}

fn sample_log() -> EvmStateLog {
    let mut log = EvmStateLog::new();
    log.add_write(EvmStateEntry::Accounts(addr(1), Some(acct(10))));
    log.add_read(&EvmStateEntry::Accounts(addr(2), None)).unwrap();
    log.add_write(EvmStateEntry::Storage(EvmStorageAddress(addr(1), w(0)), Some(w(5))));
    log.add_write(EvmStateEntry::Storage(EvmStorageAddress(addr(1), w(1)), None));
    log.add_read(&EvmStateEntry::Blockhash(9, Some(Hash256::from_u64(9)))).unwrap();
    log
}

#[test]
fn round_trip_access_records() {
    let records: Vec<Access<Account>> = vec![
        Access::Read(None),
        Access::Read(Some(acct(1))),
        Access::Write(None),
        Access::Write(Some(acct(2))),
        Access::ReadThenWrite(Modified { original: Some(acct(1)), modified: None }),
    ];
    for a in records.iter() {
        let mut buf: Vec<u8> = Vec::new();
        codec::enc_access_account(&mut buf, a);
        let (back, end) = codec::dec_access_account(&buf, 0).unwrap();
        assert_eq!(back, *a);
        assert_eq!(end, buf.len());
    }
    let word_record: Access<Word256> =
        Access::ReadThenWrite(Modified { original: Some(w(5)), modified: Some(w(7)) });
    let mut buf: Vec<u8> = Vec::new();
    codec::enc_access_word(&mut buf, &word_record);
    let (back, end) = codec::dec_access_word(&buf, 0).unwrap();
    assert_eq!(back, word_record);
    assert_eq!(end, buf.len());
}

#[test]
fn round_trip_state_entry() {
    let entries = vec![
        EvmStateEntry::Accounts(addr(1), Some(acct(7))),
        EvmStateEntry::Accounts(addr(1), None),
        EvmStateEntry::Storage(EvmStorageAddress(addr(1), w(2)), Some(w(9))),
        EvmStateEntry::Storage(EvmStorageAddress(addr(1), w(2)), None),
        EvmStateEntry::Blockhash(5, Some(Hash256::from_u64(5))),
        EvmStateEntry::Blockhash(5, None),
    ];
    for e in entries.iter() {
        let buf = codec::encode_state_entry(e);
        let (back, end) = codec::decode_state_entry(&buf, 0).unwrap();
        assert_eq!(back, *e);
        assert_eq!(end, buf.len());
    }
}

#[test]
fn round_trip_state_log() {
    let log = sample_log();
    let buf = codec::encode_state_log(&log);
    let (back, end) = codec::decode_state_log(&buf, 0).unwrap();
    assert_eq!(end, buf.len());
    assert_eq!(codec::encode_state_log(&back), buf);
    assert_eq!(back.get_account(&addr(1)), log.get_account(&addr(1)));
    assert_eq!(
        back.get_storage(&EvmStorageAddress(addr(1), w(1))),
        Some(Access::Write(None))
    );
}

#[test]
fn decode_rejects_wrong_version() {
    let log = sample_log();
    let mut buf = codec::encode_state_log(&log);
    buf[0] = buf[0].wrapping_add(1);
    assert!(codec::decode_state_log(&buf, 0).is_none());
}

fn sample_tx() -> EvmTransaction {
    EvmTransaction {
        sender: addr(0x11),
        body: TransactionBody::EIP2930 {
            chain_id: 7,
            nonce: 3,
            gas_price: w(100),
            gas_limit: 21000,
            action: TransactionAction::Call(addr(0x22)),
            value: w(1),
            input: vec![0xde, 0xad],
            access_list: vec![AccessListItem { address: addr(0x33), slots: vec![w(0)] }],
        },
    }
}

#[test]
fn round_trip_transition() {
    let cases: Vec<Transition<Hash256, EvmStateLog>> = vec![
        Transition::Applied(Hash256::from_u64(1), Hash256::from_u64(2)),
        Transition::Logged(sample_log()),
        Transition::Hybrid(Hash256::from_u64(1), Hash256::from_u64(2), sample_log()),
    ];
    for t in cases.into_iter() {
        let buf = codec::encode_transition(&t);
        let (back, end) = codec::decode_transition(&buf, 0).unwrap();
        assert_eq!(end, buf.len());
        assert_eq!(codec::encode_transition(&back), buf);
    }
}

#[test]
fn round_trip_tx_tree() {
    let t: TxTree<Hash256, EvmTransaction, EvmStateLog, BlockEnv> = TxTree {
        includes: vec![sample_tx()],
        state_change: Transition::Hybrid(
            Hash256::from_u64(4),
            Hash256::from_u64(5),
            sample_log(),
        ),
        env: BlockEnv {
            number: 12,
            timestamp: 34,
            coinbase: addr(0x44),
            basefee: w(7),
            gas_limit: 30_000_000,
            prevrandao: Hash256::from_u64(8),
        },
    };
    let buf = codec::encode_tx_tree(&t);
    let (back, end) = codec::decode_tx_tree(&buf, 0).unwrap();
    assert_eq!(end, buf.len());
    assert_eq!(back.includes, t.includes);
    assert_eq!(back.env, t.env);
    assert_eq!(codec::encode_tx_tree(&back), buf);
}

#[test]
fn basic_rejects_inline_code() {
    let mut db = HostDB::from_log(EvmStateLog::new());
    let payload = AccountPayload { info: acct(1), code: Some(vec![0x60, 0x00]) };
    let r = db.basic(addr(1), Some(payload));
    assert_eq!(r, Err(HostDBError::UnverifiedBytecode));
    // The rejected payload leaves no trace in the log.
    let log = db.into_log();
    assert_eq!(log.get_account(&addr(1)), None);
}

#[test]
fn basic_records_witnessed_read() {
    let mut db = HostDB::from_log(EvmStateLog::new());
    let payload = AccountPayload { info: acct(1), code: None };
    let r = db.basic(addr(1), Some(payload));
    assert_eq!(r, Ok(Some(acct(1))));
    let log = db.into_log();
    assert_eq!(log.get_account(&addr(1)), Some(Access::Read(Some(acct(1)))));
}

#[test]
fn code_by_hash_accepts_only_matching_hash() {
    // Keccak-256 of the empty byte string.
    let empty_hash = Hash256::new(
        0xc5d2460186f7233c,
        0x927e7db2dcc703c0,
        0xe500b653ca82273b,
        0x7bfad8045d85a470,
    );
    let mut db = HostDB::from_log(EvmStateLog::new());
    let bc = db.code_by_hash(empty_hash, Vec::new()).unwrap();
    assert_eq!(bc.hash, empty_hash);
    assert!(bc.bytes.is_empty());
    // Any other requested hash must be rejected: the digest is computed,
    // not taken from the host.
    let r = db.code_by_hash(Hash256::from_u64(1), Vec::new());
    assert_eq!(r, Err(HostDBError::HashMismatch));
    let r2 = db.code_by_hash(empty_hash, vec![1]);
    assert_eq!(r2, Err(HostDBError::HashMismatch));
}

#[test]
fn storage_defaults_absent_slot_to_zero() {
    let mut db = HostDB::from_log(EvmStateLog::new());
    let r = db.storage(addr(1), w(0), None);
    assert_eq!(r, Ok(Word256::zero()));
    let r2 = db.storage(addr(1), w(1), Some(w(9)));
    assert_eq!(r2, Ok(w(9)));
}

#[test]
fn block_hash_rejects_absent_hash() {
    let mut db = HostDB::from_log(EvmStateLog::new());
    let r = db.block_hash(7, None);
    assert_eq!(r, Err(HostDBError::InvalidBlockHashRequest));
    let r2 = db.block_hash(8, Some(Hash256::from_u64(8)));
    assert_eq!(r2, Ok(Hash256::from_u64(8)));
}

#[test]
fn block_hash_disagreement_is_causality_violation() {
    let mut db = HostDB::from_log(EvmStateLog::new());
    db.block_hash(7, Some(Hash256::from_u64(1))).unwrap();
    let r = db.block_hash(7, Some(Hash256::from_u64(2)));
    assert_eq!(r, Err(HostDBError::CausalityViolation));
}

#[test]
fn commit_writes_accounts_then_storage() {
    let mut db = HostDB::from_log(EvmStateLog::new());
    let changes = vec![
        (
            addr(1),
            AccountChange {
                info: acct(50),
                storage: vec![(w(0), w(7)), (w(1), w(0))],
                is_destroyed: false,
                is_empty: false,
            },
        ),
        (
            addr(2),
            AccountChange {
                info: acct(0),
                storage: Vec::new(),
                is_destroyed: true,
                is_empty: false,
            },
        ),
    ];
    db.commit(changes);
    let log = db.into_log();
    assert_eq!(log.get_account(&addr(1)), Some(Access::Write(Some(acct(50)))));
    // A destroyed account collapses to a deletion.
    assert_eq!(log.get_account(&addr(2)), Some(Access::Write(None)));
    assert_eq!(
        log.get_storage(&EvmStorageAddress(addr(1), w(0))),
        Some(Access::Write(Some(w(7))))
    );
    // A zero word is encoded as a deletion, matching the sparse layer, and
    // a subsequent read observing absence is consistent.
    assert_eq!(
        log.get_storage(&EvmStorageAddress(addr(1), w(1))),
        Some(Access::Write(None))
    );
    let mut log = log;
    let r = log.add_read(&EvmStateEntry::Storage(EvmStorageAddress(addr(1), w(1)), None));
    assert_eq!(r, Ok(()));
}

#[test]
fn zero_storage_write_serializes_as_deletion() {
    let key = EvmStorageAddress(addr(1), w(1));
    let deleted = EvmStateEntry::Storage(key, None);
    let buf = codec::encode_state_entry(&deleted);
    let (back, _) = codec::decode_state_entry(&buf, 0).unwrap();
    assert_eq!(back, EvmStateEntry::Storage(key, None));
}
