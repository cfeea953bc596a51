//! The access algebra and the EVM-keyed state log: merge table cells,
//! associativity samples, the concrete read/write scenarios, merge
//! identity, ordering, determinism, and the split/merge round trip.

use amethyst_core::primitives::{Account, Address, Hash256, Word256};
use amethyst_core::verifiable_state::access::{Access, Modified};
use amethyst_core::verifiable_state::evm::{
    AccessEvent, EvmStateLog, EvmStorageAddress,
};
use amethyst_core::verifiable_state::{
    EvmStateEntry, MergeableLog, OrderedReadLog, OrderedRwLog,
};
use amethyst_core::MergeError;

fn addr(n: u64) -> Address {
    Address::new(0, 0, n)
}

fn acct(balance: u64) -> Account {
    Account::new(1, Word256::from_u64(balance), Hash256::from_u64(0))
}

fn w(n: u64) -> Word256 {
    Word256::from_u64(n)
}

#[test]
fn merge_read_read_match() {
    let a: Access<Word256> = Access::Read(Some(w(5)));
    let b: Access<Word256> = Access::Read(Some(w(5)));
    assert_eq!(a.merge(b), Ok(Access::Read(Some(w(5)))));
}

#[test]
fn merge_read_read_mismatch() {
    let a: Access<Word256> = Access::Read(Some(w(5)));
    let b: Access<Word256> = Access::Read(Some(w(6)));
    assert_eq!(a.merge(b), Err(MergeError::CausalityViolation));
}

#[test]
fn merge_read_write_promotes() {
    let a: Access<Word256> = Access::Read(Some(w(5)));
    let b: Access<Word256> = Access::Write(Some(w(7)));
    assert_eq!(
        a.merge(b),
        Ok(Access::ReadThenWrite(Modified { original: Some(w(5)), modified: Some(w(7)) }))
    );
}

#[test]
fn merge_write_then_write_keeps_last() {
    let a: Access<Word256> = Access::Write(Some(w(5)));
    let b: Access<Word256> = Access::Write(None);
    assert_eq!(a.merge(b), Ok(Access::Write(None)));
}

#[test]
fn merge_associative_samples() {
    // A sample of triples over the nine-cell table; both groupings must
    // agree whenever all intermediate merges succeed.
    let vals = [None, Some(w(1)), Some(w(2))];
    let mut cases: Vec<Access<Word256>> = Vec::new();
    for v in vals.iter() {
        cases.push(Access::Read(*v));
        cases.push(Access::Write(*v));
        for v2 in vals.iter() {
            cases.push(Access::ReadThenWrite(Modified { original: *v, modified: *v2 }));
        }
    }
    let mut checked: u64 = 0;
    for a in cases.iter() {
        for b in cases.iter() {
            for c in cases.iter() {
                let left = a.merge(*b).and_then(|ab| ab.merge(*c));
                let right = b.merge(*c).and_then(|bc| a.merge(bc));
                if let (Ok(l), Ok(r)) = (&left, &right) {
                    assert_eq!(l, r);
                    checked += 1;
                }
            }
        }
    }
    assert!(checked > 0);
}

#[test]
fn single_read_then_write_same_slot() {
    // A storage slot read as Some(5), then written to 7, collapses to a
    // read-then-write record.
    let mut log = EvmStateLog::new();
    let key = EvmStorageAddress(Address::new(0, 0, 1), w(0));
    log.add_read(&EvmStateEntry::Storage(key, Some(w(5)))).unwrap();
    log.add_write(EvmStateEntry::Storage(key, Some(w(7))));
    assert_eq!(
        log.get_storage(&key),
        Some(Access::ReadThenWrite(Modified { original: Some(w(5)), modified: Some(w(7)) }))
    );
}

#[test]
fn write_then_read_matching() {
    let mut log = EvmStateLog::new();
    let a = addr(0xaa);
    log.add_write(EvmStateEntry::Accounts(a, Some(acct(100))));
    log.add_read(&EvmStateEntry::Accounts(a, Some(acct(100)))).unwrap();
    assert_eq!(log.get_account(&a), Some(Access::Write(Some(acct(100)))));
}

#[test]
fn write_then_read_mismatching() {
    let mut log = EvmStateLog::new();
    let a = addr(0xaa);
    log.add_write(EvmStateEntry::Accounts(a, Some(acct(100))));
    let r = log.add_read(&EvmStateEntry::Accounts(a, Some(acct(99))));
    assert_eq!(r, Err(MergeError::CausalityViolation));
}

#[test]
fn blockhash_reads_must_agree() {
    let mut log = EvmStateLog::new();
    log.add_read(&EvmStateEntry::Blockhash(7, Some(Hash256::from_u64(1)))).unwrap();
    log.add_read(&EvmStateEntry::Blockhash(7, Some(Hash256::from_u64(1)))).unwrap();
    let r = log.add_read(&EvmStateEntry::Blockhash(7, Some(Hash256::from_u64(2))));
    assert_eq!(r, Err(MergeError::CausalityViolation));
}

fn sample_log() -> EvmStateLog {
    let mut log = EvmStateLog::new();
    log.add_read(&EvmStateEntry::Accounts(addr(3), Some(acct(30)))).unwrap();
    log.add_write(EvmStateEntry::Accounts(addr(1), Some(acct(10))));
    log.add_read(&EvmStateEntry::Storage(
        EvmStorageAddress(addr(1), w(0)),
        Some(w(5)),
    ))
    .unwrap();
    log.add_read(&EvmStateEntry::Blockhash(9, Some(Hash256::from_u64(9)))).unwrap();
    log
}

#[test]
fn merge_with_empty_is_identity() {
    let merged_right = sample_log().merge(EvmStateLog::new()).unwrap();
    let merged_left = EvmStateLog::new().merge(sample_log()).unwrap();
    let original = amethyst_core::codec::encode_state_log(&sample_log());
    assert_eq!(amethyst_core::codec::encode_state_log(&merged_right), original);
    assert_eq!(amethyst_core::codec::encode_state_log(&merged_left), original);
}

#[test]
fn merged_log_keys_strictly_sorted() {
    let mut one = EvmStateLog::new();
    one.add_write(EvmStateEntry::Accounts(addr(5), Some(acct(5))));
    one.add_write(EvmStateEntry::Accounts(addr(1), Some(acct(1))));
    let mut two = EvmStateLog::new();
    two.add_write(EvmStateEntry::Accounts(addr(3), Some(acct(3))));
    two.add_write(EvmStateEntry::Accounts(addr(1), Some(acct(11))));
    let merged = one.merge(two).unwrap();
    let entries = merged.accounts_entries();
    assert_eq!(entries.len(), 3);
    for i in 0..entries.len() - 1 {
        assert!(entries[i].0.lt_addr(&entries[i + 1].0));
    }
    // The shared key collapsed: the first write survives as the original
    // write overwritten by the later one.
    assert_eq!(entries[0], (addr(1), Access::Write(Some(acct(11)))));
}

#[test]
fn merge_deterministic_across_intra_key_read_order() {
    // Two logs that observe the same keys through reads issued in a
    // different order produce byte-identical merged logs.
    let mut one = EvmStateLog::new();
    one.add_read(&EvmStateEntry::Accounts(addr(2), Some(acct(2)))).unwrap();
    one.add_read(&EvmStateEntry::Accounts(addr(4), Some(acct(4)))).unwrap();
    let mut two = EvmStateLog::new();
    two.add_read(&EvmStateEntry::Accounts(addr(4), Some(acct(4)))).unwrap();
    two.add_read(&EvmStateEntry::Accounts(addr(2), Some(acct(2)))).unwrap();
    let e1 = amethyst_core::codec::encode_state_log(&one);
    let e2 = amethyst_core::codec::encode_state_log(&two);
    assert_eq!(e1, e2);
}

#[test]
fn merge_causality_violation_on_disagreeing_reads() {
    let mut one = EvmStateLog::new();
    one.add_read(&EvmStateEntry::Accounts(addr(2), Some(acct(2)))).unwrap();
    let mut two = EvmStateLog::new();
    two.add_read(&EvmStateEntry::Accounts(addr(2), Some(acct(3)))).unwrap();
    assert!(matches!(one.merge(two), Err(MergeError::CausalityViolation)));
}

#[test]
fn split_then_merge_restores_log() {
    // Partition a canonical account log arbitrarily, keeping per-key
    // order, and merge the pieces back: the original log reappears.
    let whole: Vec<(Address, Access<Account>)> = vec![
        (addr(1), Access::Read(Some(acct(1)))),
        (addr(2), Access::Write(Some(acct(2)))),
        (addr(3), Access::Read(None)),
        (addr(4), Access::Write(None)),
    ];
    let left: Vec<(Address, Access<Account>)> = vec![whole[0], whole[2]];
    let right: Vec<(Address, Access<Account>)> = vec![whole[1], whole[3]];
    let merged = left.merge(right).unwrap();
    assert_eq!(merged, whole);
}

#[test]
fn interleaved_ops_equal_merge_fold() {
    // The record a sequence of interleaved reads and writes on one key
    // builds equals the left-fold of the merge table over those events.
    let key = EvmStorageAddress(addr(1), w(0));
    let events: Vec<AccessEvent<Word256>> = vec![
        AccessEvent::Read(Some(w(5))),
        AccessEvent::Write(Some(w(7))),
        AccessEvent::Read(Some(w(7))),
        AccessEvent::Write(None),
    ];
    let mut log = EvmStateLog::new();
    let mut fold: Option<Access<Word256>> = None;
    for e in events.iter() {
        match e {
            AccessEvent::Read(v) => {
                log.add_read(&EvmStateEntry::Storage(key, *v)).unwrap();
                fold = Some(match fold {
                    None => Access::Read(*v),
                    Some(f) => f.merge(Access::Read(*v)).unwrap(),
                });
            }
            AccessEvent::Write(v) => {
                log.add_write(EvmStateEntry::Storage(key, *v));
                fold = Some(match fold {
                    None => Access::Write(*v),
                    Some(f) => f.merge(Access::Write(*v)).unwrap(),
                });
            }
        }
    }
    assert_eq!(log.get_storage(&key), fold);
}
