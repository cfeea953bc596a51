//! The account-only leaf log and its access records.

use amethyst_core::primitives::{Account, Address, Hash256, Word256};
use amethyst_core::state_log::{
    LeafStateLog, MergeableLog, ModifiedAccount, OrderedReadLog, OrderedRwLog, StateAccess,
};
use amethyst_core::MergeError;

fn addr(n: u64) -> Address {
    Address::new(0, 0, n)
}

fn acct(balance: u64) -> Account {
    Account::new(1, Word256::from_u64(balance), Hash256::from_u64(0))
}

#[test]
fn state_access_merge_table_samples() {
    let r = StateAccess::Read(Some(acct(1)));
    let w = StateAccess::Write(acct(2));
    assert_eq!(
        r.merge(w),
        Ok(StateAccess::ReadThenWrite(ModifiedAccount {
            original: Some(acct(1)),
            modified: acct(2),
        }))
    );
    let w1 = StateAccess::Write(acct(2));
    let r2 = StateAccess::Read(Some(acct(3)));
    assert_eq!(w1.merge(r2), Err(MergeError::CausalityViolation));
    let w2 = StateAccess::Write(acct(2));
    let r3 = StateAccess::Read(Some(acct(2)));
    assert_eq!(w2.merge(r3), Ok(StateAccess::Write(acct(2))));
}

#[test]
fn leaf_log_read_write_promotion() {
    let mut log = LeafStateLog::new();
    log.add_read(&addr(1), &Some(acct(5))).unwrap();
    log.add_write(&addr(1), acct(7));
    assert_eq!(
        log.get_account(&addr(1)),
        Some(StateAccess::ReadThenWrite(ModifiedAccount {
            original: Some(acct(5)),
            modified: acct(7),
        }))
    );
}

#[test]
fn leaf_log_reread_must_match() {
    let mut log = LeafStateLog::new();
    log.add_read(&addr(1), &Some(acct(5))).unwrap();
    assert_eq!(log.add_read(&addr(1), &Some(acct(5))), Ok(()));
    assert_eq!(
        log.add_read(&addr(1), &Some(acct(6))),
        Err(MergeError::CausalityViolation)
    );
}

#[test]
fn leaf_log_merge_is_sorted_and_collapsed() {
    let mut one = LeafStateLog::new();
    one.add_write(&addr(4), acct(4));
    one.add_read(&addr(2), &Some(acct(2))).unwrap();
    let mut two = LeafStateLog::new();
    two.add_read(&addr(4), &Some(acct(4))).unwrap();
    two.add_write(&addr(1), acct(1));
    let merged = one.merge(two).unwrap();
    let keys: Vec<Address> = merged.iter().map(|e| e.0).collect();
    assert_eq!(keys, vec![addr(1), addr(2), addr(4)]);
    // The shared address keeps the earlier write, re-observed by the
    // later read.
    assert_eq!(merged[2].1, StateAccess::Write(acct(4)));
    // The drained form can be merged again.
    let again = merged.clone().merge(Vec::new()).unwrap();
    assert_eq!(again, merged);
}
