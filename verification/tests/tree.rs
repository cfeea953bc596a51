//! Transaction-tree composition: the transition merge table, its error
//! cells, order sensitivity, and the transaction-environment filling.

use amethyst_core::ari::{
    AccessListItem, EvmRollup, EvmTransaction, TransactionAction, TransactionBody, TxEnv,
};
use amethyst_core::primitives::{Address, BlockEnv, Hash256, Word256};
use amethyst_core::tx_trie::{EvmTxTree, Transition, TxTree};
use amethyst_core::verifiable_state::evm::EvmStateLog;
use amethyst_core::verifiable_state::{EvmStateEntry, OrderedRwLog};
use amethyst_core::{MergeError, SignatureValidationError};

fn addr(n: u64) -> Address {
    Address::new(0, 0, n)
}

fn h(n: u64) -> Hash256 {
    Hash256::from_u64(n)
}

fn logged_log(slot_value: u64) -> EvmStateLog {
    let mut log = EvmStateLog::new();
    log.add_write(EvmStateEntry::Accounts(
        addr(1),
        Some(amethyst_core::primitives::Account::new(
            0,
            Word256::from_u64(slot_value),
            h(0),
        )),
    ));
    log
}

fn tree(
    txs: Vec<u64>,
    change: Transition<Hash256, EvmStateLog>,
) -> TxTree<Hash256, u64, EvmStateLog, BlockEnv> {
    TxTree { includes: txs, state_change: change, env: BlockEnv::default() }
}

#[test]
fn merge_applied_with_logged_gives_hybrid() {
    let lhs = tree(vec![1, 2], Transition::Applied(h(0), h(1)));
    let rhs = tree(vec![3], Transition::Logged(logged_log(7)));
    let merged = TxTree::merge(lhs, rhs).unwrap();
    assert_eq!(merged.includes, vec![1, 2, 3]);
    match merged.state_change {
        Transition::Hybrid(a, b, _) => {
            assert_eq!(a, h(0));
            assert_eq!(b, h(1));
        }
        _ => panic!("expected a hybrid transition"),
    }
}

#[test]
fn merge_logged_with_applied_is_ordering_violation() {
    let lhs = tree(vec![1], Transition::Logged(logged_log(7)));
    let rhs = tree(vec![2], Transition::Applied(h(0), h(1)));
    let r = TxTree::merge(lhs, rhs);
    assert!(matches!(r, Err(MergeError::OrderingViolation)));
}

#[test]
fn merge_hybrid_with_hybrid_is_ordering_violation() {
    let lhs = tree(vec![1], Transition::Hybrid(h(0), h(1), logged_log(1)));
    let rhs = tree(vec![2], Transition::Hybrid(h(1), h(2), logged_log(2)));
    assert!(matches!(TxTree::merge(lhs, rhs), Err(MergeError::OrderingViolation)));
}

#[test]
fn merge_applied_endpoints_must_chain() {
    let lhs = tree(vec![1], Transition::Applied(h(0), h(1)));
    let rhs = tree(vec![2], Transition::Applied(h(1), h(2)));
    let merged = TxTree::merge(lhs, rhs).unwrap();
    match merged.state_change {
        Transition::Applied(a, b) => {
            assert_eq!(a, h(0));
            assert_eq!(b, h(2));
        }
        _ => panic!("expected an applied transition"),
    }
    let lhs2 = tree(vec![1], Transition::Applied(h(0), h(1)));
    let rhs2 = tree(vec![2], Transition::Applied(h(9), h(2)));
    assert!(matches!(TxTree::merge(lhs2, rhs2), Err(MergeError::CausalityViolation)));
}

#[test]
fn merge_env_mismatch_is_fatal() {
    let lhs = tree(vec![1], Transition::Applied(h(0), h(1)));
    let mut other_env = BlockEnv::default();
    other_env.number = 42;
    let rhs = TxTree::<Hash256, u64, EvmStateLog, BlockEnv> {
        includes: vec![2],
        state_change: Transition::Logged(EvmStateLog::new()),
        env: other_env,
    };
    assert!(matches!(TxTree::merge(lhs, rhs), Err(MergeError::EnvMismatch)));
}

#[test]
fn merge_logged_with_logged_combines_logs() {
    let mut l1 = EvmStateLog::new();
    l1.add_write(EvmStateEntry::Accounts(
        addr(1),
        Some(amethyst_core::primitives::Account::new(0, Word256::from_u64(1), h(0))),
    ));
    let mut l2 = EvmStateLog::new();
    l2.add_write(EvmStateEntry::Accounts(
        addr(2),
        Some(amethyst_core::primitives::Account::new(0, Word256::from_u64(2), h(0))),
    ));
    let merged = TxTree::merge(
        tree(vec![1], Transition::Logged(l1)),
        tree(vec![2], Transition::Logged(l2)),
    )
    .unwrap();
    match merged.state_change {
        Transition::Logged(l) => {
            assert_eq!(l.accounts_entries().len(), 2);
        }
        _ => panic!("expected a logged transition"),
    }
}

#[test]
fn merge_is_order_sensitive() {
    let lhs = tree(vec![1, 2], Transition::Applied(h(0), h(1)));
    let rhs = tree(vec![3], Transition::Logged(logged_log(7)));
    let forward = TxTree::merge(lhs, rhs).unwrap();
    assert_eq!(forward.includes, vec![1, 2, 3]);
    // Swapping the operands either errors or proves the transactions in
    // the opposite order; here it errors outright.
    let lhs2 = tree(vec![1, 2], Transition::Applied(h(0), h(1)));
    let rhs2 = tree(vec![3], Transition::Logged(logged_log(7)));
    assert!(TxTree::merge(rhs2, lhs2).is_err());
}

#[test]
fn with_transactions_builds_logged_leaf() {
    let t: EvmTxTree<u64> = EvmTxTree::with_transactions(vec![10, 11]);
    assert_eq!(t.includes, vec![10, 11]);
    assert_eq!(t.env, BlockEnv::default());
    match t.state_change {
        Transition::Logged(l) => {
            assert_eq!(l.accounts_entries().len(), 0);
        }
        _ => panic!("expected a logged transition"),
    }
}

fn empty_env() -> TxEnv {
    TxEnv {
        caller: addr(0),
        gas_limit: 0,
        gas_price: Word256::zero(),
        gas_priority_fee: None,
        transact_to: TransactionAction::Create,
        value: Word256::zero(),
        data: Vec::new(),
        chain_id: None,
        nonce: None,
        access_list: Vec::new(),
    }
}

#[test]
fn add_to_env_legacy() {
    let tx = EvmTransaction {
        sender: addr(0x11),
        body: TransactionBody::Legacy {
            chain_id: Some(5),
            nonce: 9,
            gas_price: Word256::from_u64(100),
            gas_limit: 21000,
            action: TransactionAction::Call(addr(0x22)),
            value: Word256::from_u64(1),
            input: vec![1, 2, 3],
        },
    };
    let mut env = empty_env();
    tx.add_to_env(&mut env);
    assert_eq!(env.caller, addr(0x11));
    assert_eq!(env.chain_id, Some(5));
    assert_eq!(env.nonce, Some(9));
    assert_eq!(env.gas_price, Word256::from_u64(100));
    assert_eq!(env.gas_limit, 21000);
    assert_eq!(env.gas_priority_fee, None);
    assert_eq!(env.transact_to, TransactionAction::Call(addr(0x22)));
    assert_eq!(env.value, Word256::from_u64(1));
    assert_eq!(env.data, vec![1, 2, 3]);
    assert!(env.access_list.is_empty());
}

#[test]
fn add_to_env_eip1559_prices_at_max_fee() {
    let tx = EvmTransaction {
        sender: addr(0x11),
        body: TransactionBody::EIP1559 {
            chain_id: 7,
            nonce: 1,
            max_priority_fee_per_gas: Word256::from_u64(2),
            max_fee_per_gas: Word256::from_u64(50),
            gas_limit: 30000,
            action: TransactionAction::Create,
            value: Word256::zero(),
            input: Vec::new(),
            access_list: vec![AccessListItem {
                address: addr(0x33),
                slots: vec![Word256::from_u64(0), Word256::from_u64(1)],
            }],
        },
    };
    let mut env = empty_env();
    tx.add_to_env(&mut env);
    assert_eq!(env.chain_id, Some(7));
    assert_eq!(env.gas_price, Word256::from_u64(50));
    assert_eq!(env.gas_priority_fee, Some(Word256::from_u64(2)));
    assert_eq!(env.access_list.len(), 1);
    assert_eq!(env.access_list[0].0, addr(0x33));
    assert_eq!(env.access_list[0].1, vec![Word256::from_u64(0), Word256::from_u64(1)]);
}

#[test]
fn validate_sender_accepts_matching_sender() {
    let tx = EvmTransaction {
        sender: addr(0x11),
        body: TransactionBody::Legacy {
            chain_id: None,
            nonce: 0,
            gas_price: Word256::zero(),
            gas_limit: 0,
            action: TransactionAction::Create,
            value: Word256::zero(),
            input: Vec::new(),
        },
    };
    assert_eq!(EvmRollup::validate_sender(&tx, Ok(addr(0x11))), Ok(addr(0x11)));
    assert_eq!(
        EvmRollup::validate_sender(&tx, Ok(addr(0x12))),
        Err(SignatureValidationError::Any)
    );
    assert_eq!(
        EvmRollup::validate_sender(&tx, Err(SignatureValidationError::Any)),
        Err(SignatureValidationError::Any)
    );
}
