//! The EVM rollup's transaction model: the three wire-format transaction
//! kinds, the interpreter-facing transaction environment, and the
//! signature-validation decision of transaction execution.

use vstd::prelude::*;

use crate::primitives::{Address, Word256};
use crate::SignatureValidationError;

verus! {

/// The rollup instantiation of this core.
pub struct EvmRollup;

/// Whether a transaction creates a contract or calls an existing account.
#[derive(Clone, Copy, Debug, PartialEq, Eq, Structural)]
pub enum TransactionAction {
    Create,
    Call(Address),
}

/// One entry of an access list: an address and the storage slots the
/// transaction declares it will touch.
#[derive(Clone, Debug, PartialEq, Eq)]
pub struct AccessListItem {
    pub address: Address,
    pub slots: Vec<Word256>,
}

/// A transaction together with its declared sender.
#[derive(Clone, Debug, PartialEq, Eq)]
pub struct EvmTransaction {
    pub sender: Address,
    pub body: TransactionBody,
}

/// The standard wire-format transaction kinds.
#[derive(Clone, Debug, PartialEq, Eq)]
pub enum TransactionBody {
    Legacy {
        chain_id: Option<u64>,
        nonce: u64,
        gas_price: Word256,
        gas_limit: u64,
        action: TransactionAction,
        value: Word256,
        input: Vec<u8>,
    },
    EIP2930 {
        chain_id: u64,
        nonce: u64,
        gas_price: Word256,
        gas_limit: u64,
        action: TransactionAction,
        value: Word256,
        input: Vec<u8>,
        access_list: Vec<AccessListItem>,
    },
    EIP1559 {
        chain_id: u64,
        nonce: u64,
        max_priority_fee_per_gas: Word256,
        max_fee_per_gas: Word256,
        gas_limit: u64,
        action: TransactionAction,
        value: Word256,
        input: Vec<u8>,
        access_list: Vec<AccessListItem>,
    },
}

/// The per-transaction environment handed to the interpreter.
pub struct TxEnv {
    pub caller: Address,
    pub gas_limit: u64,
    pub gas_price: Word256,
    pub gas_priority_fee: Option<Word256>,
    pub transact_to: TransactionAction,
    pub value: Word256,
    pub data: Vec<u8>,
    pub chain_id: Option<u64>,
    pub nonce: Option<u64>,
    pub access_list: Vec<(Address, Vec<Word256>)>,
}

/// The flattened pairs carry the same addresses and slots as the declared
/// access-list items, in order.
pub open spec fn access_pairs_match(
    items: Seq<AccessListItem>,
    pairs: Seq<(Address, Vec<Word256>)>,
) -> bool {
    &&& pairs.len() == items.len()
    &&& (forall|i: int|
        0 <= i < items.len() ==> (#[trigger] pairs[i]).0 == items[i].address && pairs[i].1@
            == items[i].slots@)
}

/// The environment `add_to_env` owes for each transaction kind: every
/// field of the environment is the corresponding field of the transaction,
/// with a legacy transaction carrying no access list and no priority fee,
/// and a fee-market transaction pricing gas at its maximum fee.
pub open spec fn tx_env_matches(tx: EvmTransaction, env: TxEnv) -> bool {
    match tx.body {
        TransactionBody::Legacy { chain_id, nonce, gas_price, gas_limit, action, value, input } => {
            &&& env.access_list@ == Seq::<(Address, Vec<Word256>)>::empty()
            &&& env.caller == tx.sender
            &&& env.chain_id == chain_id
            &&& env.data@ == input@
            &&& env.gas_limit == gas_limit
            &&& env.gas_price == gas_price
            &&& env.gas_priority_fee is None
            &&& env.nonce == Some(nonce)
            &&& env.transact_to == action
            &&& env.value == value
        },
        TransactionBody::EIP2930 {
            chain_id,
            nonce,
            gas_price,
            gas_limit,
            action,
            value,
            input,
            access_list,
        } => {
            &&& access_pairs_match(access_list@, env.access_list@)
            &&& env.caller == tx.sender
            &&& env.chain_id == Some(chain_id)
            &&& env.data@ == input@
            &&& env.gas_limit == gas_limit
            &&& env.gas_price == gas_price
            &&& env.gas_priority_fee is None
            &&& env.nonce == Some(nonce)
            &&& env.transact_to == action
            &&& env.value == value
        },
        TransactionBody::EIP1559 {
            chain_id,
            nonce,
            max_priority_fee_per_gas,
            max_fee_per_gas,
            gas_limit,
            action,
            value,
            input,
            access_list,
        } => {
            &&& access_pairs_match(access_list@, env.access_list@)
            &&& env.caller == tx.sender
            &&& env.chain_id == Some(chain_id)
            &&& env.data@ == input@
            &&& env.gas_limit == gas_limit
            &&& env.gas_price == max_fee_per_gas
            &&& env.gas_priority_fee == Some(max_priority_fee_per_gas)
            &&& env.nonce == Some(nonce)
            &&& env.transact_to == action
            &&& env.value == value
        },
    }
}

fn clone_bytes(v: &Vec<u8>) -> (r: Vec<u8>)
    ensures
        r@ == v@,
{
    let r = v.clone();
    proof {
        assert(r@ =~= v@);
    }
    r
}

fn clone_words(v: &Vec<Word256>) -> (r: Vec<Word256>)
    ensures
        r@ == v@,
{
    let r = v.clone();
    proof {
        assert(r@ =~= v@);
    }
    r
}

#[verifier::loop_isolation(false)]
fn convert_access_list(items: &Vec<AccessListItem>) -> (r: Vec<(Address, Vec<Word256>)>)
    ensures
        access_pairs_match(items@, r@),
{
    let mut out: Vec<(Address, Vec<Word256>)> = Vec::new();
    let mut i: usize = 0;
    while i < items.len()
        invariant
            i <= items@.len(),
            out@.len() == i,
            forall|j: int|
                0 <= j < i ==> (#[trigger] out@[j]).0 == items@[j].address && out@[j].1@
                    == items@[j].slots@,
        decreases items@.len() - i,
    {
        let addr = items[i].address;
        let slots = clone_words(&items[i].slots);
        out.push((addr, slots));
        i = i + 1;
    }
    out
}

impl EvmTransaction {
    /// Fill the interpreter's transaction environment from this
    /// transaction, field by field, per the wire-format kind.
    pub fn add_to_env(&self, tx_env: &mut TxEnv)
        ensures
            tx_env_matches(*self, *final(tx_env)),
    {
        match &self.body {
            TransactionBody::Legacy {
                chain_id,
                nonce,
                gas_price,
                gas_limit,
                action,
                value,
                input,
            } => {
                tx_env.access_list = Vec::new();
                tx_env.caller = self.sender;
                tx_env.chain_id = *chain_id;
                tx_env.data = clone_bytes(input);
                tx_env.gas_limit = *gas_limit;
                tx_env.gas_price = *gas_price;
                tx_env.gas_priority_fee = None;
                tx_env.nonce = Some(*nonce);
                tx_env.transact_to = *action;
                tx_env.value = *value;
            },
            TransactionBody::EIP2930 {
                chain_id,
                nonce,
                gas_price,
                gas_limit,
                action,
                value,
                input,
                access_list,
            } => {
                tx_env.access_list = convert_access_list(access_list);
                tx_env.caller = self.sender;
                tx_env.chain_id = Some(*chain_id);
                tx_env.data = clone_bytes(input);
                tx_env.gas_limit = *gas_limit;
                tx_env.gas_price = *gas_price;
                tx_env.gas_priority_fee = None;
                tx_env.nonce = Some(*nonce);
                tx_env.transact_to = *action;
                tx_env.value = *value;
            },
            TransactionBody::EIP1559 {
                chain_id,
                nonce,
                max_priority_fee_per_gas,
                max_fee_per_gas,
                gas_limit,
                action,
                value,
                input,
                access_list,
            } => {
                tx_env.access_list = convert_access_list(access_list);
                tx_env.caller = self.sender;
                tx_env.chain_id = Some(*chain_id);
                tx_env.data = clone_bytes(input);
                tx_env.gas_limit = *gas_limit;
                tx_env.gas_price = *max_fee_per_gas;
                tx_env.gas_priority_fee = Some(*max_priority_fee_per_gas);
                tx_env.nonce = Some(*nonce);
                tx_env.transact_to = *action;
                tx_env.value = *value;
            },
        }
    }
}

impl EvmRollup {
    /// The signature-validation decision of transaction execution: the
    /// sender the host recovered (or failed to recover) must match the
    /// transaction's declared sender; any disagreement or failure is a
    /// signature-validation error.
    pub fn validate_sender(
        tx: &EvmTransaction,
        recovered: Result<Address, SignatureValidationError>,
    ) -> (r: Result<Address, SignatureValidationError>)
        ensures
            (match recovered {
                Ok(s) => if s == tx.sender {
                    r == Ok::<Address, SignatureValidationError>(s)
                } else {
                    r == Err::<Address, SignatureValidationError>(SignatureValidationError::Any)
                },
                Err(e) => r == Err::<Address, SignatureValidationError>(e),
            }),
    {
        match recovered {
            Ok(s) => {
                if s == tx.sender {
                    Ok(s)
                } else {
                    Err(SignatureValidationError::Any)
                }
            },
            Err(e) => Err(e),
        }
    }
}

} // verus!
