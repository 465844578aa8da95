//! What the service decides from the answers of an Ethereum node.
use vstd::prelude::*;

use crate::types::errors::PythiaError;

verus! {

/// The gas of a plain transfer.
pub const TRANSFER_GAS_LIMIT: u128 = 21_000;

/// The status a mined transaction reports when it succeeded.
pub const TX_SUCCESS_STATUS: u64 = 1;

/// What the RPC canister can answer instead of a node's reply.
pub enum EthRpcError {
    NoPermission,
    TooFewCycles { expected: u128, received: u128 },
    ServiceUrlParseError,
    ServiceHostNotAllowed(String),
    ProviderNotFound,
    HttpRequestError { code: u32, message: String },
}

/// The gas price raised by a fifth, so that transactions confirm quickly.
pub open spec fn spec_boosted_gas_price(gas_price: u128) -> int {
    (gas_price / 10) * 12
}

/// The gas price raised by a fifth: a tenth of it, times twelve.
pub fn boost_gas_price(gas_price: u128) -> (res: u128)
    requires
        spec_boosted_gas_price(gas_price) <= u128::MAX,
    ensures
        res == spec_boosted_gas_price(gas_price),
{
    (gas_price / 10) * 12
}

/// Whether a deposit transaction can be counted, from its receipt: `None` when
/// the node knows no such transaction, else the status it reports, `None`
/// while the transaction is not executed.
pub fn check_receipt(receipt: Option<Option<u64>>) -> (res: Result<(), PythiaError>)
    ensures
        receipt is None ==> res == Err::<(), PythiaError>(PythiaError::TxDoesNotExist),
        receipt == Some(None::<u64>) ==> res == Err::<(), PythiaError>(PythiaError::TxNotExecuted),
        receipt == Some(Some(TX_SUCCESS_STATUS)) ==> res is Ok,
        receipt matches Some(Some(s)) && s != TX_SUCCESS_STATUS ==> res == Err::<(), PythiaError>(PythiaError::TxHasFailed),
{
    match receipt {
        None => Err(PythiaError::TxDoesNotExist),
        Some(None) => Err(PythiaError::TxNotExecuted),
        Some(Some(status)) => {
            if status != TX_SUCCESS_STATUS {
                Err(PythiaError::TxHasFailed)
            } else {
                Ok(())
            }
        },
    }
}

/// Whether a confirmed transaction succeeded, from the status of its receipt.
pub fn check_success(status: u64) -> (res: Result<(), PythiaError>)
    ensures
        status == TX_SUCCESS_STATUS ==> res is Ok,
        status != TX_SUCCESS_STATUS ==> res == Err::<(), PythiaError>(PythiaError::TxHasFailed),
{
    if status != TX_SUCCESS_STATUS {
        return Err(PythiaError::TxHasFailed);
    }
    Ok(())
}

/// What a transfer of the whole balance sends: the balance less the gas of the
/// transfer at `gas_price`.
pub fn transfer_all_value(balance: u128, gas_price: u128) -> (res: u128)
    requires
        gas_price * TRANSFER_GAS_LIMIT <= balance,
    ensures
        res == balance - gas_price * TRANSFER_GAS_LIMIT,
{
    balance - gas_price * TRANSFER_GAS_LIMIT
}

} // verus!
