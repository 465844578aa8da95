//! The service fee of a chain and where it is collected.
use vstd::prelude::*;
use vstd::string::StringExecFns;

use crate::types::balance::{Balances, UserBalanceView};
use crate::types::chains::Chains;
use crate::types::errors::PythiaError;

verus! {

/// One unit of a chain's coin in its smallest units.
pub const DECIMALS: u128 = 1_000_000_000_000_000_000;

/// The oracle pair that prices the coin of chain `chain_id` in dollars: its
/// symbol followed by `/USD`.
pub fn fee_pair_id(chains: &Chains, chain_id: u64) -> (res: Result<String, PythiaError>)
    requires
        chains.wf(),
        chains.view().contains_key(chain_id) ==> chains.view()[chain_id].symbol is Some,
    ensures
        chains.view().contains_key(chain_id) ==> (res matches Ok(p) && p@ == chains.view()[chain_id].symbol->0 + "/USD"@),
        !chains.view().contains_key(chain_id) ==> res == Err::<String, PythiaError>(PythiaError::ChainDoesNotExist),
{
    let mut pair = chains.get_symbol(chain_id)?;
    pair.append("/USD");
    Ok(pair)
}

/// The fee of one publication on chain `chain_id`, in the chain's smallest
/// units: the dollar fee `tx_fee` converted at the oracle's `rate` where the
/// oracle prices the chain's coin, else the fee set on the chain.
pub fn fee_for(chains: &Chains, chain_id: u64, tx_fee: u128, rate: Option<u64>) -> (res: Result<u128, PythiaError>)
    requires
        chains.wf(),
        rate matches Some(r) ==> r > 0 && tx_fee * DECIMALS <= u128::MAX,
        rate is None && chains.view().contains_key(chain_id) ==> chains.view()[chain_id].fee is Some,
    ensures
        rate matches Some(r) ==> res == Ok::<u128, PythiaError>(((tx_fee * DECIMALS) / (r as int)) as u128),
        rate is None && chains.view().contains_key(chain_id) ==> res == Ok::<u128, PythiaError>(chains.view()[chain_id].fee->0),
        rate is None && !chains.view().contains_key(chain_id) ==> res == Err::<u128, PythiaError>(PythiaError::ChainDoesNotExist),
{
    match rate {
        Some(r) => Ok((tx_fee * DECIMALS) / (r as u128)),
        None => chains.get_fee(chain_id),
    }
}

/// Credits the collected `amount` to `receiver` on chain `chain_id`.
pub fn collect_fee(balances: &mut Balances, chain_id: u64, receiver: &str, amount: u128) -> (res: Result<(), PythiaError>)
    requires
        old(balances).wf(),
        old(balances).balance_of(chain_id, receiver@) matches Some(b) ==> b.amount + amount <= u128::MAX,
    ensures
        final(balances).wf(),
        match old(balances).balance_of(chain_id, receiver@) {
            None => res == Err::<(), PythiaError>(PythiaError::UnableToIncreaseBalance)
                && final(balances).view() == old(balances).view(),
            Some(b) => res is Ok && final(balances).view() == old(balances).view().insert(chain_id,
                old(balances).view()[chain_id].insert(receiver@, UserBalanceView { amount: (b.amount + amount) as u128, nonces: b.nonces })),
        },
{
    match balances.add_amount(chain_id, receiver, amount) {
        Ok(()) => Ok(()),
        Err(_) => Err(PythiaError::UnableToIncreaseBalance),
    }
}

} // verus!
