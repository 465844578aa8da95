//! What the controllers of the service may change and start.
use vstd::prelude::*;

use crate::types::balance::UserBalanceView;
use crate::types::errors::PythiaError;
use crate::types::state::State;
use crate::types::timer::Timer;
use crate::utils::address::{normalize, spec_normalize};
use crate::utils::text::decimal_value;
use crate::utils::validator;

verus! {

/// `a` and `b` are the same but for the fee, the limits and the timer frequency,
/// which may differ.
pub open spec fn same_but_settings(a: &State, b: &State) -> bool {
    &&& a.initialized == b.initialized
    &&& a.controllers == b.controllers
    &&& a.key_name == b.key_name
    &&& a.siwe_canister == b.siwe_canister
    &&& a.sybil_canister == b.sybil_canister
    &&& a.ic_eth_rpc_canister == b.ic_eth_rpc_canister
    &&& a.pma == b.pma
    &&& a.subscriptions_indexer == b.subscriptions_indexer
    &&& a.is_timer_active == b.is_timer_active
    &&& a.timer == b.timer
    &&& a.whitelist == b.whitelist
    &&& a.same_tables(b)
    &&& a.wf() == b.wf()
}

/// Sets the fee charged for each published transaction; only a controller may.
pub fn _update_tx_fee(state: &mut State, is_controller: bool, tx_fee: u128) -> (res: Result<(), PythiaError>)
    ensures
        !is_controller ==> res == Err::<(), PythiaError>(PythiaError::NotAController) && *final(state) == *old(state),
        is_controller ==> res is Ok && final(state).tx_fee == tx_fee
            && final(state).subs_limit_wallet == old(state).subs_limit_wallet
            && final(state).subs_limit_total == old(state).subs_limit_total
            && final(state).timer_frequency == old(state).timer_frequency
            && same_but_settings(&*final(state), &*old(state)),
{
    validator::caller(is_controller)?;
    state.tx_fee = tx_fee;
    Ok(())
}

/// Sets how many subscriptions one wallet may have; only a controller may.
pub fn _update_subs_limit_wallet(state: &mut State, is_controller: bool, limit: u64) -> (res: Result<(), PythiaError>)
    ensures
        !is_controller ==> res == Err::<(), PythiaError>(PythiaError::NotAController) && *final(state) == *old(state),
        is_controller ==> res is Ok && final(state).subs_limit_wallet == limit
            && final(state).tx_fee == old(state).tx_fee
            && final(state).subs_limit_total == old(state).subs_limit_total
            && final(state).timer_frequency == old(state).timer_frequency
            && same_but_settings(&*final(state), &*old(state)),
{
    validator::caller(is_controller)?;
    state.subs_limit_wallet = limit;
    Ok(())
}

/// Sets how many subscriptions the service holds at most; only a controller may.
pub fn _update_subs_limit_total(state: &mut State, is_controller: bool, limit: u64) -> (res: Result<(), PythiaError>)
    ensures
        !is_controller ==> res == Err::<(), PythiaError>(PythiaError::NotAController) && *final(state) == *old(state),
        is_controller ==> res is Ok && final(state).subs_limit_total == limit
            && final(state).tx_fee == old(state).tx_fee
            && final(state).subs_limit_wallet == old(state).subs_limit_wallet
            && final(state).timer_frequency == old(state).timer_frequency
            && same_but_settings(&*final(state), &*old(state)),
{
    validator::caller(is_controller)?;
    state.subs_limit_total = limit;
    Ok(())
}

/// Sets the seconds between two runs of the publisher; only a controller may.
pub fn _update_timer_frequency(state: &mut State, is_controller: bool, frequency: u64) -> (res: Result<(), PythiaError>)
    ensures
        !is_controller ==> res == Err::<(), PythiaError>(PythiaError::NotAController) && *final(state) == *old(state),
        is_controller ==> res is Ok && final(state).timer_frequency == frequency
            && final(state).tx_fee == old(state).tx_fee
            && final(state).subs_limit_wallet == old(state).subs_limit_wallet
            && final(state).subs_limit_total == old(state).subs_limit_total
            && same_but_settings(&*final(state), &*old(state)),
{
    validator::caller(is_controller)?;
    state.timer_frequency = frequency;
    Ok(())
}

/// Whether a controller may start the withdrawal job now; the platform starts it
/// on `Ok`.
pub fn _execute_withdraw_job(is_controller: bool) -> (res: Result<(), PythiaError>)
    ensures
        is_controller ==> res is Ok,
        !is_controller ==> res == Err::<(), PythiaError>(PythiaError::NotAController),
{
    validator::caller(is_controller)
}

/// Whether a controller may start the publisher job now; the platform starts it
/// on `Ok`.
pub fn _execute_publisher_job(is_controller: bool) -> (res: Result<(), PythiaError>)
    ensures
        is_controller ==> res is Ok,
        !is_controller ==> res == Err::<(), PythiaError>(PythiaError::NotAController),
{
    validator::caller(is_controller)
}

/// Whether a controller may start the withdrawal job now (the older endpoint).
pub fn _execute_withdraw(is_controller: bool) -> (res: Result<(), PythiaError>)
    ensures
        is_controller ==> res is Ok,
        !is_controller ==> res == Err::<(), PythiaError>(PythiaError::NotAController),
{
    validator::caller(is_controller)
}

/// Whether a controller may start the publisher job now (the older endpoint).
pub fn _execute_publisher(is_controller: bool) -> (res: Result<(), PythiaError>)
    ensures
        is_controller ==> res is Ok,
        !is_controller ==> res == Err::<(), PythiaError>(PythiaError::NotAController),
{
    validator::caller(is_controller)
}

/// Stops the publisher's timer; only a controller may. On `Ok` the platform
/// clears the timer whose key is given back.
pub fn _stop_timer(state: &mut State, is_controller: bool) -> (res: Result<u64, PythiaError>)
    ensures
        !is_controller ==> res == Err::<u64, PythiaError>(PythiaError::NotAController) && *final(state) == *old(state),
        is_controller ==> match old(state).timer {
            Some(t) if (decimal_value(t.id@) matches Some(k) && k <= u64::MAX) => res == Ok::<u64, PythiaError>(decimal_value(t.id@)->0 as u64)
                && (final(state).timer matches Some(n) && n.id == t.id && !n.is_active)
                && final(state).whitelist == old(state).whitelist
                && final(state).same_tables(&*old(state))
                && final(state).wf() == old(state).wf(),
            _ => res == Err::<u64, PythiaError>(PythiaError::UnableToDeactivateTimer) && *final(state) == *old(state),
        },
{
    validator::caller(is_controller)?;
    match Timer::deactivate(&mut state.timer) {
        Ok(key) => Ok(key),
        Err(_) => Err(PythiaError::UnableToDeactivateTimer),
    }
}

/// A controller's request that names an address: the address in canonical form.
pub fn controller_address(is_controller: bool, address: &str) -> (res: Result<String, PythiaError>)
    ensures
        !is_controller ==> res == Err::<String, PythiaError>(PythiaError::NotAController),
        is_controller ==> match spec_normalize(address@) {
            None => res == Err::<String, PythiaError>(PythiaError::InvalidAddressFormat),
            Some(a) => res matches Ok(r) && r@ == a,
        },
{
    validator::caller(is_controller)?;
    normalize(address)
}

/// Sets the balance of `address` on chain `chain_id` to zero, keeping its
/// nonces; only a controller may.
pub fn _clear_balance(state: &mut State, is_controller: bool, chain_id: u64, address: &str) -> (res: Result<(), PythiaError>)
    requires
        old(state).wf(),
    ensures
        final(state).wf(),
        final(state).same_settings(&*old(state)),
        final(state).whitelist == old(state).whitelist,
        final(state).chains.view() == old(state).chains.view(),
        final(state).subscriptions.view() == old(state).subscriptions.view(),
        final(state).withdraw_requests.view() == old(state).withdraw_requests.view(),
        !is_controller ==> res == Err::<(), PythiaError>(PythiaError::NotAController) && *final(state) == *old(state),
        is_controller ==> match spec_normalize(address@) {
            None => res == Err::<(), PythiaError>(PythiaError::InvalidAddressFormat) && *final(state) == *old(state),
            Some(a) => match old(state).balances.balance_of(chain_id, a) {
                None => res == Err::<(), PythiaError>(PythiaError::UnableToClearBalance)
                    && final(state).balances.view() == old(state).balances.view(),
                Some(b) => res is Ok && final(state).balances.view() == old(state).balances.view().insert(chain_id,
                    old(state).balances.view()[chain_id].insert(a, UserBalanceView { amount: 0, nonces: b.nonces })),
            },
        },
{
    let address = controller_address(is_controller, address)?;
    match state.balances.clear(chain_id, address.as_str()) {
        Ok(()) => Ok(()),
        Err(_) => Err(PythiaError::UnableToClearBalance),
    }
}

/// The platform fees collected on chain `chain_id`: the balance of the
/// canister's own address `pma` there.
pub fn _withdraw_fee_value(state: &State, chain_id: u64, pma: &str) -> (res: Result<u128, PythiaError>)
    requires
        state.wf(),
    ensures
        match state.balances.balance_of(chain_id, pma@) {
            None => res == Err::<u128, PythiaError>(PythiaError::UnableToGetBalance),
            Some(b) => res == Ok::<u128, PythiaError>(b.amount),
        },
{
    match state.balances.get(chain_id, pma) {
        Ok(v) => Ok(v),
        Err(_) => Err(PythiaError::UnableToGetBalance),
    }
}

/// Takes the withdrawn fees `value` off the balance of the canister's own
/// address once they were transferred.
pub fn _withdraw_fee_settle(state: &mut State, chain_id: u64, pma: &str, value: u128) -> (res: Result<(), PythiaError>)
    requires
        old(state).wf(),
        old(state).balances.balance_of(chain_id, pma@) matches Some(b) ==> value <= b.amount,
    ensures
        final(state).wf(),
        final(state).same_settings(&*old(state)),
        final(state).whitelist == old(state).whitelist,
        final(state).chains.view() == old(state).chains.view(),
        final(state).subscriptions.view() == old(state).subscriptions.view(),
        final(state).withdraw_requests.view() == old(state).withdraw_requests.view(),
        match old(state).balances.balance_of(chain_id, pma@) {
            None => res == Err::<(), PythiaError>(PythiaError::UnableToReduceBalance)
                && final(state).balances.view() == old(state).balances.view(),
            Some(b) => res is Ok && final(state).balances.view() == old(state).balances.view().insert(chain_id,
                old(state).balances.view()[chain_id].insert(pma@, UserBalanceView { amount: (b.amount - value) as u128, nonces: b.nonces })),
        },
{
    match state.balances.reduce(chain_id, pma, value) {
        Ok(()) => Ok(()),
        Err(_) => Err(PythiaError::UnableToReduceBalance),
    }
}

} // verus!
