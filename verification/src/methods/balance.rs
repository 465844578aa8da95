//! Deposits to and withdrawals from the balances that pay for publishing.
use vstd::prelude::*;

use crate::types::balance::{empty_balance, UserBalanceView, ETH_TRANSFER_GAS_LIMIT};
use crate::types::errors::PythiaError;
use crate::types::state::State;
use crate::types::subscription::{chain_selected, set_active_selected, Subscription};
use crate::types::whitelist::{is_whitelisted, list_view, spec_is_whitelisted};
use crate::utils::address::{normalize, spec_normalize};
use crate::utils::keyed::map_entries;

verus! {

/// Whether two addresses, as raw bytes, are the same.
pub fn bytes_eq(a: &[u8; 20], b: &[u8; 20]) -> (res: bool)
    ensures
        res == (a@ == b@),
{
    let mut i: usize = 0;
    while i < 20
        invariant
            a@.len() == 20,
            b@.len() == 20,
            i <= 20,
            forall|j: int| 0 <= j < i ==> a@[j] == b@[j],
        decreases 20 - i,
    {
        if a[i] != b[i] {
            return false;
        }
        i = i + 1;
    }
    assert(a@ =~= b@);
    true
}

/// The balances of `s` after the depositor `address` got an empty balance on
/// chain `c` where it had none.
pub open spec fn deposit_opened(s: &State, c: u64, address: Seq<char>) -> Map<u64, Map<Seq<char>, UserBalanceView>> {
    if s.balances.view()[c].contains_key(address) {
        s.balances.view()
    } else {
        s.balances.view().insert(c, s.balances.view()[c].insert(spec_normalize(address)->0, empty_balance()))
    }
}

/// The first half of a deposit, before the transaction is fetched: the depositor
/// `address` (recovered from its signature) must be whitelisted, and gets an
/// empty balance on chain `chain_id` if it has none.
pub fn _deposit_prepare(state: &mut State, chain_id: u64, address: &str) -> (res: Result<(), PythiaError>)
    requires
        old(state).wf(),
    ensures
        final(state).wf(),
        final(state).same_settings(&*old(state)),
        final(state).whitelist == old(state).whitelist,
        final(state).chains.view() == old(state).chains.view(),
        final(state).subscriptions.view() == old(state).subscriptions.view(),
        final(state).withdraw_requests.view() == old(state).withdraw_requests.view(),
        !spec_is_whitelisted(list_view(old(state).whitelist@), address@) ==>
            res == Err::<(), PythiaError>(PythiaError::UserIsNotWhitelisted) && *final(state) == *old(state),
        spec_is_whitelisted(list_view(old(state).whitelist@), address@) ==> {
            let bv = old(state).balances.view();
            if !bv.contains_key(chain_id) {
                res == Err::<(), PythiaError>(PythiaError::ChainDoesNotExist) && *final(state) == *old(state)
            } else if bv[chain_id].contains_key(address@) {
                res is Ok && *final(state) == *old(state)
            } else if spec_normalize(address@) matches Some(a) && !bv[chain_id].contains_key(a) {
                res is Ok && final(state).balances.view() == deposit_opened(&*old(state), chain_id, address@)
            } else {
                res == Err::<(), PythiaError>(PythiaError::UnableToAddNewBalance)
                    && final(state).balances.view() == old(state).balances.view()
            }
        },
{
    if !is_whitelisted(&state.whitelist, address) {
        return Err(PythiaError::UserIsNotWhitelisted);
    }
    let exists = state.balances.is_exists(chain_id, address)?;
    if !exists {
        match state.balances.create(chain_id, address) {
            Ok(()) => {},
            Err(_) => { return Err(PythiaError::UnableToAddNewBalance); },
        }
    }
    Ok(())
}

/// The second half of a deposit, once the transaction and the canister's own
/// address are known: the transaction must have been sent to `pma`, its nonce is
/// recorded once, and its value is credited to the depositor.
pub fn _deposit_settle(
    state: &mut State,
    chain_id: u64,
    address: &str,
    tx_to: Option<[u8; 20]>,
    pma: Option<[u8; 20]>,
    nonce: u128,
    value: u128,
) -> (res: Result<(), PythiaError>)
    requires
        old(state).wf(),
        old(state).balances.balance_of(chain_id, address@) matches Some(b) ==> b.amount + value <= u128::MAX,
    ensures
        final(state).wf(),
        final(state).same_settings(&*old(state)),
        final(state).whitelist == old(state).whitelist,
        final(state).chains.view() == old(state).chains.view(),
        final(state).subscriptions.view() == old(state).subscriptions.view(),
        final(state).withdraw_requests.view() == old(state).withdraw_requests.view(),
        tx_to is None ==> res == Err::<(), PythiaError>(PythiaError::TxWithoutReceiver) && *final(state) == *old(state),
        tx_to is Some && pma is None ==> res == Err::<(), PythiaError>(PythiaError::UnableToGetPMA) && *final(state) == *old(state),
        tx_to is Some && pma is Some && tx_to->0@ != pma->0@ ==>
            res == Err::<(), PythiaError>(PythiaError::TxWasNotSentToPma) && *final(state) == *old(state),
        tx_to is Some && pma is Some && tx_to->0@ == pma->0@ ==> match old(state).balances.balance_of(chain_id, address@) {
            None => res == Err::<(), PythiaError>(PythiaError::UnableToSaveNonce)
                && final(state).balances.view() == old(state).balances.view(),
            Some(b) => if b.nonces.contains(nonce) {
                res == Err::<(), PythiaError>(PythiaError::UnableToSaveNonce)
                    && final(state).balances.view() == old(state).balances.view()
            } else {
                res is Ok && final(state).balances.view() == old(state).balances.view().insert(chain_id,
                    old(state).balances.view()[chain_id].insert(address@,
                        UserBalanceView { amount: (b.amount + value) as u128, nonces: b.nonces.push(nonce) }))
            },
        },
{
    let receiver = match tx_to {
        Some(r) => r,
        None => { return Err(PythiaError::TxWithoutReceiver); },
    };
    let pma = match pma {
        Some(p) => p,
        None => { return Err(PythiaError::UnableToGetPMA); },
    };
    if !bytes_eq(&receiver, &pma) {
        return Err(PythiaError::TxWasNotSentToPma);
    }
    let ghost v0 = state.balances.view();
    match state.balances.save_nonce(chain_id, address, nonce) {
        Ok(()) => {},
        Err(_) => { return Err(PythiaError::UnableToSaveNonce); },
    }
    if value == 0 {
        return Ok(());
    }
    let ghost v1 = state.balances.view();
    let r = state.balances.add_amount(chain_id, address, value);
    proof {
        let b = old(state).balances.balance_of(chain_id, address@)->0;
        let x = UserBalanceView { amount: (b.amount + value) as u128, nonces: b.nonces.push(nonce) };
        assert(v1[chain_id].insert(address@, x) =~= v0[chain_id].insert(address@, x));
        assert(v1.insert(chain_id, v1[chain_id].insert(address@, x)) =~= v0.insert(chain_id, v0[chain_id].insert(address@, x)));
    }
    match r {
        Ok(()) => Ok(()),
        Err(_) => Err(PythiaError::UnableToIncreaseBalance),
    }
}

/// A withdrawal by `address` (recovered from its signature) on chain `chain_id`,
/// once the gas price is known: the balance, less the gas of one transfer, is
/// queued for `receiver`, the balance drops to zero and the address's
/// subscriptions on the chain stop.
pub fn _withdraw_settle(state: &mut State, chain_id: u64, address: &str, receiver: &str, gas_price: u128)
    -> (res: Result<u128, PythiaError>)
    requires
        old(state).wf(),
    ensures
        final(state).wf(),
        final(state).same_settings(&*old(state)),
        final(state).whitelist == old(state).whitelist,
        final(state).chains.view() == old(state).chains.view(),
        match old(state).balances.balance_of(chain_id, address@) {
            Some(b) if b.amount >= ETH_TRANSFER_GAS_LIMIT * gas_price => {
                let amount = (b.amount - ETH_TRANSFER_GAS_LIMIT * gas_price) as u128;
                &&& final(state).balances.view() == old(state).balances.view().insert(chain_id,
                    old(state).balances.view()[chain_id].insert(address@, UserBalanceView { amount: 0, nonces: b.nonces }))
                &&& final(state).subscriptions.view() == map_entries(old(state).subscriptions.view(),
                    |c: u64, subs: Seq<Subscription>| if chain_selected(c, Some(chain_id)) {
                        set_active_selected(subs, seq![], Some(address@), false)
                    } else {
                        subs
                    })
                &&& if old(state).withdraw_requests.view().contains_key(chain_id) {
                    &&& res == Ok::<u128, PythiaError>(amount)
                    &&& final(state).withdraw_requests.view().contains_key(chain_id)
                    &&& final(state).withdraw_requests.view() == old(state).withdraw_requests.view().insert(chain_id,
                        old(state).withdraw_requests.view()[chain_id].push(final(state).withdraw_requests.view()[chain_id].last()))
                    &&& final(state).withdraw_requests.view()[chain_id].last().amount == amount
                    &&& final(state).withdraw_requests.view()[chain_id].last().receiver@ == receiver@
                } else {
                    &&& res == Err::<u128, PythiaError>(PythiaError::UnableToAddWithdrawRequest)
                    &&& final(state).withdraw_requests.view() == old(state).withdraw_requests.view()
                }
            },
            _ => res == Err::<u128, PythiaError>(PythiaError::UnableToGetValueForWithdraw)
                && final(state).same_tables(&*old(state)),
        },
{
    let amount = match state.balances.get_value_for_witndraw(chain_id, address, gas_price) {
        Ok(a) => a,
        Err(_) => { return Err(PythiaError::UnableToGetValueForWithdraw); },
    };
    let owner = Some(crate::utils::text::str_to_string(address));
    match state.subscriptions.stop_all(Some(chain_id), Vec::new(), owner) {
        Ok(()) => {},
        Err(_) => { return Err(PythiaError::UnableToStopSubscriptions); },
    }
    match state.withdraw_requests.add(chain_id, receiver, amount) {
        Ok(()) => Ok(amount),
        Err(_) => Err(PythiaError::UnableToAddWithdrawRequest),
    }
}

/// The balance of `address` on chain `chain_id`, or zero where it has none;
/// anyone may ask.
pub fn _get_balance(state: &State, chain_id: u64, address: &str) -> (res: Result<u128, PythiaError>)
    requires
        state.wf(),
    ensures
        match spec_normalize(address@) {
            None => res == Err::<u128, PythiaError>(PythiaError::InvalidAddressFormat),
            Some(a) => res == Ok::<u128, PythiaError>(
                match state.balances.balance_of(chain_id, a) {
                    Some(b) => b.amount,
                    None => 0,
                }),
        },
{
    let address = normalize(address)?;
    match state.balances.get(chain_id, address.as_str()) {
        Ok(v) => Ok(v),
        Err(_) => Ok(0),
    }
}

} // verus!
