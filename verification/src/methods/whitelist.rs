//! Managing who may use the service.
use vstd::prelude::*;

use crate::types::errors::PythiaError;
use crate::types::state::State;
use crate::types::subscription::{set_active_selected, without_selected, chain_selected, Subscription};
use crate::types::whitelist::{
    self, list_view, spec_is_whitelisted, spec_with_flag, spec_without, Whitelist, WhitelistEntryView,
};
use crate::utils::address::{normalize, spec_normalize};
use crate::utils::keyed::map_entries;
use crate::utils::validator;

verus! {

/// The subscriptions of every chain with those of `owner` stopped.
pub open spec fn owner_stopped(m: Map<u64, Seq<Subscription>>, owner: Seq<char>) -> Map<u64, Seq<Subscription>> {
    map_entries(m, |c: u64, subs: Seq<Subscription>|
        if chain_selected(c, None) { set_active_selected(subs, seq![], Some(owner), false) } else { subs })
}

/// The subscriptions of every chain without those of `owner`.
pub open spec fn owner_removed(m: Map<u64, Seq<Subscription>>, owner: Seq<char>) -> Map<u64, Seq<Subscription>> {
    map_entries(m, |c: u64, subs: Seq<Subscription>|
        if chain_selected(c, None) { without_selected(subs, seq![], Some(owner)) } else { subs })
}

/// Adds an address to the whitelist; only a controller may.
pub fn _add_to_whitelist(state: &mut State, is_controller: bool, address: &str) -> (res: Result<(), PythiaError>)
    ensures
        !is_controller ==> res == Err::<(), PythiaError>(PythiaError::NotAController) && *final(state) == *old(state),
        is_controller ==> match spec_normalize(address@) {
            None => res == Err::<(), PythiaError>(PythiaError::InvalidAddressFormat) && *final(state) == *old(state),
            Some(a) => res is Ok
                && list_view(final(state).whitelist@) == list_view(old(state).whitelist@).push(
                    WhitelistEntryView { address: a, is_blacklisted: false })
                && final(state).same_settings(&*old(state))
                && final(state).same_tables(&*old(state))
                && final(state).wf() == old(state).wf(),
        },
{
    validator::caller(is_controller)?;
    let address = normalize(address)?;
    whitelist::add(&mut state.whitelist, address.as_str());
    Ok(())
}

/// Removes an address from the whitelist and deletes its subscriptions; only a
/// controller may.
pub fn _remove_from_whitelist(state: &mut State, is_controller: bool, address: &str) -> (res: Result<(), PythiaError>)
    requires
        old(state).wf(),
    ensures
        final(state).wf(),
        !is_controller ==> res == Err::<(), PythiaError>(PythiaError::NotAController) && *final(state) == *old(state),
        is_controller ==> match spec_normalize(address@) {
            None => res == Err::<(), PythiaError>(PythiaError::InvalidAddressFormat) && *final(state) == *old(state),
            Some(a) => res is Ok
                && list_view(final(state).whitelist@) == spec_without(list_view(old(state).whitelist@), a)
                && final(state).subscriptions.view() == owner_removed(old(state).subscriptions.view(), a)
                && final(state).same_settings(&*old(state))
                && final(state).chains.view() == old(state).chains.view()
                && final(state).balances.view() == old(state).balances.view()
                && final(state).withdraw_requests.view() == old(state).withdraw_requests.view(),
        },
{
    validator::caller(is_controller)?;
    let address = normalize(address)?;
    whitelist::remove(&mut state.whitelist, address.as_str());
    let owner = Some(address);
    let r = state.subscriptions.remove_all(None, Vec::new(), owner);
    match r {
        Ok(()) => Ok(()),
        Err(_) => Err(PythiaError::UnableToRemoveSubscriptions),
    }
}

/// Blacklists an address and stops its subscriptions; only a controller may.
pub fn _blacklist(state: &mut State, is_controller: bool, address: &str) -> (res: Result<(), PythiaError>)
    requires
        old(state).wf(),
    ensures
        final(state).wf(),
        !is_controller ==> res == Err::<(), PythiaError>(PythiaError::NotAController) && *final(state) == *old(state),
        is_controller ==> match spec_normalize(address@) {
            None => res == Err::<(), PythiaError>(PythiaError::InvalidAddressFormat) && *final(state) == *old(state),
            Some(a) => res is Ok
                && list_view(final(state).whitelist@) == spec_with_flag(list_view(old(state).whitelist@), a, true)
                && final(state).subscriptions.view() == owner_stopped(old(state).subscriptions.view(), a)
                && final(state).same_settings(&*old(state))
                && final(state).chains.view() == old(state).chains.view()
                && final(state).balances.view() == old(state).balances.view()
                && final(state).withdraw_requests.view() == old(state).withdraw_requests.view(),
        },
{
    validator::caller(is_controller)?;
    let address = normalize(address)?;
    whitelist::blacklist(&mut state.whitelist, address.as_str());
    let owner = Some(address);
    let r = state.subscriptions.stop_all(None, Vec::new(), owner);
    match r {
        Ok(()) => Ok(()),
        Err(_) => Err(PythiaError::UnableToStopSubscriptions),
    }
}

/// Lifts the blacklisting of an address; its subscriptions stay stopped. Only a
/// controller may.
pub fn _unblacklist(state: &mut State, is_controller: bool, address: &str) -> (res: Result<(), PythiaError>)
    ensures
        !is_controller ==> res == Err::<(), PythiaError>(PythiaError::NotAController) && *final(state) == *old(state),
        is_controller ==> match spec_normalize(address@) {
            None => res == Err::<(), PythiaError>(PythiaError::InvalidAddressFormat) && *final(state) == *old(state),
            Some(a) => res is Ok
                && list_view(final(state).whitelist@) == spec_with_flag(list_view(old(state).whitelist@), a, false)
                && final(state).same_settings(&*old(state))
                && final(state).same_tables(&*old(state))
                && final(state).wf() == old(state).wf(),
        },
{
    validator::caller(is_controller)?;
    let address = normalize(address)?;
    whitelist::unblacklist(&mut state.whitelist, address.as_str());
    Ok(())
}

/// Whether an address is whitelisted and not blacklisted; anyone may ask.
pub fn _is_whitelisted(state: &State, address: &str) -> (res: Result<bool, PythiaError>)
    ensures
        match spec_normalize(address@) {
            None => res == Err::<bool, PythiaError>(PythiaError::InvalidAddressFormat),
            Some(a) => res == Ok::<bool, PythiaError>(spec_is_whitelisted(list_view(state.whitelist@), a)),
        },
{
    let address = normalize(address)?;
    Ok(whitelist::is_whitelisted(&state.whitelist, address.as_str()))
}

/// A copy of the whitelist; only a controller may read it.
pub fn _get_whitelist(state: &State, is_controller: bool) -> (res: Result<Whitelist, PythiaError>)
    ensures
        !is_controller ==> res == Err::<Whitelist, PythiaError>(PythiaError::NotAController),
        is_controller ==> (res matches Ok(w) && list_view(w@) == list_view(state.whitelist@)),
{
    validator::caller(is_controller)?;
    Ok(whitelist::get_list(&state.whitelist))
}

} // verus!
