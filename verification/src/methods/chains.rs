//! Adding, removing and changing the chains the service publishes on.
use vstd::prelude::*;

use crate::types::balance::{empty_balance, UserBalanceView};
use crate::utils::address::spec_normalize;
use crate::types::chains::{parsed_url, spec_updated_chain, Chain, ChainUpdator, ChainView, CreateChainRequest};
use crate::types::errors::PythiaError;
use crate::types::state::State;
use crate::types::subscription::Subscription;
use crate::types::withdraw::WithdrawRequest;
use crate::utils::validator;

verus! {

/// The chain that a creation request describes, its RPC already parsed.
pub open spec fn requested_chain(req: CreateChainRequest, rpc: Seq<char>) -> ChainView {
    ChainView {
        chain_id: req.chain_id,
        rpc: rpc,
        min_balance: req.min_balance,
        block_gas_limit: req.block_gas_limit,
        fee: Some(req.fee),
        symbol: Some(req.symbol@),
        multicall_contract: Some(req.multicall_contract@),
    }
}

/// How far adding chain `req` gets: 0, refused before anything changed; 1, the
/// chain was added; 2, its balances were opened too; 3, its subscriptions too;
/// 4, its withdrawal requests too, which is all of it.
pub open spec fn add_chain_progress(s: &State, is_controller: bool, req: CreateChainRequest) -> int {
    let c = req.chain_id;
    if !is_controller || s.chains.view().contains_key(c) || parsed_url(req.rpc@) is None {
        0
    } else if s.balances.view().contains_key(c) {
        1
    } else if s.subscriptions.view().contains_key(c) {
        2
    } else if s.withdraw_requests.view().contains_key(c) {
        3
    } else {
        4
    }
}

/// What adding chain `req` answers.
pub open spec fn add_chain_outcome(s: &State, is_controller: bool, req: CreateChainRequest) -> Result<(), PythiaError> {
    if !is_controller {
        Err(PythiaError::NotAController)
    } else if s.chains.view().contains_key(req.chain_id) {
        Err(PythiaError::ChainAlreadyExists)
    } else if add_chain_progress(s, is_controller, req) < 4 {
        Err(PythiaError::UnableToAddNewChain)
    } else {
        Ok(())
    }
}

/// Adds chain `req` and opens its tables, in order: the chain, its balances, its
/// subscriptions, its withdrawal requests. A step that fails stops the others;
/// those already taken stay. Only a controller may. The balance of the
/// canister's own address is opened afterwards by `_add_chain_pma_balance`.
pub fn _add_chain(state: &mut State, is_controller: bool, req: &CreateChainRequest) -> (res: Result<(), PythiaError>)
    requires
        old(state).wf(),
    ensures
        final(state).wf(),
        res == add_chain_outcome(&*old(state), is_controller, *req),
        final(state).same_settings(&*old(state)),
        final(state).whitelist == old(state).whitelist,
        final(state).chains.view() == (if add_chain_progress(&*old(state), is_controller, *req) >= 1 {
            old(state).chains.view().insert(req.chain_id, requested_chain(*req, parsed_url(req.rpc@)->0))
        } else {
            old(state).chains.view()
        }),
        final(state).balances.view() == (if add_chain_progress(&*old(state), is_controller, *req) >= 2 {
            old(state).balances.view().insert(req.chain_id, Map::<Seq<char>, UserBalanceView>::empty())
        } else {
            old(state).balances.view()
        }),
        final(state).subscriptions.view() == (if add_chain_progress(&*old(state), is_controller, *req) >= 3 {
            old(state).subscriptions.view().insert(req.chain_id, Seq::<Subscription>::empty())
        } else {
            old(state).subscriptions.view()
        }),
        final(state).withdraw_requests.view() == (if add_chain_progress(&*old(state), is_controller, *req) >= 4 {
            old(state).withdraw_requests.view().insert(req.chain_id, Seq::<WithdrawRequest>::empty())
        } else {
            old(state).withdraw_requests.view()
        }),
{
    validator::caller(is_controller)?;
    if state.chains.is_exists(req.chain_id) {
        return Err(PythiaError::ChainAlreadyExists);
    }
    if state.chains.add(req).is_err() {
        return Err(PythiaError::UnableToAddNewChain);
    }
    if state.balances.init_new_chain(req.chain_id).is_err() {
        return Err(PythiaError::UnableToAddNewChain);
    }
    if state.subscriptions.init_new_chain(req.chain_id).is_err() {
        return Err(PythiaError::UnableToAddNewChain);
    }
    if state.withdraw_requests.init_new_chain(req.chain_id).is_err() {
        return Err(PythiaError::UnableToAddNewChain);
    }
    Ok(())
}

/// Opens the balance of the canister's own address `pma` on a newly added chain.
pub fn _add_chain_pma_balance(state: &mut State, chain_id: u64, pma: &str) -> (res: Result<(), PythiaError>)
    requires
        old(state).wf(),
    ensures
        final(state).wf(),
        final(state).same_settings(&*old(state)),
        final(state).whitelist == old(state).whitelist,
        final(state).chains.view() == old(state).chains.view(),
        final(state).subscriptions.view() == old(state).subscriptions.view(),
        final(state).withdraw_requests.view() == old(state).withdraw_requests.view(),
        match spec_normalize(pma@) {
            Some(a) if old(state).balances.view().contains_key(chain_id)
                && !old(state).balances.view()[chain_id].contains_key(a) =>
                res is Ok && final(state).balances.view() == old(state).balances.view().insert(chain_id,
                    old(state).balances.view()[chain_id].insert(a, empty_balance())),
            _ => res == Err::<(), PythiaError>(PythiaError::UnableToAddNewBalance)
                && final(state).balances.view() == old(state).balances.view(),
        },
{
    let r = state.balances.create(chain_id, pma);
    match r {
        Ok(()) => Ok(()),
        Err(_) => Err(PythiaError::UnableToAddNewBalance),
    }
}

/// Removes chain `chain_id` and its tables, in order: the chain, its balances,
/// its subscriptions, then its withdrawal requests. A table that lacks the chain
/// stops the removal with `UnableToRemoveChain`; the tables already taken stay
/// taken. Only a controller may.
pub fn _remove_chain(state: &mut State, is_controller: bool, chain_id: u64) -> (res: Result<(), PythiaError>)
    requires
        old(state).wf(),
    ensures
        final(state).wf(),
        final(state).same_settings(&*old(state)),
        final(state).whitelist == old(state).whitelist,
        !is_controller ==> res == Err::<(), PythiaError>(PythiaError::NotAController) && final(state).same_tables(&*old(state)),
        is_controller && !old(state).chains.view().contains_key(chain_id) ==>
            res == Err::<(), PythiaError>(PythiaError::UnableToRemoveChain) && final(state).same_tables(&*old(state)),
        is_controller && old(state).chains.view().contains_key(chain_id) ==> {
            let s = &*old(state);
            &&& final(state).chains.view() == s.chains.view().remove(chain_id)
            &&& if !s.balances.view().contains_key(chain_id) {
                &&& res == Err::<(), PythiaError>(PythiaError::UnableToRemoveChain)
                &&& final(state).balances.view() == s.balances.view()
                &&& final(state).subscriptions.view() == s.subscriptions.view()
                &&& final(state).withdraw_requests.view() == s.withdraw_requests.view()
            } else if !s.subscriptions.view().contains_key(chain_id) {
                &&& res == Err::<(), PythiaError>(PythiaError::UnableToRemoveChain)
                &&& final(state).balances.view() == s.balances.view().remove(chain_id)
                &&& final(state).subscriptions.view() == s.subscriptions.view()
                &&& final(state).withdraw_requests.view() == s.withdraw_requests.view()
            } else if !s.withdraw_requests.view().contains_key(chain_id) {
                &&& res == Err::<(), PythiaError>(PythiaError::UnableToRemoveChain)
                &&& final(state).balances.view() == s.balances.view().remove(chain_id)
                &&& final(state).subscriptions.view() == s.subscriptions.view().remove(chain_id)
                &&& final(state).withdraw_requests.view() == s.withdraw_requests.view()
            } else {
                &&& res == Ok::<(), PythiaError>(())
                &&& final(state).balances.view() == s.balances.view().remove(chain_id)
                &&& final(state).subscriptions.view() == s.subscriptions.view().remove(chain_id)
                &&& final(state).withdraw_requests.view() == s.withdraw_requests.view().remove(chain_id)
            }
        },
{
    validator::caller(is_controller)?;
    if state.chains.remove(chain_id).is_err() {
        return Err(PythiaError::UnableToRemoveChain);
    }
    if state.balances.remove_chain(chain_id).is_err() {
        return Err(PythiaError::UnableToRemoveChain);
    }
    if state.subscriptions.deinit_chain(chain_id).is_err() {
        return Err(PythiaError::UnableToRemoveChain);
    }
    if state.withdraw_requests.deinit_chain(chain_id).is_err() {
        return Err(PythiaError::UnableToRemoveChain);
    }
    Ok(())
}

/// Applies `updator` to chain `chain_id`; only a controller may. A refused
/// update changes nothing and answers `UnableToUpdateChain`.
pub fn update_chain(state: &mut State, is_controller: bool, chain_id: u64, updator: ChainUpdator) -> (res: Result<(), PythiaError>)
    requires
        old(state).wf(),
    ensures
        final(state).wf(),
        final(state).same_settings(&*old(state)),
        final(state).whitelist == old(state).whitelist,
        final(state).balances.view() == old(state).balances.view(),
        final(state).subscriptions.view() == old(state).subscriptions.view(),
        final(state).withdraw_requests.view() == old(state).withdraw_requests.view(),
        !is_controller ==> res == Err::<(), PythiaError>(PythiaError::NotAController)
            && final(state).chains.view() == old(state).chains.view(),
        is_controller ==> {
            let ok = old(state).chains.view().contains_key(chain_id)
                && (updator@.rpc matches Some(r) ==> parsed_url(r) is Some);
            &&& ok ==> res is Ok && final(state).chains.view() == old(state).chains.view().insert(chain_id,
                spec_updated_chain(old(state).chains.view()[chain_id], updator@,
                    if let Some(r) = updator@.rpc { parsed_url(r)->0 } else { seq![] }))
            &&& !ok ==> res == Err::<(), PythiaError>(PythiaError::UnableToUpdateChain)
                && final(state).chains.view() == old(state).chains.view()
        },
{
    validator::caller(is_controller)?;
    match state.chains.update(chain_id, updator) {
        Ok(()) => Ok(()),
        Err(_) => Err(PythiaError::UnableToUpdateChain),
    }
}

/// Sets the RPC of chain `chain_id`; only a controller may.
pub fn _update_chain_rpc(state: &mut State, is_controller: bool, chain_id: u64, rpc: String) -> (res: Result<(), PythiaError>)
    requires
        old(state).wf(),
    ensures
        final(state).wf(),
        final(state).same_settings(&*old(state)),
        final(state).whitelist == old(state).whitelist,
        final(state).balances.view() == old(state).balances.view(),
        final(state).subscriptions.view() == old(state).subscriptions.view(),
        final(state).withdraw_requests.view() == old(state).withdraw_requests.view(),
        !is_controller ==> res == Err::<(), PythiaError>(PythiaError::NotAController)
            && final(state).chains.view() == old(state).chains.view(),
        is_controller ==> match (old(state).chains.view().contains_key(chain_id), parsed_url(rpc@)) {
            (true, Some(p)) => res is Ok && final(state).chains.view() == old(state).chains.view().insert(chain_id,
                ChainView { rpc: p, ..old(state).chains.view()[chain_id] }),
            _ => res == Err::<(), PythiaError>(PythiaError::UnableToUpdateChain)
                && final(state).chains.view() == old(state).chains.view(),
        },
{
    let updator = ChainUpdator {
        rpc: Some(rpc),
        min_balance: None,
        block_gas_limit: None,
        fee: None,
        symbol: None,
        multicall_contract: None,
    };
    update_chain(state, is_controller, chain_id, updator)
}

/// Sets the minimum balance of chain `chain_id`; only a controller may.
pub fn _update_chain_min_balance(state: &mut State, is_controller: bool, chain_id: u64, min_balance: u128) -> (res: Result<(), PythiaError>)
    requires
        old(state).wf(),
    ensures
        final(state).wf(),
        final(state).same_settings(&*old(state)),
        final(state).whitelist == old(state).whitelist,
        final(state).balances.view() == old(state).balances.view(),
        final(state).subscriptions.view() == old(state).subscriptions.view(),
        final(state).withdraw_requests.view() == old(state).withdraw_requests.view(),
        !is_controller ==> res == Err::<(), PythiaError>(PythiaError::NotAController)
            && final(state).chains.view() == old(state).chains.view(),
        is_controller && old(state).chains.view().contains_key(chain_id) ==> res is Ok
            && final(state).chains.view() == old(state).chains.view().insert(chain_id,
                ChainView { min_balance: min_balance, ..old(state).chains.view()[chain_id] }),
        is_controller && !old(state).chains.view().contains_key(chain_id) ==>
            res == Err::<(), PythiaError>(PythiaError::UnableToUpdateChain)
            && final(state).chains.view() == old(state).chains.view(),
{
    let updator = ChainUpdator {
        rpc: None,
        min_balance: Some(min_balance),
        block_gas_limit: None,
        fee: None,
        symbol: None,
        multicall_contract: None,
    };
    update_chain(state, is_controller, chain_id, updator)
}

/// Sets the fee and the symbol of chain `chain_id`; only a controller may.
pub fn _update_chain_fee_and_symbol(state: &mut State, is_controller: bool, chain_id: u64, fee: u128, symbol: String) -> (res: Result<(), PythiaError>)
    requires
        old(state).wf(),
    ensures
        final(state).wf(),
        final(state).same_settings(&*old(state)),
        final(state).whitelist == old(state).whitelist,
        final(state).balances.view() == old(state).balances.view(),
        final(state).subscriptions.view() == old(state).subscriptions.view(),
        final(state).withdraw_requests.view() == old(state).withdraw_requests.view(),
        !is_controller ==> res == Err::<(), PythiaError>(PythiaError::NotAController)
            && final(state).chains.view() == old(state).chains.view(),
        is_controller && old(state).chains.view().contains_key(chain_id) ==> res is Ok
            && final(state).chains.view() == old(state).chains.view().insert(chain_id,
                ChainView { fee: Some(fee), symbol: Some(symbol@), ..old(state).chains.view()[chain_id] }),
        is_controller && !old(state).chains.view().contains_key(chain_id) ==>
            res == Err::<(), PythiaError>(PythiaError::UnableToUpdateChain)
            && final(state).chains.view() == old(state).chains.view(),
{
    let updator = ChainUpdator {
        rpc: None,
        min_balance: None,
        block_gas_limit: None,
        fee: Some(fee),
        symbol: Some(symbol),
        multicall_contract: None,
    };
    update_chain(state, is_controller, chain_id, updator)
}

/// The RPC of chain `chain_id`; only a controller may read it.
pub fn _get_chain_rpc(state: &State, is_controller: bool, chain_id: u64) -> (res: Result<String, PythiaError>)
    requires
        state.wf(),
    ensures
        !is_controller ==> res == Err::<String, PythiaError>(PythiaError::NotAController),
        is_controller && state.chains.view().contains_key(chain_id) ==>
            (res matches Ok(r) && r@ == state.chains.view()[chain_id].rpc),
        is_controller && !state.chains.view().contains_key(chain_id) ==>
            res == Err::<String, PythiaError>(PythiaError::UnableToGetChainRPC),
{
    validator::caller(is_controller)?;
    match state.chains.get_rpc(chain_id) {
        Ok(r) => Ok(r),
        Err(_) => Err(PythiaError::UnableToGetChainRPC),
    }
}

/// Every chain, in table order.
pub fn get_chains(state: &State) -> (res: Vec<Chain>)
    requires
        state.wf(),
    ensures
        res@.len() == state.chains.0@.len(),
        forall|i: int| 0 <= i < res@.len() ==> (#[trigger] res@[i])@ == state.chains.0@[i].1@,
{
    state.chains.get_all()
}

} // verus!
