//! Creating, changing, listing and ending subscriptions.
use vstd::prelude::*;
use vstd::seq_lib::to_multiset_insert;

use crate::types::errors::PythiaError;
use crate::types::pagination::{page_items, spec_page_count, Pagination, PaginationResult};
use crate::types::state::State;
use crate::types::subscription::{
    all_subs, chain_selected, contract_err, freq_err, listed, owned_by, owner_is, restarted, set_active_selected, stopped, sub_pairs,
    update_outcome, updated_sub, without_selected, Subscription, UpdateSubscriptionRequest,
};
use crate::utils::abi::opt_seq;
use crate::types::whitelist::{is_whitelisted, list_view, spec_is_whitelisted};
use crate::utils::abi::resolve_abi_defined;
use crate::utils::keyed::first_index;
use crate::utils::address::spec_normalize;
use crate::utils::keyed::map_entries;
use crate::utils::validator;

verus! {

/// The ways `_subscribe` refuses a request before adding anything, for the
/// subscriber `address` on chain `chain_id`: not whitelisted, no balance or too
/// small a balance there, or a subscription limit reached.
pub open spec fn subscribe_refusal(s: &State, address: Seq<char>, chain_id: u64) -> Option<PythiaError> {
    let all = all_subs(sub_pairs(s.subscriptions.0@));
    if !spec_is_whitelisted(list_view(s.whitelist@), address) {
        Some(PythiaError::UserIsNotWhitelisted)
    } else if !s.balances.view().contains_key(chain_id) {
        Some(PythiaError::ChainDoesNotExist)
    } else if !s.balances.view()[chain_id].contains_key(address) {
        Some(PythiaError::BalanceDoesNotExist)
    } else if !s.chains.view().contains_key(chain_id) {
        Some(PythiaError::ChainDoesNotExist)
    } else if s.balances.view()[chain_id][address].amount < s.chains.view()[chain_id].min_balance {
        Some(PythiaError::InsufficientBalance)
    } else if all.len() > s.subs_limit_total {
        Some(PythiaError::TotalSubscriptionsLimitReached)
    } else if all.filter(owner_is(address)).len() > s.subs_limit_wallet {
        Some(PythiaError::WalletSubscriptionsLimitReached)
    } else {
        None
    }
}

/// The checks of a new subscription by `address` (recovered from its signature)
/// on chain `chain_id`, made before the subscription is built and added.
pub fn _subscribe_checks(state: &State, address: &str, chain_id: u64) -> (res: Result<(), PythiaError>)
    requires
        state.wf(),
    ensures
        match subscribe_refusal(state, address@, chain_id) {
            Some(e) => res == Err::<(), PythiaError>(e),
            None => res is Ok,
        },
{
    if !is_whitelisted(&state.whitelist, address) {
        return Err(PythiaError::UserIsNotWhitelisted);
    }
    let sufficient = state.balances.is_sufficient(&state.chains, chain_id, address)?;
    if !sufficient {
        return Err(PythiaError::InsufficientBalance);
    }
    state.subscriptions.check_limits(address, state.subs_limit_total, state.subs_limit_wallet)
}

/// Stops subscription `sub_id` of `address` (recovered from its signature) on
/// chain `chain_id`; the address must be whitelisted.
pub fn _stop_subscription(state: &mut State, address: &str, chain_id: u64, sub_id: u64) -> (res: Result<(), PythiaError>)
    requires
        old(state).wf(),
    ensures
        final(state).wf(),
        final(state).same_settings(&*old(state)),
        final(state).whitelist == old(state).whitelist,
        final(state).chains.view() == old(state).chains.view(),
        final(state).balances.view() == old(state).balances.view(),
        final(state).withdraw_requests.view() == old(state).withdraw_requests.view(),
        !spec_is_whitelisted(list_view(old(state).whitelist@), address@) ==>
            res == Err::<(), PythiaError>(PythiaError::UserIsNotWhitelisted) && *final(state) == *old(state),
        spec_is_whitelisted(list_view(old(state).whitelist@), address@) ==> {
            let v = old(state).subscriptions.view();
            let j = if v.contains_key(chain_id) { first_index(v[chain_id], owned_by(sub_id, address@)) } else { -1 };
            &&& j < 0 ==> res == Err::<(), PythiaError>(PythiaError::UnableToStopSubscription)
                && final(state).subscriptions.view() == v
            &&& j >= 0 ==> res is Ok
                && final(state).subscriptions.view() == v.insert(chain_id, v[chain_id].update(j, stopped(v[chain_id][j])))
        },
{
    if !is_whitelisted(&state.whitelist, address) {
        return Err(PythiaError::UserIsNotWhitelisted);
    }
    match state.subscriptions.stop(chain_id, address, sub_id) {
        Ok(()) => Ok(()),
        Err(_) => Err(PythiaError::UnableToStopSubscription),
    }
}

/// Starts subscription `sub_id` of `address` (recovered from its signature) on
/// chain `chain_id` again; the address must be whitelisted and its balance there
/// must reach the chain's minimum.
pub fn _start_subscription(state: &mut State, address: &str, chain_id: u64, sub_id: u64) -> (res: Result<(), PythiaError>)
    requires
        old(state).wf(),
    ensures
        final(state).wf(),
        final(state).same_settings(&*old(state)),
        final(state).whitelist == old(state).whitelist,
        final(state).chains.view() == old(state).chains.view(),
        final(state).balances.view() == old(state).balances.view(),
        final(state).withdraw_requests.view() == old(state).withdraw_requests.view(),
        ({
            let s = &*old(state);
            let v = s.subscriptions.view();
            let j = if v.contains_key(chain_id) { first_index(v[chain_id], owned_by(sub_id, address@)) } else { -1 };
            if !spec_is_whitelisted(list_view(s.whitelist@), address@) {
                res == Err::<(), PythiaError>(PythiaError::UserIsNotWhitelisted) && *final(state) == *s
            } else if !s.balances.view().contains_key(chain_id) {
                res == Err::<(), PythiaError>(PythiaError::ChainDoesNotExist) && *final(state) == *s
            } else if !s.balances.view()[chain_id].contains_key(address@) {
                res == Err::<(), PythiaError>(PythiaError::BalanceDoesNotExist) && *final(state) == *s
            } else if !s.chains.view().contains_key(chain_id) {
                res == Err::<(), PythiaError>(PythiaError::ChainDoesNotExist) && *final(state) == *s
            } else if s.balances.view()[chain_id][address@].amount < s.chains.view()[chain_id].min_balance {
                res == Err::<(), PythiaError>(PythiaError::InsufficientBalance) && *final(state) == *s
            } else if j < 0 {
                res == Err::<(), PythiaError>(PythiaError::UnableToStartSubscription)
                    && final(state).subscriptions.view() == v
            } else {
                res is Ok && final(state).subscriptions.view() == v.insert(chain_id, v[chain_id].update(j, restarted(v[chain_id][j])))
            }
        }),
{
    if !is_whitelisted(&state.whitelist, address) {
        return Err(PythiaError::UserIsNotWhitelisted);
    }
    let sufficient = state.balances.is_sufficient(&state.chains, chain_id, address)?;
    if !sufficient {
        return Err(PythiaError::InsufficientBalance);
    }
    match state.subscriptions.start(chain_id, address, sub_id) {
        Ok(()) => Ok(()),
        Err(_) => Err(PythiaError::UnableToStartSubscription),
    }
}

/// Changes subscription `req.id` of `address` (recovered from its signature) as
/// `Subscriptions::update` does; the address must be whitelisted, and a refused
/// update answers `UnableToUpdateSubscription`.
pub fn _update_subscription(state: &mut State, address: &str, req: &UpdateSubscriptionRequest) -> (res: Result<(), PythiaError>)
    requires
        old(state).wf(),
        req.frequency matches Some(f) && f >= 60 ==> old(state).timer_frequency > 0,
        req.method_abi is Some && req.is_random is Some && spec_is_whitelisted(list_view(old(state).whitelist@), address@)
            && old(state).subscriptions.view().contains_key(req.chain_id)
            && first_index(old(state).subscriptions.view()[req.chain_id], owned_by(req.id, address@)) >= 0
            && !contract_err(*req) && !freq_err(*req, old(state).timer_frequency)
            ==> resolve_abi_defined(req.method_abi->0@, opt_seq(req.pair_id), req.is_random->0),
    ensures
        final(state).wf(),
        final(state).same_settings(&*old(state)),
        final(state).whitelist == old(state).whitelist,
        final(state).chains.view() == old(state).chains.view(),
        final(state).balances.view() == old(state).balances.view(),
        final(state).withdraw_requests.view() == old(state).withdraw_requests.view(),
        !spec_is_whitelisted(list_view(old(state).whitelist@), address@) ==>
            res == Err::<(), PythiaError>(PythiaError::UserIsNotWhitelisted) && *final(state) == *old(state),
        spec_is_whitelisted(list_view(old(state).whitelist@), address@) ==> {
            let v = old(state).subscriptions.view();
            let t = old(state).timer_frequency;
            let j = if v.contains_key(req.chain_id) { first_index(v[req.chain_id], owned_by(req.id, address@)) } else { -1 };
            &&& j < 0 ==> res == Err::<(), PythiaError>(PythiaError::UnableToUpdateSubscription)
                && final(state).subscriptions.view() == v
            &&& j >= 0 ==> (res is Ok <==> update_outcome(*req, t) is Ok)
                && (res is Err ==> res == Err::<(), PythiaError>(PythiaError::UnableToUpdateSubscription))
                && final(state).subscriptions.view().contains_key(req.chain_id)
                && final(state).subscriptions.view() == v.insert(req.chain_id,
                    v[req.chain_id].update(j, final(state).subscriptions.view()[req.chain_id][j]))
                && updated_sub(v[req.chain_id][j], final(state).subscriptions.view()[req.chain_id][j], *req, t)
        },
{
    if !is_whitelisted(&state.whitelist, address) {
        return Err(PythiaError::UserIsNotWhitelisted);
    }
    let timer_frequency = state.timer_frequency;
    match state.subscriptions.update(req, address, timer_frequency) {
        Ok(()) => Ok(()),
        Err(_) => Err(PythiaError::UnableToUpdateSubscription),
    }
}

/// Stops every subscription of every chain; only a controller may.
pub fn _stop_subscriptions(state: &mut State, is_controller: bool) -> (res: Result<(), PythiaError>)
    requires
        old(state).wf(),
    ensures
        final(state).wf(),
        final(state).same_settings(&*old(state)),
        final(state).whitelist == old(state).whitelist,
        final(state).chains.view() == old(state).chains.view(),
        final(state).balances.view() == old(state).balances.view(),
        final(state).withdraw_requests.view() == old(state).withdraw_requests.view(),
        !is_controller ==> res == Err::<(), PythiaError>(PythiaError::NotAController) && *final(state) == *old(state),
        is_controller ==> res is Ok && final(state).subscriptions.view() == map_entries(old(state).subscriptions.view(),
            |c: u64, subs: Seq<Subscription>| if chain_selected(c, None) { set_active_selected(subs, seq![], None, false) } else { subs }),
{
    validator::caller(is_controller)?;
    match state.subscriptions.stop_all(None, Vec::new(), None) {
        Ok(()) => Ok(()),
        Err(_) => Err(PythiaError::UnableToStopSubscriptions),
    }
}

/// Removes every subscription of every chain; only a controller may.
pub fn _remove_subscriptions(state: &mut State, is_controller: bool) -> (res: Result<(), PythiaError>)
    requires
        old(state).wf(),
    ensures
        final(state).wf(),
        final(state).same_settings(&*old(state)),
        final(state).whitelist == old(state).whitelist,
        final(state).chains.view() == old(state).chains.view(),
        final(state).balances.view() == old(state).balances.view(),
        final(state).withdraw_requests.view() == old(state).withdraw_requests.view(),
        !is_controller ==> res == Err::<(), PythiaError>(PythiaError::NotAController) && *final(state) == *old(state),
        is_controller ==> res is Ok && final(state).subscriptions.view() == map_entries(old(state).subscriptions.view(),
            |c: u64, subs: Seq<Subscription>| if chain_selected(c, None) { without_selected(subs, seq![], None) } else { subs }),
{
    validator::caller(is_controller)?;
    match state.subscriptions.remove_all(None, Vec::new(), None) {
        Ok(()) => Ok(()),
        Err(_) => Err(PythiaError::UnableToRemoveSubscriptions),
    }
}

/// Removes subscription `id` from every chain, whoever owns it; only a controller
/// may.
pub fn _remove_subscription(state: &mut State, is_controller: bool, id: u64) -> (res: Result<(), PythiaError>)
    requires
        old(state).wf(),
    ensures
        final(state).wf(),
        final(state).same_settings(&*old(state)),
        final(state).whitelist == old(state).whitelist,
        final(state).chains.view() == old(state).chains.view(),
        final(state).balances.view() == old(state).balances.view(),
        final(state).withdraw_requests.view() == old(state).withdraw_requests.view(),
        !is_controller ==> res == Err::<(), PythiaError>(PythiaError::NotAController) && *final(state) == *old(state),
        is_controller ==> res is Ok && final(state).subscriptions.view() == map_entries(old(state).subscriptions.view(),
            |c: u64, subs: Seq<Subscription>| if chain_selected(c, None) { without_selected(subs, seq![id], None) } else { subs }),
{
    validator::caller(is_controller)?;
    let mut ids: Vec<u64> = Vec::new();
    ids.push(id);
    assert(ids@ =~= seq![id]);
    match state.subscriptions.remove_all(None, ids, None) {
        Ok(()) => Ok(()),
        Err(_) => Err(PythiaError::UnableToRemoveSubscriptions),
    }
}

proof fn lemma_page_offset(page: int, size: int)
    by (nonlinear_arith)
    requires
        page >= 1,
        size >= 1,
    ensures
        (page - 1) * size + size == page * size,
        0 <= (page - 1) * size,
{
}

/// The ids are in increasing order, allowing equal ones.
pub open spec fn sorted_by_id(s: Seq<Subscription>) -> bool {
    forall|i: int, j: int| 0 <= i <= j < s.len() ==> (#[trigger] s[i]).id <= (#[trigger] s[j]).id
}

/// The subscriptions sorted by id; those with the same id keep their order.
pub fn sort_by_id(v: Vec<Subscription>) -> (res: Vec<Subscription>)
    ensures
        res@.to_multiset() == v@.to_multiset(),
        sorted_by_id(res@),
{
    let mut res: Vec<Subscription> = Vec::new();
    let mut k: usize = 0;
    let n = v.len();
    assert(v@.subrange(0, 0) =~= res@);
    while k < n
        invariant
            n == v@.len(),
            k <= n,
            res@.to_multiset() == v@.subrange(0, k as int).to_multiset(),
            sorted_by_id(res@),
        decreases n - k,
    {
        let x = v[k].clone();
        let mut p: usize = 0;
        while p < res.len() && res[p].id <= x.id
            invariant
                p <= res@.len(),
                forall|i: int| 0 <= i < p ==> (#[trigger] res@[i]).id <= x.id,
            decreases res@.len() - p,
        {
            p = p + 1;
        }
        let ghost before = res@;
        res.insert(p, x);
        proof {
            to_multiset_insert(before, p as int, x);
            assert(v@.subrange(0, k + 1) =~= v@.subrange(0, k as int).push(v@[k as int]));
            vstd::seq_lib::to_multiset_build(v@.subrange(0, k as int), v@[k as int]);
            assert forall|i: int, j: int| 0 <= i <= j < res@.len() implies (#[trigger] res@[i]).id <= (#[trigger] res@[j]).id by {
                if i < p && j < p {
                    assert(res@[i] == before[i] && res@[j] == before[j]);
                } else if i < p && j == p {
                    assert(res@[i] == before[i]);
                } else if i < p {
                    assert(res@[i] == before[i] && res@[j] == before[j - 1]);
                } else if i == p && j > p {
                    assert(res@[j] == before[j - 1]);
                    assert(p < before.len());
                    assert(before[p as int].id > x.id);
                } else if i > p {
                    assert(res@[i] == before[i - 1] && res@[j] == before[j - 1]);
                }
            }
        }
        k = k + 1;
    }
    assert(v@.subrange(0, n as int) =~= v@);
    res
}

/// Which subscriptions `get_subscriptions` lists: on chain `chain_id`, of the
/// owner whose address `owner` denotes, listed in `ids`, each when given.
pub struct GetSubscriptionsFilter {
    pub chain_id: Option<u64>,
    pub ids: Vec<u64>,
    pub owner: Option<String>,
}

/// The subscriptions that `filter` lets through, chain after chain.
pub open spec fn filtered(s: &State, filter: Option<GetSubscriptionsFilter>) -> Seq<Subscription> {
    let all = all_subs(sub_pairs(s.subscriptions.0@));
    match filter {
        Some(f) => all.filter(listed(f.chain_id, f.ids@, if let Some(o) = f.owner { spec_normalize(o@) } else { None })),
        None => all.filter(listed(None, seq![], None)),
    }
}

/// Law: under an owner filter, every subscription listed belongs to the owner
/// whose address the filter gives (in canonical form), and every subscription of
/// that owner that meets the chain and id filters is listed.
pub proof fn law_owner_filter_lists_the_owners_subscriptions(state: &State, f: GetSubscriptionsFilter, owner: Seq<char>)
    requires
        f.owner matches Some(a) && spec_normalize(a@) == Some(owner),
    ensures
        forall|k: int| 0 <= k < filtered(state, Some(f)).len() ==> (#[trigger] filtered(state, Some(f))[k]).owner@ == owner,
        forall|k: int| 0 <= k < filtered(state, Some(f)).len() ==> {
            &&& (f.chain_id is None || f.chain_id == Some((#[trigger] filtered(state, Some(f))[k]).method.chain_id))
            &&& (f.ids@.len() == 0 || f.ids@.contains(filtered(state, Some(f))[k].id))
            &&& all_subs(sub_pairs(state.subscriptions.0@)).contains(filtered(state, Some(f))[k])
        },
        forall|s: Subscription| all_subs(sub_pairs(state.subscriptions.0@)).contains(s) && s.owner@ == owner
            && (f.chain_id is None || f.chain_id == Some(s.method.chain_id))
            && (f.ids@.len() == 0 || f.ids@.contains(s.id))
            ==> #[trigger] filtered(state, Some(f)).contains(s),
{
    broadcast use vstd::seq_lib::group_filter_ensures;
    let all = all_subs(sub_pairs(state.subscriptions.0@));
    let p = listed(f.chain_id, f.ids@, Some(owner));
    assert(filtered(state, Some(f)) == all.filter(p));
    assert forall|k: int| 0 <= k < filtered(state, Some(f)).len() implies (#[trigger] filtered(state, Some(f))[k]).owner@ == owner by {
        assert(p(all.filter(p)[k]));
    }
    assert forall|k: int| 0 <= k < filtered(state, Some(f)).len() implies {
        &&& (f.chain_id is None || f.chain_id == Some((#[trigger] filtered(state, Some(f))[k]).method.chain_id))
        &&& (f.ids@.len() == 0 || f.ids@.contains(filtered(state, Some(f))[k].id))
        &&& all.contains(filtered(state, Some(f))[k])
    } by {
        assert(p(all.filter(p)[k]));
        assert(all.filter(p).contains(all.filter(p)[k]));
        all.lemma_filter_contains_rev(p, all.filter(p)[k]);
    }
    assert forall|s: Subscription| all.contains(s) && s.owner@ == owner
        && (f.chain_id is None || f.chain_id == Some(s.method.chain_id))
        && (f.ids@.len() == 0 || f.ids@.contains(s.id))
        implies #[trigger] filtered(state, Some(f)).contains(s) by {
        assert(p(s));
        let i = choose|i: int| 0 <= i < all.len() && all[i] == s;
        all.lemma_filter_contains(p, i);
    }
}

/// The subscriptions that `filter` lets through: with `pagination`, sorted by id
/// and cut to the page asked for; without, all of them on one page.
pub fn get_subscriptions(state: &State, filter: Option<GetSubscriptionsFilter>, pagination: Option<Pagination>)
    -> (res: PaginationResult<Subscription>)
    requires
        filter matches Some(f) ==> (f.owner matches Some(o) ==> spec_normalize(o@) is Some),
        pagination matches Some(p) ==> p.page >= 1 && p.size >= 1
            && p.page * p.size + all_subs(sub_pairs(state.subscriptions.0@)).len() <= usize::MAX,
    ensures
        match pagination {
            None => res.page == 1 && res.total_pages == 1 && res.items@ == filtered(state, filter)
                && res.size == filtered(state, filter).len() && res.total_items == filtered(state, filter).len(),
            Some(p) => {
                &&& res.page == p.page && res.size == p.size
                &&& res.total_items == filtered(state, filter).len()
                &&& res.total_pages == spec_page_count(filtered(state, filter).len(), p.size as nat)
                &&& exists|sorted: Seq<Subscription>| {
                    &&& sorted.to_multiset() == filtered(state, filter).to_multiset()
                    &&& sorted_by_id(sorted)
                    &&& #[trigger] page_items(sorted, p.page as nat, p.size as nat) == res.items@
                }
            },
        },
{
    let list = match filter {
        Some(f) => state.subscriptions.get_all(f.chain_id, f.ids, f.owner),
        None => state.subscriptions.get_all(None, Vec::new(), None),
    };
    proof {
        let all = all_subs(sub_pairs(state.subscriptions.0@));
        assert(list@.len() <= all.len()) by {
            all.lemma_filter_len(listed(
                if let Some(f) = filter { f.chain_id } else { None },
                if let Some(f) = filter { f.ids@ } else { seq![] },
                if let Some(f) = filter { if let Some(o) = f.owner { spec_normalize(o@) } else { None } } else { None }));
        }
    }
    match pagination {
        Some(p) => {
            let sorted = sort_by_id(list);
            proof {
                vstd::seq_lib::to_multiset_len(sorted@);
                vstd::seq_lib::to_multiset_len(list@);
                lemma_page_offset(p.page as int, p.size as int);
            }
            let res = p.paginate(sorted);
            proof {
                assert(page_items(sorted@, p.page as nat, p.size as nat) == res.items@);
            }
            res
        },
        None => {
            let n = list.len();
            assert(n == list@.len());
            PaginationResult::from(list)
        },
    }
}

} // verus!
