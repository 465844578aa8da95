//! The accounting of the publisher job: what a published call costs, who pays
//! it, and what happens to a subscription after each call.
use vstd::prelude::*;

use crate::types::balance::UserBalanceView;
use crate::types::errors::PythiaError;
use crate::types::methods::Method;
use crate::types::state::State;
use crate::types::subscription::{
    Subscriptions, has_id, owned_by, stopped, with_status, Subscription, SubscriptionStatus, UpdateSubscriptionRequest,
    SUBSCRIPTIONS_FAILURES_LIMIT,
};
use crate::utils::keyed::{first_index, lemma_first_index, lemma_first_index_is};
use crate::utils::text::str_eq;
use crate::utils::address::{spec_parse_h160, to_h160};
use crate::utils::multicall::Call;
use crate::utils::web3::TRANSFER_GAS_LIMIT;

verus! {

/// What the multicall contract reports of one call.
pub struct MulticallResult {
    pub success: bool,
    pub used_gas: u128,
    pub return_data: Vec<u8>,
}

/// Each call's share of the transfer gas, plus one hundred.
pub open spec fn spec_gas_for_tx(n_results: nat) -> int {
    (TRANSFER_GAS_LIMIT as nat / n_results) as int + 100
}

/// What one call costs its owner: the gas it used plus its share of the
/// transfer gas, at `gas_price`, plus the service fee.
pub open spec fn spec_charge(used_gas: u128, n_results: nat, gas_price: u128, fee: u128) -> int {
    gas_price * (used_gas + spec_gas_for_tx(n_results)) + fee
}

/// What one call costs its owner, or `None` where that does not fit in 128 bits.
pub fn publication_charge(used_gas: u128, n_results: usize, gas_price: u128, fee: u128) -> (res: Option<u128>)
    requires
        n_results >= 1,
    ensures
        spec_charge(used_gas, n_results as nat, gas_price, fee) <= u128::MAX
            ==> res == Some(spec_charge(used_gas, n_results as nat, gas_price, fee) as u128),
        spec_charge(used_gas, n_results as nat, gas_price, fee) > u128::MAX ==> res is None,
{
    let share: u128 = TRANSFER_GAS_LIMIT / (n_results as u128) + 100;
    if gas_price == 0 {
        return Some(fee);
    }
    let gas = match used_gas.checked_add(share) {
        Some(g) => g,
        None => {
            assert(gas_price * (used_gas + share) >= used_gas + share) by (nonlinear_arith)
                requires gas_price >= 1, used_gas + share >= 0;
            return None;
        },
    };
    let cost = match gas_price.checked_mul(gas) {
        Some(c) => c,
        None => { return None; },
    };
    cost.checked_add(fee)
}

/// The gas limit of a subscription that ran over it: what the call used, plus
/// three tenths, counted in tenths.
pub open spec fn spec_raised_gas_limit(used_gas: u128) -> int {
    (used_gas / 10) * 13
}

/// `s` after a call that ran over its gas limit (`over`): stopped, its gas
/// limit raised to fit what the call used.
pub open spec fn gas_checked(s: Subscription, over: bool, used_gas: u128) -> Subscription {
    if over {
        let t = stopped(s);
        Subscription { method: Method { gas_limit: spec_raised_gas_limit(used_gas) as u128, ..t.method }, ..t }
    } else {
        s
    }
}

/// `s` after a publication at `last_update`: one more execution, on a failure one
/// more failure, and stopped once the failures reach the limit.
pub open spec fn recorded(s: Subscription, is_failed: bool, last_update: u64) -> Subscription {
    let st = s.status;
    let failures = if !is_failed {
        st.failures_counter
    } else if let Some(f) = st.failures_counter {
        Some((f + 1) as u64)
    } else {
        Some(1u64)
    };
    let active = if is_failed && st.failures_counter is Some && failures->0 >= SUBSCRIPTIONS_FAILURES_LIMIT {
        false
    } else {
        st.is_active
    };
    with_status(s, SubscriptionStatus {
        is_active: active,
        last_update: last_update,
        executions_counter: (st.executions_counter + 1) as u64,
        failures_counter: failures,
    })
}

/// The balances after `owner` paid `charge` and `fee` went to `pma`, both on chain `c`.
pub open spec fn charged(
    b: Map<u64, Map<Seq<char>, UserBalanceView>>,
    c: u64,
    owner: Seq<char>,
    pma: Seq<char>,
    charge: u128,
    fee: u128,
) -> Map<u64, Map<Seq<char>, UserBalanceView>> {
    let ob = b[c][owner];
    let b1 = b.insert(c, b[c].insert(owner, UserBalanceView { amount: (ob.amount - charge) as u128, nonces: ob.nonces }));
    let pb = b1[c][pma];
    b1.insert(c, b1[c].insert(pma, UserBalanceView { amount: (pb.amount + fee) as u128, nonces: pb.nonces }))
}

/// Why the result `r` of subscription `sub`'s call on chain `c` cannot be
/// settled, with the subscriptions `v` and the balances `bv`: the subscription
/// is gone or changed hands, a counter or the raised gas limit no longer fits,
/// the owner cannot pay, or the fee cannot be credited to `pma`.
pub open spec fn refusal(
    v: Map<u64, Seq<Subscription>>,
    bv: Map<u64, Map<Seq<char>, UserBalanceView>>,
    c: u64,
    pma: Seq<char>,
    sub: Subscription,
    r: MulticallResult,
    n_results: nat,
    gas_price: u128,
    fee: u128,
) -> Option<PythiaError> {
    let over = r.used_gas > sub.method.gas_limit;
    let charge = spec_charge(r.used_gas, n_results, gas_price, fee);
    if r.used_gas == 0 {
        None
    } else if !v.contains_key(c) || first_index(v[c], has_id(sub.id)) < 0 {
        Some(PythiaError::SubscriptionDoesNotExist)
    } else if over && v[c][first_index(v[c], has_id(sub.id))].owner@ != sub.owner@ {
        Some(PythiaError::SubscriptionDoesNotExist)
    } else if (over && spec_raised_gas_limit(r.used_gas) > u128::MAX)
        || v[c][first_index(v[c], has_id(sub.id))].status.executions_counter == u64::MAX
        || v[c][first_index(v[c], has_id(sub.id))].status.failures_counter == Some(u64::MAX) {
        Some(PythiaError::UnableToUpdateSubscription)
    } else if charge > u128::MAX || !bv.contains_key(c) || !bv[c].contains_key(sub.owner@) || bv[c][sub.owner@].amount < charge {
        Some(PythiaError::UnableToReduceBalance)
    } else if !bv[c].contains_key(pma)
        || (if pma == sub.owner@ { bv[c][pma].amount - charge } else { bv[c][pma].amount as int }) + fee > u128::MAX {
        Some(PythiaError::UnableToIncreaseBalance)
    } else {
        None
    }
}

/// Why the result `r` of subscription `sub`'s call on chain `c` cannot be
/// settled in state `s` (see `refusal`).
pub open spec fn settle_refusal(
    s: &State,
    c: u64,
    pma: Seq<char>,
    sub: Subscription,
    r: MulticallResult,
    n_results: nat,
    gas_price: u128,
    fee: u128,
) -> Option<PythiaError> {
    refusal(s.subscriptions.view(), s.balances.view(), c, pma, sub, r, n_results, gas_price, fee)
}

/// The subscriptions `v` after the publication of `sub` on chain `c` with result
/// `r` at time `t`: its gas limit checked, the publication recorded.
pub open spec fn published(v: Map<u64, Seq<Subscription>>, c: u64, sub: Subscription, r: MulticallResult, t: u64)
    -> Map<u64, Seq<Subscription>>
{
    let j = first_index(v[c], has_id(sub.id));
    let over = r.used_gas > sub.method.gas_limit;
    v.insert(c, v[c].update(j, recorded(gas_checked(v[c][j], over, r.used_gas), !r.success, t)))
}

/// The subscriptions and balances after settling the first `k` results, the
/// `i`-th result belonging to the `i`-th subscription, and the error that
/// stopped the work, if one did; a refused result changes nothing, and nothing
/// after it is settled.
pub open spec fn settled(
    v: Map<u64, Seq<Subscription>>,
    bv: Map<u64, Map<Seq<char>, UserBalanceView>>,
    c: u64,
    pma: Seq<char>,
    subs: Seq<Subscription>,
    results: Seq<MulticallResult>,
    n_results: nat,
    gas_price: u128,
    fee: u128,
    t: u64,
    k: int,
) -> (Map<u64, Seq<Subscription>>, Map<u64, Map<Seq<char>, UserBalanceView>>, Option<PythiaError>)
    decreases k,
{
    if k <= 0 {
        (v, bv, None)
    } else {
        let p = settled(v, bv, c, pma, subs, results, n_results, gas_price, fee, t, k - 1);
        let sub = subs[k - 1];
        let r = results[k - 1];
        if p.2 is Some || r.used_gas == 0 {
            p
        } else {
            match refusal(p.0, p.1, c, pma, sub, r, n_results, gas_price, fee) {
                Some(e) => (p.0, p.1, Some(e)),
                None => (
                    published(p.0, c, sub, r, t),
                    charged(p.1, c, sub.owner@, pma, spec_charge(r.used_gas, n_results, gas_price, fee) as u128, fee),
                    None,
                ),
            }
        }
    }
}

/// Settles the result `r` of subscription `sub`'s call on chain `chain_id`, one
/// of `n_results` calls of a multicall at `gas_price`. A call that used no gas
/// is to be published again: `Ok(true)`, and nothing changes. Otherwise a call
/// that ran over its gas limit stops the subscription and raises the limit; the
/// publication is recorded at `publishing_time`, failed unless `r.success`; the
/// owner pays the call's charge and the service's address `pma` gets `fee`:
/// `Ok(false)`. A result that cannot be settled is refused with nothing changed.
pub fn settle_publication(
    state: &mut State,
    chain_id: u64,
    pma: &str,
    sub: &Subscription,
    r: &MulticallResult,
    n_results: usize,
    gas_price: u128,
    fee: u128,
    publishing_time: u64,
) -> (res: Result<bool, PythiaError>)
    requires
        old(state).wf(),
        n_results >= 1,
    ensures
        final(state).wf(),
        final(state).same_settings(&*old(state)),
        final(state).whitelist == old(state).whitelist,
        final(state).chains.view() == old(state).chains.view(),
        final(state).withdraw_requests.view() == old(state).withdraw_requests.view(),
        r.used_gas == 0 ==> res == Ok::<bool, PythiaError>(true) && final(state).same_tables(&*old(state)),
        r.used_gas != 0 ==> match settle_refusal(&*old(state), chain_id, pma@, *sub, *r, n_results as nat, gas_price, fee) {
            Some(e) => res == Err::<bool, PythiaError>(e) && final(state).same_tables(&*old(state)),
            None => {
                &&& res == Ok::<bool, PythiaError>(false)
                &&& final(state).subscriptions.view() == published(old(state).subscriptions.view(), chain_id, *sub, *r, publishing_time)
                &&& final(state).balances.view() == charged(old(state).balances.view(), chain_id, sub.owner@, pma@,
                    spec_charge(r.used_gas, n_results as nat, gas_price, fee) as u128, fee)
            },
        },
{
    if r.used_gas == 0 {
        return Ok(true);
    }
    let cur = match state.subscriptions.get(chain_id, sub.id) {
        Ok(c) => c,
        Err(_) => { return Err(PythiaError::SubscriptionDoesNotExist); },
    };
    let ghost v = state.subscriptions.view();
    let ghost j = first_index(v[chain_id], has_id(sub.id));
    let over = r.used_gas > sub.method.gas_limit;
    if over && cur.owner != sub.owner {
        return Err(PythiaError::SubscriptionDoesNotExist);
    }
    let mut new_limit: u128 = 0;
    if over {
        new_limit = match (r.used_gas / 10).checked_mul(13) {
            Some(l) => l,
            None => { return Err(PythiaError::UnableToUpdateSubscription); },
        };
    }
    if cur.status.executions_counter == u64::MAX {
        return Err(PythiaError::UnableToUpdateSubscription);
    }
    if let Some(f) = cur.status.failures_counter {
        if f == u64::MAX {
            return Err(PythiaError::UnableToUpdateSubscription);
        }
    }
    let charge = match publication_charge(r.used_gas, n_results, gas_price, fee) {
        Some(c) => c,
        None => { return Err(PythiaError::UnableToReduceBalance); },
    };
    let owner_amount = match state.balances.get(chain_id, sub.owner.as_str()) {
        Ok(a) => a,
        Err(_) => { return Err(PythiaError::UnableToReduceBalance); },
    };
    if owner_amount < charge {
        return Err(PythiaError::UnableToReduceBalance);
    }
    let same = str_eq(pma, sub.owner.as_str());
    let pma_amount = match state.balances.get(chain_id, pma) {
        Ok(a) => a,
        Err(_) => { return Err(PythiaError::UnableToIncreaseBalance); },
    };
    let pma_after = if same { pma_amount - charge } else { pma_amount };
    if pma_after > u128::MAX - fee {
        return Err(PythiaError::UnableToIncreaseBalance);
    }
    proof {
        lemma_first_index(v[chain_id], has_id(sub.id));
    }
    let ghost subs0 = v[chain_id];
    let ghost s1 = gas_checked(subs0[j], over, r.used_gas);
    if over {
        proof {
            assert(owned_by(sub.id, sub.owner@)(subs0[j]));
            assert forall|k: int| 0 <= k < j implies !owned_by(sub.id, sub.owner@)(#[trigger] subs0[k]) by {
                assert(!has_id(sub.id)(subs0[k]));
            }
            lemma_first_index_is(subs0, owned_by(sub.id, sub.owner@), j);
        }
        let _ = state.subscriptions.stop(chain_id, sub.owner.as_str(), sub.id);
        let ghost subs1 = subs0.update(j, stopped(subs0[j]));
        proof {
            assert(state.subscriptions.view() == v.insert(chain_id, subs1));
            assert(owned_by(sub.id, sub.owner@)(subs1[j]));
            assert forall|k: int| 0 <= k < j implies !owned_by(sub.id, sub.owner@)(#[trigger] subs1[k]) by {
                assert(subs1[k] == subs0[k]);
                assert(!has_id(sub.id)(subs0[k]));
            }
            lemma_first_index_is(subs1, owned_by(sub.id, sub.owner@), j);
        }
        let req = UpdateSubscriptionRequest {
            chain_id,
            id: sub.id,
            pair_id: None,
            gas_limit: Some(new_limit),
            method_abi: None,
            contract_addr: None,
            frequency: None,
            is_random: None,
            msg: String::new(),
            sig: String::new(),
        };
        let tf = state.timer_frequency;
        let _ = state.subscriptions.update(&req, sub.owner.as_str(), tf);
        proof {
            let t = state.subscriptions.view()[chain_id][j];
            assert(t.method == s1.method);
            assert(t == s1);
            assert(subs1.update(j, t) =~= subs0.update(j, s1));
            assert(v.insert(chain_id, subs1).insert(chain_id, subs0.update(j, s1)) =~= v.insert(chain_id, subs0.update(j, s1)));
            assert(state.subscriptions.view() == v.insert(chain_id, subs0.update(j, s1)));
        }
    } else {
        assert(subs0.update(j, s1) =~= subs0);
        assert(v.insert(chain_id, subs0) == v);
    }
    let ghost subs2 = subs0.update(j, s1);
    proof {
        assert(has_id(sub.id)(subs2[j]));
        assert forall|k: int| 0 <= k < j implies !has_id(sub.id)(#[trigger] subs2[k]) by {
            assert(subs2[k] == subs0[k]);
        }
        lemma_first_index_is(subs2, has_id(sub.id), j);
    }
    state.subscriptions.update_last_update(chain_id, sub.id, !r.success, publishing_time);
    proof {
        assert(subs2.update(j, recorded(s1, !r.success, publishing_time)) =~= subs0.update(j, recorded(s1, !r.success, publishing_time)));
    }
    let _ = state.balances.reduce(chain_id, sub.owner.as_str(), charge);
    let _ = state.balances.add_amount(chain_id, pma, fee);
    Ok(false)
}

/// The subscriptions among the first `k` pairs of `subs` and `results` whose
/// call used no gas, in order: those are published again.
pub open spec fn unpublished(subs: Seq<Subscription>, results: Seq<MulticallResult>, k: int) -> Seq<Subscription>
    decreases k,
{
    if k <= 0 {
        seq![]
    } else if results[k - 1].used_gas == 0 {
        unpublished(subs, results, k - 1).push(subs[k - 1])
    } else {
        unpublished(subs, results, k - 1)
    }
}

/// Law: the subscriptions handed back for publishing again are those whose call
/// used no gas, and only they. When every call used gas, none is handed back,
/// whether it succeeded or failed; when none did, all are, in order; and two
/// rounds whose calls used the same gas hand back the same subscriptions,
/// whatever the calls' success.
pub proof fn law_only_unused_gas_is_published_again(
    subs: Seq<Subscription>,
    results: Seq<MulticallResult>,
    other: Seq<MulticallResult>,
    k: int,
)
    requires
        0 <= k <= subs.len(),
        k <= results.len(),
        k <= other.len(),
    ensures
        (forall|i: int| 0 <= i < k ==> #[trigger] results[i].used_gas > 0) ==> unpublished(subs, results, k).len() == 0,
        (forall|i: int| 0 <= i < k ==> #[trigger] results[i].used_gas == 0) ==> unpublished(subs, results, k) == subs.take(k),
        (forall|i: int| 0 <= i < k ==> #[trigger] results[i].used_gas == other[i].used_gas)
            ==> unpublished(subs, results, k) == unpublished(subs, other, k),
        unpublished(subs, results, k).len() <= k,
    decreases k,
{
    if k > 0 {
        law_only_unused_gas_is_published_again(subs, results, other, k - 1);
        if forall|i: int| 0 <= i < k ==> #[trigger] results[i].used_gas > 0 {
            assert(results[k - 1].used_gas > 0);
        }
        if forall|i: int| 0 <= i < k ==> #[trigger] results[i].used_gas == 0 {
            assert(results[k - 1].used_gas == 0);
            assert(subs.take(k - 1).push(subs[k - 1]) =~= subs.take(k));
        }
        if forall|i: int| 0 <= i < k ==> #[trigger] results[i].used_gas == other[i].used_gas {
            assert(results[k - 1].used_gas == other[k - 1].used_gas);
        }
    }
}

/// Once a result is refused, the work stays where it stopped.
proof fn lemma_settled_stops(
    v: Map<u64, Seq<Subscription>>,
    bv: Map<u64, Map<Seq<char>, UserBalanceView>>,
    c: u64,
    pma: Seq<char>,
    subs: Seq<Subscription>,
    results: Seq<MulticallResult>,
    n_results: nat,
    gas_price: u128,
    fee: u128,
    t: u64,
    k: int,
    k2: int,
)
    requires
        k <= k2,
        settled(v, bv, c, pma, subs, results, n_results, gas_price, fee, t, k).2 is Some,
    ensures
        settled(v, bv, c, pma, subs, results, n_results, gas_price, fee, t, k2)
            == settled(v, bv, c, pma, subs, results, n_results, gas_price, fee, t, k),
    decreases k2 - k,
{
    if k < k2 {
        lemma_settled_stops(v, bv, c, pma, subs, results, n_results, gas_price, fee, t, k, k2 - 1);
    }
}

/// Settles the results of one multicall, the `i`-th result belonging to the
/// `i`-th subscription, as far as both lists go, and gives back the
/// subscriptions whose call used no gas, to be published again. No results at
/// all leave every subscription to be published again. The first result that
/// cannot be settled ends the work with its error.
pub fn settle_results(
    state: &mut State,
    chain_id: u64,
    pma: &str,
    subs: Vec<Subscription>,
    results: &Vec<MulticallResult>,
    gas_price: u128,
    fee: u128,
    publishing_time: u64,
) -> (res: Result<Vec<Subscription>, PythiaError>)
    requires
        old(state).wf(),
    ensures
        final(state).wf(),
        final(state).same_settings(&*old(state)),
        final(state).whitelist == old(state).whitelist,
        final(state).chains.view() == old(state).chains.view(),
        final(state).withdraw_requests.view() == old(state).withdraw_requests.view(),
        results@.len() == 0 ==> res == Ok::<Vec<Subscription>, PythiaError>(subs) && final(state).same_tables(&*old(state)),
        results@.len() > 0 ==> ({
            let m = if subs@.len() <= results@.len() { subs@.len() as int } else { results@.len() as int };
            let p = settled(old(state).subscriptions.view(), old(state).balances.view(), chain_id, pma@, subs@, results@,
                results@.len() as nat, gas_price, fee, publishing_time, m);
            &&& final(state).subscriptions.view() == p.0
            &&& final(state).balances.view() == p.1
            &&& match p.2 {
                Some(e) => res == Err::<Vec<Subscription>, PythiaError>(e),
                None => res matches Ok(rest) && rest@ == unpublished(subs@, results@, m),
            }
        }),
{
    let n = results.len();
    if n == 0 {
        return Ok(subs);
    }
    let m: usize = if subs.len() <= n { subs.len() } else { n };
    let ghost v0 = state.subscriptions.view();
    let ghost b0 = state.balances.view();
    let mut remaining: Vec<Subscription> = Vec::new();
    let mut i: usize = 0;
    while i < m
        invariant
            state.wf(),
            state.same_settings(&*old(state)),
            state.whitelist == old(state).whitelist,
            state.chains.view() == old(state).chains.view(),
            state.withdraw_requests.view() == old(state).withdraw_requests.view(),
            v0 == old(state).subscriptions.view(),
            b0 == old(state).balances.view(),
            n == results@.len(),
            n >= 1,
            m == (if subs@.len() <= n { subs@.len() } else { n as nat }),
            i <= m,
            remaining@ == unpublished(subs@, results@, i as int),
            ({
                let p = settled(v0, b0, chain_id, pma@, subs@, results@, n as nat, gas_price, fee, publishing_time, i as int);
                &&& state.subscriptions.view() == p.0
                &&& state.balances.view() == p.1
                &&& p.2 is None
            }),
        decreases m - i,
    {
        let again = match settle_publication(state, chain_id, pma, &subs[i], &results[i], n, gas_price, fee, publishing_time) {
            Ok(a) => a,
            Err(e) => {
                proof {
                    lemma_settled_stops(v0, b0, chain_id, pma@, subs@, results@, n as nat, gas_price, fee, publishing_time,
                        i + 1, m as int);
                }
                return Err(e);
            },
        };
        if again {
            remaining.push(subs[i].clone());
        }
        i = i + 1;
    }
    Ok(remaining)
}

/// The multicall call of subscription `sub`, with `call_data` its encoded call: its
/// contract and its gas limit. A contract address that does not parse is refused
/// first, then call data that could not be formed.
pub fn call_of(sub: &Subscription, call_data: Result<Vec<u8>, PythiaError>) -> (res: Result<Call, PythiaError>)
    ensures
        match spec_parse_h160(sub.contract_addr@) {
            None => res == Err::<Call, PythiaError>(PythiaError::InvalidAddressFormat),
            Some(t) => match call_data {
                Err(_) => res == Err::<Call, PythiaError>(PythiaError::UnableToFormCallData),
                Ok(d) => res matches Ok(c) && c.target@ == t && c.call_data@ == d@
                    && c.gas_limit == sub.method.gas_limit,
            },
        },
{
    let target = to_h160(sub.contract_addr.as_str())?;
    match call_data {
        Ok(d) => Ok(Call { target, call_data: d, gas_limit: sub.method.gas_limit }),
        Err(_) => Err(PythiaError::UnableToFormCallData),
    }
}


/// Why a failed publication of subscription `id` on chain `c` cannot be recorded
/// in `v`, if it cannot: the chain or the subscription is missing, or one of its
/// counters is full.
pub open spec fn failure_refusal(v: Map<u64, Seq<Subscription>>, c: u64, id: u64) -> Option<PythiaError> {
    if !v.contains_key(c) {
        Some(PythiaError::ChainDoesNotExist)
    } else if first_index(v[c], has_id(id)) < 0 {
        Some(PythiaError::SubscriptionDoesNotExist)
    } else {
        let st = v[c][first_index(v[c], has_id(id))].status;
        if st.executions_counter == u64::MAX || st.failures_counter == Some(u64::MAX) {
            Some(PythiaError::UnableToUpdateSubscription)
        } else {
            None
        }
    }
}

/// The subscriptions `v` after the first `k` failed publications of `failed`,
/// each a chain and a subscription id, were recorded at `t`, and the refusal
/// that stopped the work, if one did; nothing after a refusal is recorded.
pub open spec fn failures_recorded(v: Map<u64, Seq<Subscription>>, failed: Seq<(u64, u64)>, t: u64, k: int)
    -> (Map<u64, Seq<Subscription>>, Option<PythiaError>)
    decreases k,
{
    if k <= 0 {
        (v, None)
    } else {
        let p = failures_recorded(v, failed, t, k - 1);
        let c = failed[k - 1].0;
        let id = failed[k - 1].1;
        if p.1 is Some {
            p
        } else {
            match failure_refusal(p.0, c, id) {
                Some(e) => (p.0, Some(e)),
                None => {
                    let j = first_index(p.0[c], has_id(id));
                    (p.0.insert(c, p.0[c].update(j, recorded(p.0[c][j], true, t))), None)
                },
            }
        }
    }
}

proof fn lemma_failures_recorded_stop(v: Map<u64, Seq<Subscription>>, failed: Seq<(u64, u64)>, t: u64, k: int, k2: int)
    requires
        k <= k2,
        failures_recorded(v, failed, t, k).1 is Some,
    ensures
        failures_recorded(v, failed, t, k2) == failures_recorded(v, failed, t, k),
    decreases k2 - k,
{
    if k < k2 {
        lemma_failures_recorded_stop(v, failed, t, k, k2 - 1);
    }
}

/// Records, in order, the publications of a publisher round that failed, each
/// given by its chain and subscription id, at `now`: one more execution and one
/// more failure each, and a subscription whose failures reach the limit is
/// stopped. The first failure that cannot be recorded ends the work with its
/// error, and the failures after it are not recorded.
pub fn record_publish_failures(subscriptions: &mut Subscriptions, failed: &Vec<(u64, u64)>, now: u64)
    -> (res: Result<(), PythiaError>)
    requires
        old(subscriptions).wf(),
    ensures
        final(subscriptions).wf(),
        ({
            let p = failures_recorded(old(subscriptions).view(), failed@, now, failed@.len() as int);
            &&& final(subscriptions).view() == p.0
            &&& match p.1 {
                Some(e) => res == Err::<(), PythiaError>(e),
                None => res == Ok::<(), PythiaError>(()),
            }
        }),
{
    let ghost v0 = subscriptions.view();
    let mut i: usize = 0;
    while i < failed.len()
        invariant
            subscriptions.wf(),
            v0 == old(subscriptions).view(),
            i <= failed@.len(),
            subscriptions.view() == failures_recorded(v0, failed@, now, i as int).0,
            failures_recorded(v0, failed@, now, i as int).1 is None,
        decreases failed@.len() - i,
    {
        let c = failed[i].0;
        let id = failed[i].1;
        let refused = match subscriptions.get(c, id) {
            Err(e) => Some(e),
            Ok(s) => {
                let full = match s.status.failures_counter {
                    Some(f) => f == u64::MAX,
                    None => false,
                };
                if s.status.executions_counter == u64::MAX || full {
                    Some(PythiaError::UnableToUpdateSubscription)
                } else {
                    None
                }
            },
        };
        if let Some(e) = refused {
            proof { lemma_failures_recorded_stop(v0, failed@, now, i + 1, failed@.len() as int); }
            return Err(e);
        }
        subscriptions.update_last_update(c, id, true, now);
        i = i + 1;
    }
    Ok(())
}


/// What a publisher round does once it knows what is due.
pub enum RoundPlan {
    /// No subscription is active: withdraw what is owed and stop the publisher.
    Stop,
    /// Publish on each of `chains`, the chains with something due, then stop the
    /// subscriptions whose owners cannot pay when `stop_insufficients`.
    Publish { chains: Vec<(u64, Vec<Subscription>)>, stop_insufficients: bool },
}

/// The entries of `p` whose chain has something due, in order.
pub open spec fn due_chains(p: Seq<(u64, Vec<Subscription>)>) -> Seq<(u64, Vec<Subscription>)>
    decreases p.len(),
{
    if p.len() == 0 {
        p
    } else if p.last().1@.len() > 0 {
        due_chains(p.drop_last()).push(p.last())
    } else {
        due_chains(p.drop_last())
    }
}

/// The plan of a publisher round, given what is due on each chain (`publishable`)
/// and whether any subscription is active: stop when none is; else publish on
/// the chains with something due, and check the owners' balances afterwards when
/// there is at least one such chain.
pub fn plan_round(publishable: Vec<(u64, Vec<Subscription>)>, is_active: bool) -> (res: RoundPlan)
    ensures
        !is_active ==> res is Stop,
        is_active ==> (res matches RoundPlan::Publish { chains, stop_insufficients }
            && chains@ == due_chains(publishable@) && stop_insufficients == (chains@.len() > 0)),
{
    if !is_active {
        return RoundPlan::Stop;
    }
    let ghost all = publishable@;
    assert(all.len() == publishable.len());
    let mut rest = publishable;
    let mut chains: Vec<(u64, Vec<Subscription>)> = Vec::new();
    let mut k: usize = 0;
    while rest.len() > 0
        invariant
            k <= all.len(),
            all.len() <= usize::MAX,
            rest@ == all.subrange(k as int, all.len() as int),
            chains@ == due_chains(all.subrange(0, k as int)),
        decreases rest@.len(),
    {
        let e = rest.remove(0);
        proof {
            assert(e == all[k as int]);
            assert(all.subrange(0, k + 1).drop_last() =~= all.subrange(0, k as int));
        }
        if e.1.len() > 0 {
            chains.push(e);
        }
        k = k + 1;
        proof {
            assert(rest@ =~= all.subrange(k as int, all.len() as int));
        }
    }
    proof {
        assert(all.subrange(0, k as int) =~= all);
    }
    let stop_insufficients = chains.len() > 0;
    RoundPlan::Publish { chains, stop_insufficients }
}

} // verus!
