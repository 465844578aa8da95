use vstd::prelude::*;

use crate::types::errors::PythiaError;
use crate::types::methods::{
    price_mutation_condition, spec_frequency_error, ExecutionCondition, ExecutionConditionError, Method, MethodType,
    PriceMutationType,
};
use crate::utils::keyed::{
    first_index, keys_unique, lemma_first_index, lemma_first_index_is, lemma_push, lemma_remove, lemma_to_map,
    lemma_to_map_pointwise, lemma_update, map_entries, to_map,
};
use crate::utils::abi::{method_type_view, opt_seq, resolve_abi, resolve_abi_defined, spec_resolve_abi};
use crate::utils::address::{normalize, spec_normalize};
use crate::utils::text::{opt_view, str_eq, str_to_string};
use crate::utils::validator::{spec_subscription_frequency_error, subscription_frequency};

verus! {

/// The name of the function that an ABI JSON text describes, as `ethabi` reads it.
pub uninterp spec fn abi_function_name(abi: Seq<char>) -> Option<Seq<char>>;

/// `serde_json::from_str::<ethabi::Function>`: reads a function description and gives
/// its name; which texts it accepts is named, not stated.
#[verifier::external_body]
pub(crate) fn function_name(abi: &str) -> (res: Option<String>)
    ensures
        opt_view(res) == abi_function_name(abi@),
{
    match serde_json::from_str::<ic_web3_rs::ethabi::Function>(abi) {
        Ok(f) => Some(f.name),
        Err(_) => None,
    }
}

/// The execution condition that a subscription request asks for: a frequency when one
/// is given, else a price mutation (its price still to be read), else none.
pub fn exec_condition_from_request(req: &SubsribeRequest) -> (res: Result<ExecutionCondition, PythiaError>)
    ensures
        match req.frequency_condition {
            Some(f) => res == Ok::<ExecutionCondition, PythiaError>(ExecutionCondition::Frequency(f)),
            None => match req.price_mutation_cond_req {
                Some(p) => res matches Ok(ExecutionCondition::PriceMutation { mutation_rate, pair_id, creation_price, price_mutation_type })
                    && mutation_rate == p.mutation_rate && pair_id@ == p.pair_id@ && creation_price == 0
                    && price_mutation_type == p.price_mutation_type,
                None => res == Err::<ExecutionCondition, PythiaError>(PythiaError::ExecConditionIsRequired),
            },
        },
{
    if let Some(f) = req.frequency_condition {
        return Ok(ExecutionCondition::Frequency(f));
    }
    match &req.price_mutation_cond_req {
        Some(p) => Ok(price_mutation_condition(p.mutation_rate, p.pair_id.as_str(), p.price_mutation_type)),
        None => Err(PythiaError::ExecConditionIsRequired),
    }
}

/// Why the execution condition of request `req` is refused, with the timer
/// frequency `timer_frequency` and the price `rate` of the condition's pair
/// (`None` where the oracle does not know it): a frequency (which wins over a
/// price condition) that the frequency checks refuse; a price condition whose rate
/// of change lies outside 1..100, or whose pair is unknown; or no condition at all.
pub open spec fn condition_refusal(req: SubsribeRequest, timer_frequency: u64, rate: Option<u64>) -> Option<PythiaError> {
    match req.frequency_condition {
        Some(f) => match spec_frequency_error(f, timer_frequency) {
            Some(e) => Some(PythiaError::ExecutionConditionError(e)),
            None => None,
        },
        None => match req.price_mutation_cond_req {
            Some(p) => if p.mutation_rate < 1 || p.mutation_rate >= 100 {
                Some(PythiaError::ExecutionConditionError(ExecutionConditionError::InvalidChangeRate))
            } else if rate is None {
                Some(PythiaError::ExecutionConditionError(ExecutionConditionError::PairDoesNotExist))
            } else {
                None
            },
            None => Some(PythiaError::ExecConditionIsRequired),
        },
    }
}

/// `c` is the execution condition that request `req` asks for: its frequency when
/// it gives one, else its price condition with `rate` as the price to compare with.
pub open spec fn derived_condition(c: ExecutionCondition, req: SubsribeRequest, rate: Option<u64>) -> bool {
    match req.frequency_condition {
        Some(f) => c == ExecutionCondition::Frequency(f),
        None => match req.price_mutation_cond_req {
            Some(p) => c matches ExecutionCondition::PriceMutation { mutation_rate, pair_id, creation_price, price_mutation_type }
                && mutation_rate == p.mutation_rate && pair_id@ == p.pair_id@ && rate == Some(creation_price)
                && price_mutation_type == p.price_mutation_type,
            None => false,
        },
    }
}

/// The execution condition that request `req` asks for, checked: a frequency
/// against the timer's `timer_frequency`, a price condition against `rate`, the
/// pair's price (`None` where the oracle does not know the pair), which becomes
/// the price to compare with.
pub fn validated_condition(req: &SubsribeRequest, timer_frequency: u64, rate: Option<u64>)
    -> (res: Result<ExecutionCondition, PythiaError>)
    requires
        req.frequency_condition matches Some(f) && f >= 60 ==> timer_frequency > 0,
    ensures
        match condition_refusal(*req, timer_frequency, rate) {
            Some(e) => res == Err::<ExecutionCondition, PythiaError>(e),
            None => res matches Ok(c) && derived_condition(c, *req, rate),
        },
{
    let mut exec_condition = exec_condition_from_request(req)?;
    match &exec_condition {
        ExecutionCondition::Frequency(_) => {
            match exec_condition.validate_frequency(timer_frequency) {
                Ok(()) => {},
                Err(e) => { return Err(PythiaError::ExecutionConditionError(e)); },
            }
        },
        ExecutionCondition::PriceMutation { .. } => {
            let (known, price) = match rate {
                Some(r) => (true, r),
                None => (false, 0u64),
            };
            match exec_condition.validate_price_mutation(known, price) {
                Ok(()) => {},
                Err(e) => { return Err(PythiaError::ExecutionConditionError(e)); },
            }
        },
    }
    Ok(exec_condition)
}

/// Consecutive failures after which a subscription is stopped.
pub const SUBSCRIPTIONS_FAILURES_LIMIT: u64 = 5;

/// Hands out subscription ids: each new id is one more than the last.
pub struct SubscriptionsIndexer(pub u64);

impl SubscriptionsIndexer {
    /// The next id.
    pub fn new_index(&mut self) -> (res: u64)
        requires
            old(self).0 < u64::MAX,
        ensures
            final(self).0 == old(self).0 + 1,
            res == final(self).0,
    {
        self.0 = self.0 + 1;
        self.0
    }
}

/// How a subscription is doing.
#[derive(Debug, Clone, Copy)]
pub struct SubscriptionStatus {
    pub is_active: bool,
    pub last_update: u64,
    pub executions_counter: u64,
    pub failures_counter: Option<u64>,
}

/// A subscription: a contract method that the service calls on a condition.
#[derive(Debug)]
pub struct Subscription {
    pub id: u64,
    pub owner: String,
    pub contract_addr: String,
    pub old_frequency: u64,
    pub method: Method,
    pub status: SubscriptionStatus,
}

impl Clone for Subscription {
    fn clone(&self) -> (res: Self)
        ensures
            res == *self,
    {
        Subscription {
            id: self.id,
            owner: self.owner.clone(),
            contract_addr: self.contract_addr.clone(),
            old_frequency: self.old_frequency,
            method: self.method.clone(),
            status: self.status,
        }
    }
}

/// The price mutation part of a subscription request.
pub struct PriceMutationConditionRequest {
    pub mutation_rate: i64,
    pub pair_id: String,
    pub price_mutation_type: PriceMutationType,
}

/// What a user asks for to subscribe.
pub struct SubsribeRequest {
    pub chain_id: u64,
    pub pair_id: Option<String>,
    pub contract_addr: String,
    pub method_abi: String,
    pub is_random: bool,
    pub gas_limit: u128,
    pub frequency_condition: Option<u64>,
    pub price_mutation_cond_req: Option<PriceMutationConditionRequest>,
    pub msg: String,
    pub sig: String,
}

/// What a user asks for to change a subscription; `None` leaves a field as it is.
pub struct UpdateSubscriptionRequest {
    pub chain_id: u64,
    pub id: u64,
    pub pair_id: Option<String>,
    pub gas_limit: Option<u128>,
    pub method_abi: Option<String>,
    pub contract_addr: Option<String>,
    pub frequency: Option<u64>,
    pub is_random: Option<bool>,
    pub msg: String,
    pub sig: String,
}

/// Chain id => subscriptions on that chain, in the order they were added.
pub struct Subscriptions(pub Vec<(u64, Vec<Subscription>)>);

/// The table, pair by pair, each chain's subscriptions as a sequence.
pub open spec fn sub_pairs(s: Seq<(u64, Vec<Subscription>)>) -> Seq<(u64, Seq<Subscription>)> {
    s.map_values(|p: (u64, Vec<Subscription>)| (p.0, p.1@))
}

/// The subscription is number `id` and belongs to `owner`.
pub open spec fn owned_by(id: u64, owner: Seq<char>) -> spec_fn(Subscription) -> bool {
    |s: Subscription| s.id == id && s.owner@ == owner
}

/// The subscription is number `id`.
pub open spec fn has_id(id: u64) -> spec_fn(Subscription) -> bool {
    |s: Subscription| s.id == id
}

/// `s` with its status replaced by `st`.
pub open spec fn with_status(s: Subscription, st: SubscriptionStatus) -> Subscription {
    Subscription { id: s.id, owner: s.owner, contract_addr: s.contract_addr, old_frequency: s.old_frequency, method: s.method, status: st }
}

/// `s`, stopped.
pub open spec fn stopped(s: Subscription) -> Subscription {
    with_status(s, SubscriptionStatus { is_active: false, ..s.status })
}

/// `s`, started again with its failure count cleared.
pub open spec fn restarted(s: Subscription) -> Subscription {
    with_status(s, SubscriptionStatus { is_active: true, failures_counter: None, ..s.status })
}

/// A bulk operation touches `s`: it belongs to `owner` when an owner is given, and its
/// id is listed when ids are given.
pub open spec fn selected(s: Subscription, ids: Seq<u64>, owner: Option<Seq<char>>) -> bool {
    (owner is None || owner == Some(s.owner@)) && (ids.len() == 0 || ids.contains(s.id))
}

/// A bulk operation touches chain `c`.
pub open spec fn chain_selected(c: u64, chain_id: Option<u64>) -> bool {
    chain_id is None || chain_id == Some(c)
}

/// The subscriptions of one chain with the selected ones set active or inactive.
pub open spec fn set_active_selected(subs: Seq<Subscription>, ids: Seq<u64>, owner: Option<Seq<char>>, active: bool) -> Seq<Subscription> {
    subs.map_values(|s: Subscription| if selected(s, ids, owner) {
        with_status(s, SubscriptionStatus { is_active: active, ..s.status })
    } else {
        s
    })
}

/// The subscriptions of one chain without the selected ones.
pub open spec fn without_selected(subs: Seq<Subscription>, ids: Seq<u64>, owner: Option<Seq<char>>) -> Seq<Subscription> {
    subs.filter(unselected(ids, owner))
}

/// A bulk operation leaves `s` alone.
pub open spec fn unselected(ids: Seq<u64>, owner: Option<Seq<char>>) -> spec_fn(Subscription) -> bool {
    |s: Subscription| !selected(s, ids, owner)
}

/// An optional string as an optional sequence of characters.
pub open spec fn opt_str(s: Option<String>) -> Option<Seq<char>> {
    match s {
        Some(t) => Some(t@),
        None => None,
    }
}

/// The new contract address of an update request cannot be read.
pub open spec fn contract_err(req: UpdateSubscriptionRequest) -> bool {
    req.contract_addr matches Some(c) && spec_normalize(c@) is None
}

/// The new frequency of an update request is refused.
pub open spec fn freq_err(req: UpdateSubscriptionRequest, timer_frequency: u64) -> bool {
    req.frequency matches Some(f) && spec_subscription_frequency_error(f, timer_frequency) is Some
}

/// What resolving the new method of an update request gives, when it names one.
pub open spec fn abi_result(req: UpdateSubscriptionRequest)
    -> Option<Result<(Seq<char>, (int, Seq<char>)), PythiaError>>
{
    if req.method_abi is Some && req.is_random is Some {
        Some(spec_resolve_abi(req.method_abi->0@, opt_seq(req.pair_id), req.is_random->0))
    } else {
        None
    }
}

/// What `update` answers: the first refused field, in the order the fields are applied.
pub open spec fn update_outcome(req: UpdateSubscriptionRequest, timer_frequency: u64) -> Result<(), PythiaError> {
    if contract_err(req) {
        Err(PythiaError::InvalidAddressFormat)
    } else if freq_err(req, timer_frequency) {
        Err(PythiaError::InvalidSubscriptionFrequency)
    } else {
        match abi_result(req) {
            Some(Err(e)) => Err(e),
            _ => Ok(()),
        }
    }
}

/// `t` is what `update` makes of `s`: fields are applied in order (gas limit, contract
/// address, frequency, method) and those applied before a refused one stay applied.
pub open spec fn updated_sub(s: Subscription, t: Subscription, req: UpdateSubscriptionRequest, timer_frequency: u64) -> bool {
    &&& t.id == s.id && t.owner == s.owner && t.status == s.status
    &&& t.method.name == s.method.name && t.method.chain_id == s.method.chain_id
    &&& t.method.exec_condition == s.method.exec_condition
    &&& t.method.gas_limit == (if let Some(g) = req.gas_limit { g } else { s.method.gas_limit })
    &&& if !contract_err(req) && req.contract_addr is Some {
        Some(t.contract_addr@) == spec_normalize(req.contract_addr->0@)
    } else {
        t.contract_addr == s.contract_addr
    }
    &&& t.old_frequency == (if !contract_err(req) && !freq_err(req, timer_frequency) && req.frequency is Some {
        req.frequency->0
    } else {
        s.old_frequency
    })
    &&& match abi_result(req) {
        Some(Ok((json, mt))) if !contract_err(req) && !freq_err(req, timer_frequency) =>
            t.method.abi@ == json && method_type_view(t.method.method_type) == mt,
        _ => t.method.abi == s.method.abi && t.method.method_type == s.method.method_type,
    }
}

/// Every subscription of every chain, chain after chain in table order.
pub open spec fn all_subs(t: Seq<(u64, Seq<Subscription>)>) -> Seq<Subscription> {
    t.map_values(|p: (u64, Seq<Subscription>)| p.1).flatten()
}

/// `get_all` keeps `s`: on chain `chain_id` (by the chain its method names), of owner
/// `owner`, and listed in `ids`, each when given.
pub open spec fn listed(chain_id: Option<u64>, ids: Seq<u64>, owner: Option<Seq<char>>) -> spec_fn(Subscription) -> bool {
    |s: Subscription| (chain_id is None || chain_id == Some(s.method.chain_id))
        && (owner is None || owner == Some(s.owner@))
        && (ids.len() == 0 || ids.contains(s.id))
}

/// The subscription belongs to `owner`.
pub open spec fn owner_is(owner: Seq<char>) -> spec_fn(Subscription) -> bool {
    |s: Subscription| s.owner@ == owner
}

/// What a bulk start or stop does to the list of chain `c`.
pub open spec fn active_step(chain_id: Option<u64>, ids: Seq<u64>, owner: Option<Seq<char>>, active: bool) -> spec_fn(u64, Seq<Subscription>) -> Seq<Subscription> {
    |c: u64, subs: Seq<Subscription>| if chain_selected(c, chain_id) { set_active_selected(subs, ids, owner, active) } else { subs }
}

/// What a bulk removal does to the list of chain `c`.
pub open spec fn remove_step(chain_id: Option<u64>, ids: Seq<u64>, owner: Option<Seq<char>>) -> spec_fn(u64, Seq<Subscription>) -> Seq<Subscription> {
    |c: u64, subs: Seq<Subscription>| if chain_selected(c, chain_id) { without_selected(subs, ids, owner) } else { subs }
}

/// Whether `x` occurs in `v`.
pub fn contains_u64(v: &Vec<u64>, x: u64) -> (res: bool)
    ensures
        res == v@.contains(x),
{
    let mut k: usize = 0;
    while k < v.len()
        invariant
            k <= v@.len(),
            forall|m: int| 0 <= m < k ==> v@[m] != x,
        decreases v@.len() - k,
    {
        if v[k] == x {
            assert(v@[k as int] == x);
            return true;
        }
        k = k + 1;
    }
    false
}

/// Whether a bulk operation touches `s`.
fn is_selected(s: &Subscription, ids: &Vec<u64>, owner: &Option<String>) -> (res: bool)
    ensures
        res == selected(*s, ids@, opt_str(*owner)),
{
    let owner_ok = match owner {
        Some(o) => *o == s.owner,
        None => true,
    };
    owner_ok && (ids.len() == 0 || contains_u64(ids, s.id))
}

/// The position of subscription `id` of `owner` among `subs`.
fn find_owned(subs: &Vec<Subscription>, id: u64, owner: &str) -> (res: Option<usize>)
    ensures
        match res {
            Some(j) => j as int == first_index(subs@, owned_by(id, owner@)),
            None => first_index(subs@, owned_by(id, owner@)) < 0,
        },
{
    let mut j: usize = 0;
    while j < subs.len()
        invariant
            j <= subs@.len(),
            forall|k: int| 0 <= k < j ==> !owned_by(id, owner@)(#[trigger] subs@[k]),
        decreases subs@.len() - j,
    {
        if subs[j].id == id && str_eq(subs[j].owner.as_str(), owner) {
            proof { lemma_first_index_is(subs@, owned_by(id, owner@), j as int); }
            return Some(j);
        }
        j = j + 1;
    }
    proof { lemma_first_index(subs@, owned_by(id, owner@)); }
    None
}

/// The position of subscription `id` among `subs`.
fn find_id(subs: &Vec<Subscription>, id: u64) -> (res: Option<usize>)
    ensures
        match res {
            Some(j) => j as int == first_index(subs@, has_id(id)),
            None => first_index(subs@, has_id(id)) < 0,
        },
{
    let mut j: usize = 0;
    while j < subs.len()
        invariant
            j <= subs@.len(),
            forall|k: int| 0 <= k < j ==> !has_id(id)(#[trigger] subs@[k]),
        decreases subs@.len() - j,
    {
        if subs[j].id == id {
            proof { lemma_first_index_is(subs@, has_id(id), j as int); }
            return Some(j);
        }
        j = j + 1;
    }
    proof { lemma_first_index(subs@, has_id(id)); }
    None
}

/// The subscriptions of one chain with the selected ones set active or inactive.
fn set_active_vec(subs: &Vec<Subscription>, ids: &Vec<u64>, owner: &Option<String>, active: bool) -> (res: Vec<Subscription>)
    ensures
        res@ == set_active_selected(subs@, ids@, opt_str(*owner), active),
{
    let mut res: Vec<Subscription> = Vec::new();
    let mut j: usize = 0;
    while j < subs.len()
        invariant
            j <= subs@.len(),
            res@ == set_active_selected(subs@, ids@, opt_str(*owner), active).subrange(0, j as int),
        decreases subs@.len() - j,
    {
        let mut s = subs[j].clone();
        if is_selected(&s, ids, owner) {
            s.status.is_active = active;
        }
        res.push(s);
        assert(res@ =~= set_active_selected(subs@, ids@, opt_str(*owner), active).subrange(0, j + 1));
        j = j + 1;
    }
    assert(res@ =~= set_active_selected(subs@, ids@, opt_str(*owner), active));
    res
}

/// The subscriptions of one chain without the selected ones.
fn without_vec(subs: &Vec<Subscription>, ids: &Vec<u64>, owner: &Option<String>) -> (res: Vec<Subscription>)
    ensures
        res@ == without_selected(subs@, ids@, opt_str(*owner)),
{
    let ghost pred = unselected(ids@, opt_str(*owner));
    let mut res: Vec<Subscription> = Vec::new();
    let mut j: usize = 0;
    while j < subs.len()
        invariant
            j <= subs@.len(),
            pred == unselected(ids@, opt_str(*owner)),
            res@ == subs@.subrange(0, j as int).filter(pred),
        decreases subs@.len() - j,
    {
        proof {
            assert(subs@.subrange(0, j + 1) =~= subs@.subrange(0, j as int).push(subs@[j as int]));
            subs@.subrange(0, j as int).lemma_filter_push(subs@[j as int], pred);
        }
        if !is_selected(&subs[j], ids, owner) {
            res.push(subs[j].clone());
        }
        j = j + 1;
    }
    assert(subs@.subrange(0, subs@.len() as int) == subs@);
    res
}

impl Subscriptions {
    /// Each chain id occurs once.
    pub open spec fn wf(&self) -> bool {
        keys_unique(sub_pairs(self.0@))
    }

    pub open spec fn view(&self) -> Map<u64, Seq<Subscription>> {
        to_map(sub_pairs(self.0@))
    }

    /// An empty table.
    pub fn new() -> (res: Subscriptions)
        ensures
            res.wf(),
            res.view() == Map::<u64, Seq<Subscription>>::empty(),
    {
        let res = Subscriptions(Vec::new());
        assert(sub_pairs(res.0@) =~= Seq::<(u64, Seq<Subscription>)>::empty());
        res
    }

    /// The position of chain `id`.
    fn find_chain(&self, id: u64) -> (res: Option<usize>)
        requires
            self.wf(),
        ensures
            match res {
                Some(i) => i < self.0@.len() && self.0@[i as int].0 == id && self.view().contains_key(id)
                    && self.view()[id] == self.0@[i as int].1@,
                None => !self.view().contains_key(id),
            },
    {
        let mut i: usize = 0;
        while i < self.0.len()
            invariant
                self.wf(),
                i <= self.0@.len(),
                forall|j: int| 0 <= j < i ==> (#[trigger] self.0@[j]).0 != id,
            decreases self.0@.len() - i,
        {
            if self.0[i].0 == id {
                proof {
                    lemma_to_map(sub_pairs(self.0@));
                    assert(sub_pairs(self.0@)[i as int] == (id, self.0@[i as int].1@));
                    assert(to_map(sub_pairs(self.0@)).contains_key(sub_pairs(self.0@)[i as int].0));
                }
                return Some(i);
            }
            i = i + 1;
        }
        proof {
            lemma_to_map(sub_pairs(self.0@));
            if self.view().contains_key(id) {
                let j = choose|j: int| 0 <= j < sub_pairs(self.0@).len() && sub_pairs(self.0@)[j].0 == id;
                assert(self.0@[j].0 == id);
            }
        }
        None
    }

    /// Replaces subscription `j` of chain position `i`.
    fn set_sub(&mut self, i: usize, j: usize, s: Subscription)
        requires
            old(self).wf(),
            i < old(self).0@.len(),
            j < old(self).0@[i as int].1@.len(),
        ensures
            final(self).wf(),
            final(self).view() == old(self).view().insert(old(self).0@[i as int].0,
                old(self).0@[i as int].1@.update(j as int, s)),
            final(self).0@.len() == old(self).0@.len(),
            final(self).0@[i as int].0 == old(self).0@[i as int].0,
            final(self).0@[i as int].1@ == old(self).0@[i as int].1@.update(j as int, s),
    {
        let ghost c = self.0@[i as int].0;
        let ghost newsubs = self.0@[i as int].1@.update(j as int, s);
        proof { lemma_update(sub_pairs(self.0@), i as int, newsubs); }
        self.0[i].1.set(j, s);
        assert(sub_pairs(self.0@) =~= sub_pairs(old(self).0@).update(i as int, (c, newsubs)));
    }

    /// Replaces all subscriptions of chain position `i`.
    pub(crate) fn set_chain(&mut self, i: usize, subs: Vec<Subscription>)
        requires
            old(self).wf(),
            i < old(self).0@.len(),
        ensures
            final(self).wf(),
            final(self).view() == old(self).view().insert(old(self).0@[i as int].0, subs@),
            final(self).0@.len() == old(self).0@.len(),
            forall|k: int| 0 <= k < final(self).0@.len() && k != i ==> #[trigger] final(self).0@[k] == old(self).0@[k],
            final(self).0@[i as int].0 == old(self).0@[i as int].0,
            final(self).0@[i as int].1@ == subs@,
    {
        let ghost c = self.0@[i as int].0;
        let ghost sv = subs@;
        proof { lemma_update(sub_pairs(self.0@), i as int, sv); }
        self.0[i].1 = subs;
        assert(sub_pairs(self.0@) =~= sub_pairs(old(self).0@).update(i as int, (c, sv)));
    }

    /// A copy of subscription `id` on chain `chain_id`, whoever owns it.
    pub fn get(&self, chain_id: u64, id: u64) -> (res: Result<Subscription, PythiaError>)
        requires
            self.wf(),
        ensures
            !self.view().contains_key(chain_id) ==> res == Err::<Subscription, PythiaError>(PythiaError::ChainDoesNotExist),
            self.view().contains_key(chain_id) ==> {
                let j = first_index(self.view()[chain_id], has_id(id));
                &&& j < 0 ==> res == Err::<Subscription, PythiaError>(PythiaError::SubscriptionDoesNotExist)
                &&& j >= 0 ==> res == Ok::<Subscription, PythiaError>(self.view()[chain_id][j])
            },
    {
        let i = match self.find_chain(chain_id) {
            Some(i) => i,
            None => { return Err(PythiaError::ChainDoesNotExist); },
        };
        match find_id(&self.0[i].1, id) {
            Some(j) => {
                proof { lemma_first_index(self.0@[i as int].1@, has_id(id)); }
                Ok(self.0[i].1[j].clone())
            },
            None => Err(PythiaError::SubscriptionDoesNotExist),
        }
    }

    /// Changes the status of the first subscription `id` of `owner` on chain `chain_id`
    /// to `st(status)`.
    fn update_owned(&mut self, chain_id: u64, owner: &str, id: u64, activate: bool) -> (res: Result<(), PythiaError>)
        requires
            old(self).wf(),
        ensures
            final(self).wf(),
            !old(self).view().contains_key(chain_id) ==> res == Err::<(), PythiaError>(PythiaError::ChainDoesNotExist)
                && final(self).view() == old(self).view(),
            old(self).view().contains_key(chain_id) ==> {
                let subs = old(self).view()[chain_id];
                let j = first_index(subs, owned_by(id, owner@));
                &&& j < 0 ==> res == Err::<(), PythiaError>(PythiaError::SubscriptionDoesNotExist) && final(self).view() == old(self).view()
                &&& j >= 0 ==> res is Ok && final(self).view() == old(self).view().insert(chain_id,
                    subs.update(j, if activate { restarted(subs[j]) } else { stopped(subs[j]) }))
            },
    {
        let i = match self.find_chain(chain_id) {
            Some(i) => i,
            None => { return Err(PythiaError::ChainDoesNotExist); },
        };
        let j = match find_owned(&self.0[i].1, id, owner) {
            Some(j) => j,
            None => { return Err(PythiaError::SubscriptionDoesNotExist); },
        };
        proof { lemma_first_index(self.0@[i as int].1@, owned_by(id, owner@)); }
        let mut s = self.0[i].1[j].clone();
        if activate {
            s.status.is_active = true;
            s.status.failures_counter = None;
        } else {
            s.status.is_active = false;
        }
        self.set_sub(i, j, s);
        Ok(())
    }

    /// Stops the first subscription `id` of `owner` on chain `chain_id`.
    pub fn stop(&mut self, chain_id: u64, owner: &str, id: u64) -> (res: Result<(), PythiaError>)
        requires
            old(self).wf(),
        ensures
            final(self).wf(),
            !old(self).view().contains_key(chain_id) ==> res == Err::<(), PythiaError>(PythiaError::ChainDoesNotExist)
                && final(self).view() == old(self).view(),
            old(self).view().contains_key(chain_id) ==> {
                let subs = old(self).view()[chain_id];
                let j = first_index(subs, owned_by(id, owner@));
                &&& j < 0 ==> res == Err::<(), PythiaError>(PythiaError::SubscriptionDoesNotExist) && final(self).view() == old(self).view()
                &&& j >= 0 ==> res is Ok && final(self).view() == old(self).view().insert(chain_id, subs.update(j, stopped(subs[j])))
            },
    {
        self.update_owned(chain_id, owner, id, false)
    }

    /// Starts the first subscription `id` of `owner` on chain `chain_id` again and clears
    /// its failure count.
    pub fn start(&mut self, chain_id: u64, owner: &str, id: u64) -> (res: Result<(), PythiaError>)
        requires
            old(self).wf(),
        ensures
            final(self).wf(),
            !old(self).view().contains_key(chain_id) ==> res == Err::<(), PythiaError>(PythiaError::ChainDoesNotExist)
                && final(self).view() == old(self).view(),
            old(self).view().contains_key(chain_id) ==> {
                let subs = old(self).view()[chain_id];
                let j = first_index(subs, owned_by(id, owner@));
                &&& j < 0 ==> res == Err::<(), PythiaError>(PythiaError::SubscriptionDoesNotExist) && final(self).view() == old(self).view()
                &&& j >= 0 ==> res is Ok && final(self).view() == old(self).view().insert(chain_id, subs.update(j, restarted(subs[j])))
            },
    {
        self.update_owned(chain_id, owner, id, true)
    }

    /// Removes the first subscription `id` of `owner` on chain `chain_id`.
    pub fn remove(&mut self, chain_id: u64, owner: &str, id: u64) -> (res: Result<(), PythiaError>)
        requires
            old(self).wf(),
        ensures
            final(self).wf(),
            !old(self).view().contains_key(chain_id) ==> res == Err::<(), PythiaError>(PythiaError::ChainDoesNotExist)
                && final(self).view() == old(self).view(),
            old(self).view().contains_key(chain_id) ==> {
                let subs = old(self).view()[chain_id];
                let j = first_index(subs, owned_by(id, owner@));
                &&& j < 0 ==> res == Err::<(), PythiaError>(PythiaError::SubscriptionDoesNotExist) && final(self).view() == old(self).view()
                &&& j >= 0 ==> res is Ok && final(self).view() == old(self).view().insert(chain_id, subs.remove(j))
            },
    {
        let i = match self.find_chain(chain_id) {
            Some(i) => i,
            None => { return Err(PythiaError::ChainDoesNotExist); },
        };
        let j = match find_owned(&self.0[i].1, id, owner) {
            Some(j) => j,
            None => { return Err(PythiaError::SubscriptionDoesNotExist); },
        };
        proof { lemma_first_index(self.0@[i as int].1@, owned_by(id, owner@)); }
        let ghost c = self.0@[i as int].0;
        let ghost newsubs = self.0@[i as int].1@.remove(j as int);
        proof { lemma_update(sub_pairs(self.0@), i as int, newsubs); }
        self.0[i].1.remove(j);
        assert(sub_pairs(self.0@) =~= sub_pairs(old(self).0@).update(i as int, (c, newsubs)));
        Ok(())
    }

    /// Sets the selected subscriptions of the selected chains active or inactive.
    fn set_active_all(&mut self, chain_id: Option<u64>, ids: &Vec<u64>, owner: &Option<String>, active: bool)
        requires
            old(self).wf(),
        ensures
            final(self).wf(),
            final(self).view() == map_entries(old(self).view(), |c: u64, subs: Seq<Subscription>|
                if chain_selected(c, chain_id) { set_active_selected(subs, ids@, opt_str(*owner), active) } else { subs }),
    {
        let ghost g = active_step(chain_id, ids@, opt_str(*owner), active);
        let n = self.0.len();
        let mut i: usize = 0;
        while i < n
            invariant
                self.wf(),
                n == self.0@.len(),
                n == old(self).0@.len(),
                i <= n,
                g == active_step(chain_id, ids@, opt_str(*owner), active),
                forall|k: int| 0 <= k < i ==> #[trigger] sub_pairs(self.0@)[k] == (old(self).0@[k].0, g(old(self).0@[k].0, old(self).0@[k].1@)),
                forall|k: int| i <= k < n ==> #[trigger] self.0@[k] == old(self).0@[k],
            decreases n - i,
        {
            let matches = match chain_id {
                Some(c) => c == self.0[i].0,
                None => true,
            };
            let ghost prev = self.0@;
            if matches {
                let newsubs = set_active_vec(&self.0[i].1, ids, owner, active);
                self.set_chain(i, newsubs);
            }
            assert forall|k: int| 0 <= k < n && k != i implies #[trigger] self.0@[k] == prev[k] by {}
            assert forall|k: int| 0 <= k < i implies #[trigger] sub_pairs(self.0@)[k] == sub_pairs(prev)[k] by {
                assert(self.0@[k] == prev[k]);
            }
            assert(sub_pairs(self.0@)[i as int] == (old(self).0@[i as int].0, g(old(self).0@[i as int].0, old(self).0@[i as int].1@)));
            i = i + 1;
        }
        proof {
            assert forall|k: int| 0 <= k < sub_pairs(old(self).0@).len() implies #[trigger] sub_pairs(self.0@)[k]
                == (sub_pairs(old(self).0@)[k].0, g(sub_pairs(old(self).0@)[k].0, sub_pairs(old(self).0@)[k].1)) by {}
            lemma_to_map_pointwise(sub_pairs(old(self).0@), sub_pairs(self.0@), g);
        }
    }

    /// Stops the selected subscriptions: on chain `chain_id` (or on all chains), of
    /// `owner` (or of anyone), listed in `ids` (or all, when `ids` is empty).
    pub fn stop_all(&mut self, chain_id: Option<u64>, ids: Vec<u64>, owner: Option<String>) -> (res: Result<(), PythiaError>)
        requires
            old(self).wf(),
        ensures
            res is Ok,
            final(self).wf(),
            final(self).view() == map_entries(old(self).view(), |c: u64, subs: Seq<Subscription>|
                if chain_selected(c, chain_id) { set_active_selected(subs, ids@, opt_str(owner), false) } else { subs }),
    {
        self.set_active_all(chain_id, &ids, &owner, false);
        Ok(())
    }

    /// Starts the selected subscriptions again, as `stop_all` selects them; failure counts
    /// are kept.
    pub fn start_all(&mut self, chain_id: Option<u64>, ids: Vec<u64>, owner: Option<String>) -> (res: Result<(), PythiaError>)
        requires
            old(self).wf(),
        ensures
            res is Ok,
            final(self).wf(),
            final(self).view() == map_entries(old(self).view(), |c: u64, subs: Seq<Subscription>|
                if chain_selected(c, chain_id) { set_active_selected(subs, ids@, opt_str(owner), true) } else { subs }),
    {
        self.set_active_all(chain_id, &ids, &owner, true);
        Ok(())
    }

    /// Removes the selected subscriptions, as `stop_all` selects them; the others keep
    /// their order.
    pub fn remove_all(&mut self, chain_id: Option<u64>, ids: Vec<u64>, owner: Option<String>) -> (res: Result<(), PythiaError>)
        requires
            old(self).wf(),
        ensures
            res is Ok,
            final(self).wf(),
            final(self).view() == map_entries(old(self).view(), |c: u64, subs: Seq<Subscription>|
                if chain_selected(c, chain_id) { without_selected(subs, ids@, opt_str(owner)) } else { subs }),
    {
        let ghost g = remove_step(chain_id, ids@, opt_str(owner));
        let n = self.0.len();
        let mut i: usize = 0;
        while i < n
            invariant
                self.wf(),
                n == self.0@.len(),
                n == old(self).0@.len(),
                i <= n,
                g == remove_step(chain_id, ids@, opt_str(owner)),
                forall|k: int| 0 <= k < i ==> #[trigger] sub_pairs(self.0@)[k] == (old(self).0@[k].0, g(old(self).0@[k].0, old(self).0@[k].1@)),
                forall|k: int| i <= k < n ==> #[trigger] self.0@[k] == old(self).0@[k],
            decreases n - i,
        {
            let matches = match chain_id {
                Some(c) => c == self.0[i].0,
                None => true,
            };
            let ghost prev = self.0@;
            if matches {
                let newsubs = without_vec(&self.0[i].1, &ids, &owner);
                self.set_chain(i, newsubs);
            }
            assert forall|k: int| 0 <= k < n && k != i implies #[trigger] self.0@[k] == prev[k] by {}
            assert forall|k: int| 0 <= k < i implies #[trigger] sub_pairs(self.0@)[k] == sub_pairs(prev)[k] by {
                assert(self.0@[k] == prev[k]);
            }
            assert(sub_pairs(self.0@)[i as int] == (old(self).0@[i as int].0, g(old(self).0@[i as int].0, old(self).0@[i as int].1@)));
            i = i + 1;
        }
        proof {
            assert forall|k: int| 0 <= k < sub_pairs(old(self).0@).len() implies #[trigger] sub_pairs(self.0@)[k]
                == (sub_pairs(old(self).0@)[k].0, g(sub_pairs(old(self).0@)[k].0, sub_pairs(old(self).0@)[k].1)) by {}
            lemma_to_map_pointwise(sub_pairs(old(self).0@), sub_pairs(self.0@), g);
        }
        Ok(())
    }

    /// Opens an empty list for a new chain.
    pub fn init_new_chain(&mut self, chain_id: u64) -> (res: Result<(), PythiaError>)
        requires
            old(self).wf(),
        ensures
            final(self).wf(),
            old(self).view().contains_key(chain_id) ==> res == Err::<(), PythiaError>(PythiaError::ChainAlreadyExists)
                && final(self).view() == old(self).view(),
            !old(self).view().contains_key(chain_id) ==> res is Ok
                && final(self).view() == old(self).view().insert(chain_id, Seq::<Subscription>::empty()),
    {
        if self.find_chain(chain_id).is_some() {
            return Err(PythiaError::ChainAlreadyExists);
        }
        let v: Vec<Subscription> = Vec::new();
        proof { lemma_push(sub_pairs(self.0@), chain_id, v@); }
        let ghost vv = v@;
        self.0.push((chain_id, v));
        assert(sub_pairs(self.0@) =~= sub_pairs(old(self).0@).push((chain_id, vv)));
        Ok(())
    }

    /// Drops the list of chain `chain_id`.
    pub fn deinit_chain(&mut self, chain_id: u64) -> (res: Result<(), PythiaError>)
        requires
            old(self).wf(),
        ensures
            final(self).wf(),
            !old(self).view().contains_key(chain_id) ==> res == Err::<(), PythiaError>(PythiaError::ChainDoesNotExist)
                && final(self).view() == old(self).view(),
            old(self).view().contains_key(chain_id) ==> res is Ok && final(self).view() == old(self).view().remove(chain_id),
    {
        match self.find_chain(chain_id) {
            Some(i) => {
                proof { lemma_remove(sub_pairs(self.0@), i as int); }
                self.0.remove(i);
                assert(sub_pairs(self.0@) =~= sub_pairs(old(self).0@).remove(i as int));
                Ok(())
            },
            None => Err(PythiaError::ChainDoesNotExist),
        }
    }

    /// Changes the subscription `req.id` of `address` on chain `req.chain_id`: its gas
    /// limit, contract address (stored in canonical form), frequency, and method (when
    /// both the signature and the random flag are given), in that order. A refused field
    /// ends the update with its error; the fields before it stay changed.
    pub fn update(&mut self, req: &UpdateSubscriptionRequest, address: &str, timer_frequency: u64) -> (res: Result<(), PythiaError>)
        requires
            old(self).wf(),
            req.frequency matches Some(f) && f >= 60 ==> timer_frequency > 0,
            req.method_abi is Some && req.is_random is Some && old(self).view().contains_key(req.chain_id)
                && first_index(old(self).view()[req.chain_id], owned_by(req.id, address@)) >= 0
                && !contract_err(*req) && !freq_err(*req, timer_frequency)
                ==> resolve_abi_defined(req.method_abi->0@, opt_seq(req.pair_id), req.is_random->0),
        ensures
            final(self).wf(),
            !old(self).view().contains_key(req.chain_id) ==> res == Err::<(), PythiaError>(PythiaError::ChainDoesNotExist)
                && final(self).view() == old(self).view(),
            old(self).view().contains_key(req.chain_id) ==> {
                let subs = old(self).view()[req.chain_id];
                let j = first_index(subs, owned_by(req.id, address@));
                &&& j < 0 ==> res == Err::<(), PythiaError>(PythiaError::SubscriptionDoesNotExist) && final(self).view() == old(self).view()
                &&& j >= 0 ==> res == update_outcome(*req, timer_frequency) && final(self).view().contains_key(req.chain_id)
                    && final(self).view() == old(self).view().insert(req.chain_id, subs.update(j, final(self).view()[req.chain_id][j]))
                    && updated_sub(subs[j], final(self).view()[req.chain_id][j], *req, timer_frequency)
            },
    {
        let i = match self.find_chain(req.chain_id) {
            Some(i) => i,
            None => { return Err(PythiaError::ChainDoesNotExist); },
        };
        let j = match find_owned(&self.0[i].1, req.id, address) {
            Some(j) => j,
            None => { return Err(PythiaError::SubscriptionDoesNotExist); },
        };
        proof { lemma_first_index(self.0@[i as int].1@, owned_by(req.id, address@)); }
        let ghost s0 = self.0@[i as int].1@[j as int];
        let mut t = self.0[i].1[j].clone();
        if let Some(g) = req.gas_limit {
            t.method.gas_limit = g;
        }
        if let Some(c) = &req.contract_addr {
            match normalize(c.as_str()) {
                Ok(n) => { t.contract_addr = n; },
                Err(_) => {
                    self.set_sub(i, j, t);
                    return Err(PythiaError::InvalidAddressFormat);
                },
            }
        }
        if let Some(f) = req.frequency {
            match subscription_frequency(f, timer_frequency) {
                Ok(()) => { t.old_frequency = f; },
                Err(_) => {
                    self.set_sub(i, j, t);
                    return Err(PythiaError::InvalidSubscriptionFrequency);
                },
            }
        }
        if let (Some(method_abi), Some(is_random)) = (&req.method_abi, req.is_random) {
            let pair = match &req.pair_id {
                Some(p) => Some(p.clone()),
                None => None,
            };
            assert(opt_seq(pair) == opt_seq(req.pair_id));
            match resolve_abi(method_abi.clone(), pair, is_random) {
                Ok((abi, method_type)) => {
                    t.method.abi = abi;
                    t.method.method_type = method_type;
                },
                Err(e) => {
                    self.set_sub(i, j, t);
                    return Err(e);
                },
            }
        }
        self.set_sub(i, j, t);
        Ok(())
    }

    /// Refuses a new subscription of `owner` when the service holds more than
    /// `subs_limit_total` subscriptions, or `owner` more than `subs_limit_wallet`.
    pub fn check_limits(&self, owner: &str, subs_limit_total: u64, subs_limit_wallet: u64) -> (res: Result<(), PythiaError>)
        ensures
            all_subs(sub_pairs(self.0@)).len() > subs_limit_total ==>
                res == Err::<(), PythiaError>(PythiaError::TotalSubscriptionsLimitReached),
            all_subs(sub_pairs(self.0@)).len() <= subs_limit_total
                && all_subs(sub_pairs(self.0@)).filter(owner_is(owner@)).len() > subs_limit_wallet ==>
                res == Err::<(), PythiaError>(PythiaError::WalletSubscriptionsLimitReached),
            all_subs(sub_pairs(self.0@)).len() <= subs_limit_total
                && all_subs(sub_pairs(self.0@)).filter(owner_is(owner@)).len() <= subs_limit_wallet ==> res is Ok,
    {
        let all = self.collect_all();
        let mut count: usize = 0;
        let mut k: usize = 0;
        let ghost p = owner_is(owner@);
        while k < all.len()
            invariant
                k <= all@.len(),
                p == owner_is(owner@),
                count as int == all@.subrange(0, k as int).filter(p).len(),
                count <= k,
            decreases all@.len() - k,
        {
            proof {
                assert(all@.subrange(0, k + 1) =~= all@.subrange(0, k as int).push(all@[k as int]));
                all@.subrange(0, k as int).lemma_filter_push(all@[k as int], p);
            }
            if str_eq(all[k].owner.as_str(), owner) {
                count = count + 1;
            }
            k = k + 1;
        }
        assert(all@.subrange(0, all@.len() as int) =~= all@);
        if all.len() as u128 > subs_limit_total as u128 {
            return Err(PythiaError::TotalSubscriptionsLimitReached);
        }
        if count as u128 > subs_limit_wallet as u128 {
            return Err(PythiaError::WalletSubscriptionsLimitReached);
        }
        Ok(())
    }

    /// Copies of every subscription of every chain, chain after chain.
    pub(crate) fn collect_all(&self) -> (res: Vec<Subscription>)
        ensures
            res@ == all_subs(sub_pairs(self.0@)),
    {
        let mut res: Vec<Subscription> = Vec::new();
        let mut i: usize = 0;
        let ghost vals = sub_pairs(self.0@).map_values(|p: (u64, Seq<Subscription>)| p.1);
        while i < self.0.len()
            invariant
                i <= self.0@.len(),
                vals == sub_pairs(self.0@).map_values(|p: (u64, Seq<Subscription>)| p.1),
                res@ == vals.subrange(0, i as int).flatten(),
            decreases self.0@.len() - i,
        {
            let ghost before = res@;
            let mut j: usize = 0;
            while j < self.0[i].1.len()
                invariant
                    i < self.0@.len(),
                    j <= self.0@[i as int].1@.len(),
                    res@ == before + self.0@[i as int].1@.subrange(0, j as int),
                decreases self.0@[i as int].1@.len() - j,
            {
                res.push(self.0[i].1[j].clone());
                assert(res@ =~= before + self.0@[i as int].1@.subrange(0, j + 1));
                j = j + 1;
            }
            proof {
                assert(self.0@[i as int].1@.subrange(0, j as int) =~= self.0@[i as int].1@);
                assert(vals[i as int] == self.0@[i as int].1@);
                assert(vals.subrange(0, i + 1) =~= vals.subrange(0, i as int).push(vals[i as int]));
                vals.subrange(0, i as int).lemma_flatten_push(vals[i as int]);
            }
            i = i + 1;
        }
        assert(vals.subrange(0, self.0@.len() as int) =~= vals);
        res
    }

    /// Copies of the subscriptions of all chains that `listed` keeps, chain after chain:
    /// those whose method names chain `chain_id`, of the owner whose address `owner`
    /// denotes, and listed in `ids` (each when given).
    pub fn get_all(&self, chain_id: Option<u64>, ids: Vec<u64>, owner: Option<String>) -> (res: Vec<Subscription>)
        requires
            owner matches Some(o) ==> spec_normalize(o@) is Some,
        ensures
            res@ == all_subs(sub_pairs(self.0@)).filter(listed(chain_id, ids@,
                if let Some(o) = owner { spec_normalize(o@) } else { None })),
    {
        let norm: Option<String> = match &owner {
            Some(o) => match normalize(o.as_str()) {
                Ok(n) => Some(n),
                Err(_) => None,
            },
            None => None,
        };
        let ghost p = listed(chain_id, ids@, if let Some(o) = owner { spec_normalize(o@) } else { None });
        assert(opt_str(norm) == (if let Some(o) = owner { spec_normalize(o@) } else { None }));
        let all = self.collect_all();
        let mut res: Vec<Subscription> = Vec::new();
        let mut k: usize = 0;
        while k < all.len()
            invariant
                k <= all@.len(),
                p == listed(chain_id, ids@, opt_str(norm)),
                res@ == all@.subrange(0, k as int).filter(p),
            decreases all@.len() - k,
        {
            proof {
                assert(all@.subrange(0, k + 1) =~= all@.subrange(0, k as int).push(all@[k as int]));
                all@.subrange(0, k as int).lemma_filter_push(all@[k as int], p);
            }
            let chain_ok = match chain_id {
                Some(c) => c == all[k].method.chain_id,
                None => true,
            };
            let owner_ok = match &norm {
                Some(n) => *n == all[k].owner,
                None => true,
            };
            if chain_ok && owner_ok && (ids.len() == 0 || contains_u64(&ids, all[k].id)) {
                res.push(all[k].clone());
            }
            k = k + 1;
        }
        assert(all@.subrange(0, all@.len() as int) =~= all@);
        res
    }

    /// Records a publication of subscription `sub_id` on chain `chain_id` at `last_update`:
    /// one more execution, and on a failure one more failure; a subscription that reaches
    /// the failure limit is stopped.
    pub fn update_last_update(&mut self, chain_id: u64, sub_id: u64, is_failed: bool, last_update: u64)
        requires
            old(self).wf(),
            old(self).view().contains_key(chain_id),
            first_index(old(self).view()[chain_id], has_id(sub_id)) >= 0,
            old(self).view()[chain_id][first_index(old(self).view()[chain_id], has_id(sub_id))].status.executions_counter < u64::MAX,
            old(self).view()[chain_id][first_index(old(self).view()[chain_id], has_id(sub_id))].status.failures_counter matches Some(f)
                ==> f < u64::MAX,
        ensures
            final(self).wf(),
            ({
                let subs = old(self).view()[chain_id];
                let j = first_index(subs, has_id(sub_id));
                let st = subs[j].status;
                let failures = if !is_failed { st.failures_counter } else if let Some(f) = st.failures_counter {
                    Some((f + 1) as u64)
                } else {
                    Some(1u64)
                };
                let active = if is_failed && st.failures_counter is Some && failures->0 >= SUBSCRIPTIONS_FAILURES_LIMIT {
                    false
                } else {
                    st.is_active
                };
                final(self).view() == old(self).view().insert(chain_id, subs.update(j, with_status(subs[j], SubscriptionStatus {
                    is_active: active,
                    last_update: last_update,
                    executions_counter: (st.executions_counter + 1) as u64,
                    failures_counter: failures,
                })))
            }),
    {
        let i = match self.find_chain(chain_id) {
            Some(i) => i,
            None => { return; },
        };
        let j = match find_id(&self.0[i].1, sub_id) {
            Some(j) => j,
            None => { return; },
        };
        proof { lemma_first_index(self.0@[i as int].1@, has_id(sub_id)); }
        let mut s = self.0[i].1[j].clone();
        s.status.last_update = last_update;
        s.status.executions_counter = s.status.executions_counter + 1;
        if is_failed {
            match s.status.failures_counter {
                Some(f) => {
                    let nf = f + 1;
                    s.status.failures_counter = Some(nf);
                    if nf >= SUBSCRIPTIONS_FAILURES_LIMIT {
                        s.status.is_active = false;
                    }
                },
                None => {
                    s.status.failures_counter = Some(1);
                },
            }
        }
        self.set_sub(i, j, s);
    }

    /// Replaces the execution condition of subscription `sub_id` on chain `chain_id`.
    pub fn update_execution_condition(&mut self, chain_id: u64, sub_id: u64, exec_cond: ExecutionCondition) -> (res: Result<(), PythiaError>)
        requires
            old(self).wf(),
        ensures
            final(self).wf(),
            !old(self).view().contains_key(chain_id) ==> res == Err::<(), PythiaError>(PythiaError::ChainDoesNotExist)
                && final(self).view() == old(self).view(),
            old(self).view().contains_key(chain_id) ==> {
                let subs = old(self).view()[chain_id];
                let j = first_index(subs, has_id(sub_id));
                &&& j < 0 ==> res == Err::<(), PythiaError>(PythiaError::SubscriptionDoesNotExist) && final(self).view() == old(self).view()
                &&& j >= 0 ==> res is Ok && final(self).view() == old(self).view().insert(chain_id, subs.update(j, Subscription {
                    method: Method { exec_condition: Some(exec_cond), ..subs[j].method },
                    ..subs[j]
                }))
            },
    {
        let i = match self.find_chain(chain_id) {
            Some(i) => i,
            None => { return Err(PythiaError::ChainDoesNotExist); },
        };
        let j = match find_id(&self.0[i].1, sub_id) {
            Some(j) => j,
            None => { return Err(PythiaError::SubscriptionDoesNotExist); },
        };
        proof { lemma_first_index(self.0@[i as int].1@, has_id(sub_id)); }
        let mut s = self.0[i].1[j].clone();
        s.method.exec_condition = Some(exec_cond);
        self.set_sub(i, j, s);
        Ok(())
    }

    /// Adds the subscription that `req` asks for, owned by `owner`. Its execution
    /// condition comes from the request: a frequency when one is given, which must be
    /// at least 60 seconds and a multiple of `timer_frequency` that is no shorter than
    /// it; else a price condition, whose rate of change must lie in 1..100 and whose
    /// pair the oracle must know, its price then `rate` (`None` where the oracle does
    /// not know the pair); a request with neither is refused. For a pair feed,
    /// `pair_exists` says whether the oracle knows the method's pair. The method's ABI
    /// comes from `resolve_abi` and its name from reading that ABI back; the id is the
    /// indexer's next one, taken even when the chain then turns out not to exist. The
    /// subscription starts active.
    pub fn add(
        &mut self,
        indexer: &mut SubscriptionsIndexer,
        req: SubsribeRequest,
        owner: &str,
        timer_frequency: u64,
        pair_exists: bool,
        rate: Option<u64>,
    ) -> (res: Result<u64, PythiaError>)
        requires
            old(self).wf(),
            old(indexer).0 < u64::MAX,
            req.frequency_condition matches Some(f) && f >= 60 ==> timer_frequency > 0,
            condition_refusal(req, timer_frequency, rate) is None
                ==> resolve_abi_defined(req.method_abi@, opt_seq(req.pair_id), req.is_random),
        ensures
            final(self).wf(),
            condition_refusal(req, timer_frequency, rate) matches Some(e) ==> res == Err::<u64, PythiaError>(e)
                && final(self).view() == old(self).view() && final(indexer).0 == old(indexer).0,
            condition_refusal(req, timer_frequency, rate) is None ==> match spec_resolve_abi(req.method_abi@, opt_seq(req.pair_id), req.is_random) {
                Err(e) => res == Err::<u64, PythiaError>(e) && final(self).view() == old(self).view() && final(indexer).0 == old(indexer).0,
                Ok((json, mt)) => if req.pair_id is Some && !pair_exists {
                    res == Err::<u64, PythiaError>(PythiaError::PairDoesNotExist) && final(self).view() == old(self).view()
                        && final(indexer).0 == old(indexer).0
                } else if abi_function_name(json) is None {
                    res == Err::<u64, PythiaError>(PythiaError::InvalidABIFunctionName) && final(self).view() == old(self).view()
                        && final(indexer).0 == old(indexer).0
                } else {
                    &&& final(indexer).0 == old(indexer).0 + 1
                    &&& !old(self).view().contains_key(req.chain_id) ==> res == Err::<u64, PythiaError>(PythiaError::ChainDoesNotExist)
                        && final(self).view() == old(self).view()
                    &&& old(self).view().contains_key(req.chain_id) ==> res == Ok::<u64, PythiaError>(final(indexer).0)
                        && final(self).view().contains_key(req.chain_id)
                        && final(self).view() == old(self).view().insert(req.chain_id,
                            old(self).view()[req.chain_id].push(final(self).view()[req.chain_id].last()))
                        && ({
                            let s = final(self).view()[req.chain_id].last();
                            &&& s.id == final(indexer).0 && s.owner@ == owner@ && s.contract_addr == req.contract_addr
                            &&& s.old_frequency == 0
                            &&& Some(s.method.name@) == abi_function_name(json) && s.method.abi@ == json
                            &&& method_type_view(s.method.method_type) == mt
                            &&& s.method.chain_id == req.chain_id && s.method.gas_limit == req.gas_limit
                            &&& s.method.exec_condition matches Some(c) && derived_condition(c, req, rate)
                            &&& s.status == (SubscriptionStatus { is_active: true, last_update: 0, executions_counter: 0, failures_counter: None })
                        })
                },
            },
    {
        let exec_condition = validated_condition(&req, timer_frequency, rate)?;
        let has_pair = req.pair_id.is_some();
        let (abi, method_type) = resolve_abi(req.method_abi, req.pair_id, req.is_random)?;
        if has_pair && !pair_exists {
            return Err(PythiaError::PairDoesNotExist);
        }
        let name = match function_name(abi.as_str()) {
            Some(n) => n,
            None => { return Err(PythiaError::InvalidABIFunctionName); },
        };
        let id = indexer.new_index();
        let subscription = Subscription {
            id,
            owner: str_to_string(owner),
            contract_addr: req.contract_addr,
            old_frequency: 0,
            method: Method {
                name,
                abi,
                chain_id: req.chain_id,
                gas_limit: req.gas_limit,
                method_type,
                exec_condition: Some(exec_condition),
            },
            status: SubscriptionStatus { is_active: true, last_update: 0, executions_counter: 0, failures_counter: None },
        };
        let i = match self.find_chain(req.chain_id) {
            Some(i) => i,
            None => { return Err(PythiaError::ChainDoesNotExist); },
        };
        let ghost c = self.0@[i as int].0;
        let ghost newsubs = self.0@[i as int].1@.push(subscription);
        proof { lemma_update(sub_pairs(self.0@), i as int, newsubs); }
        self.0[i].1.push(subscription);
        assert(sub_pairs(self.0@) =~= sub_pairs(old(self).0@).update(i as int, (c, newsubs)));
        Ok(id)
    }
}

} // verus!
