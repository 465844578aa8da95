//! Reading state kept in stable memory in its older layout.
use vstd::prelude::*;

use crate::types::chains::{chain_pairs, ChainView, Chains};
use crate::types::methods::MethodType;
use crate::types::subscription::{sub_pairs, Subscription, Subscriptions};
use crate::utils::keyed::{lemma_to_map_pointwise, map_entries};
use crate::utils::metrics::{Metric, Metrics};
use crate::utils::text::{opt_view, str_to_string};

verus! {

/// The method type in the older stored layout.
pub enum OldMethodType {
    Pair(String),
    Random(String),
    Empty,
}

impl Default for OldMethodType {
    fn default() -> (res: Self)
        ensures
            res == OldMethodType::Empty,
    {
        OldMethodType::Empty
    }
}

impl From<OldMethodType> for MethodType {
    /// Each kind of method keeps its kind and its text.
    fn from(old: OldMethodType) -> (res: Self) {
        match old {
            OldMethodType::Pair(pair) => MethodType::Pair(pair),
            OldMethodType::Random(random) => MethodType::Random(random),
            OldMethodType::Empty => MethodType::Empty,
        }
    }
}

impl vstd::std_specs::convert::FromSpecImpl<OldMethodType> for MethodType {
    open spec fn obeys_from_spec() -> bool {
        true
    }

    open spec fn from_spec(old: OldMethodType) -> Self {
        match old {
            OldMethodType::Pair(pair) => MethodType::Pair(pair),
            OldMethodType::Random(random) => MethodType::Random(random),
            OldMethodType::Empty => MethodType::Empty,
        }
    }
}

/// The metrics in the older stored layout: each may be missing, and one more
/// was kept, which is no longer.
#[allow(non_snake_case)]
pub struct OldMetrics {
    pub ACTIVE_SUBSCRIPTIONS: Option<Metric>,
    pub RPC_OUTCALLS: Option<Metric>,
    pub ECDSA_SIGNS: Option<Metric>,
    pub SUCCESSFUL_RPC_OUTCALLS: Option<Metric>,
    pub SYBIL_OUTCALLS: Option<Metric>,
    pub SUCCESSFUL_SYBIL_OUTCALLS: Option<Metric>,
    pub CYCLES: Option<Metric>,
}

fn unwrap_metric(m: Option<Metric>) -> (res: Metric)
    ensures
        m matches Some(x) ==> res == x,
        m is None ==> res.name@.len() == 0 && res.help@.len() == 0 && res.typ@.len() == 0
            && res.label_names@.len() == 0 && res.inner@.len() == 0,
{
    match m {
        Some(x) => x,
        None => Metric::default(),
    }
}

impl OldMetrics {
    /// The metrics kept now: each stored one as it was, an empty one where none
    /// was stored; the signing counter is dropped.
    pub fn into_metrics(self) -> (res: Metrics)
        ensures
            self.ACTIVE_SUBSCRIPTIONS matches Some(x) ==> res.ACTIVE_SUBSCRIPTIONS == x,
            self.RPC_OUTCALLS matches Some(x) ==> res.RPC_OUTCALLS == x,
            self.SUCCESSFUL_RPC_OUTCALLS matches Some(x) ==> res.SUCCESSFUL_RPC_OUTCALLS == x,
            self.SYBIL_OUTCALLS matches Some(x) ==> res.SYBIL_OUTCALLS == x,
            self.SUCCESSFUL_SYBIL_OUTCALLS matches Some(x) ==> res.SUCCESSFUL_SYBIL_OUTCALLS == x,
            self.CYCLES matches Some(x) ==> res.CYCLES == x,
            self.ACTIVE_SUBSCRIPTIONS is None ==> res.ACTIVE_SUBSCRIPTIONS.inner@.len() == 0,
            self.RPC_OUTCALLS is None ==> res.RPC_OUTCALLS.inner@.len() == 0,
            self.SUCCESSFUL_RPC_OUTCALLS is None ==> res.SUCCESSFUL_RPC_OUTCALLS.inner@.len() == 0,
            self.SYBIL_OUTCALLS is None ==> res.SYBIL_OUTCALLS.inner@.len() == 0,
            self.SUCCESSFUL_SYBIL_OUTCALLS is None ==> res.SUCCESSFUL_SYBIL_OUTCALLS.inner@.len() == 0,
            self.CYCLES is None ==> res.CYCLES.inner@.len() == 0,
    {
        Metrics {
            ACTIVE_SUBSCRIPTIONS: unwrap_metric(self.ACTIVE_SUBSCRIPTIONS),
            RPC_OUTCALLS: unwrap_metric(self.RPC_OUTCALLS),
            SUCCESSFUL_RPC_OUTCALLS: unwrap_metric(self.SUCCESSFUL_RPC_OUTCALLS),
            SYBIL_OUTCALLS: unwrap_metric(self.SYBIL_OUTCALLS),
            SUCCESSFUL_SYBIL_OUTCALLS: unwrap_metric(self.SUCCESSFUL_SYBIL_OUTCALLS),
            CYCLES: unwrap_metric(self.CYCLES),
        }
    }
}

/// The multicall contract of chains stored before chains named their own.
pub const OLD_MULTICALL_CONTRACT_ADDRESS: &'static str = "0x88e33D0d7f9d130c85687FC73655457204E29467";

/// A chain saved without a multicall contract gets `contract`; others stay.
pub open spec fn with_multicall(c: ChainView, contract: Seq<char>) -> ChainView {
    if c.multicall_contract is None {
        ChainView { multicall_contract: Some(contract), ..c }
    } else {
        c
    }
}

/// Gives every chain stored without a multicall contract the default one.
pub fn fill_multicall_contracts(chains: &mut Chains)
    requires
        old(chains).wf(),
    ensures
        final(chains).wf(),
        final(chains).view() == map_entries(old(chains).view(),
            |id: u64, c: ChainView| with_multicall(c, OLD_MULTICALL_CONTRACT_ADDRESS@)),
{
    let ghost g = |id: u64, c: ChainView| with_multicall(c, OLD_MULTICALL_CONTRACT_ADDRESS@);
    let n = chains.0.len();
    let mut i: usize = 0;
    while i < n
        invariant
            n == chains.0@.len(),
            n == old(chains).0@.len(),
            i <= n,
            g == (|id: u64, c: ChainView| with_multicall(c, OLD_MULTICALL_CONTRACT_ADDRESS@)),
            forall|k: int| 0 <= k < i ==> #[trigger] chain_pairs(chains.0@)[k]
                == (old(chains).0@[k].0, g(old(chains).0@[k].0, old(chains).0@[k].1@)),
            forall|k: int| i <= k < n ==> #[trigger] chains.0@[k] == old(chains).0@[k],
        decreases n - i,
    {
        let ghost prev = chains.0@;
        if chains.0[i].1.multicall_contract.is_none() {
            chains.0[i].1.multicall_contract = Some(str_to_string(OLD_MULTICALL_CONTRACT_ADDRESS));
        }
        assert forall|k: int| 0 <= k < n && k != i implies #[trigger] chains.0@[k] == prev[k] by {}
        assert forall|k: int| 0 <= k < i implies #[trigger] chain_pairs(chains.0@)[k] == chain_pairs(prev)[k] by {
            assert(chains.0@[k] == prev[k]);
        }
        assert(chain_pairs(chains.0@)[i as int].1 == g(old(chains).0@[i as int].0, old(chains).0@[i as int].1@));
        i = i + 1;
    }
    proof {
        let s0 = chain_pairs(old(chains).0@);
        assert forall|k: int| 0 <= k < s0.len() implies #[trigger] chain_pairs(chains.0@)[k]
            == (s0[k].0, g(s0[k].0, s0[k].1)) by {}
        lemma_to_map_pointwise(s0, chain_pairs(chains.0@), g);
    }
}

/// How many of `subs` are active.
pub open spec fn active_count(subs: Seq<Subscription>) -> nat
    decreases subs.len(),
{
    if subs.len() == 0 {
        0
    } else {
        active_count(subs.drop_last()) + if subs.last().status.is_active { 1nat } else { 0nat }
    }
}

/// For each chain, in table order, how many of its subscriptions are active.
pub fn active_subscriptions_per_chain(subscriptions: &Subscriptions) -> (res: Vec<(u64, u128)>)
    ensures
        res@.len() == subscriptions.0@.len(),
        forall|i: int| 0 <= i < res@.len() ==> (#[trigger] res@[i]).0 == subscriptions.0@[i].0
            && res@[i].1 == active_count(subscriptions.0@[i].1@),
{
    let mut res: Vec<(u64, u128)> = Vec::new();
    let mut i: usize = 0;
    while i < subscriptions.0.len()
        invariant
            i <= subscriptions.0@.len(),
            res@.len() == i,
            forall|k: int| 0 <= k < i ==> (#[trigger] res@[k]).0 == subscriptions.0@[k].0
                && res@[k].1 == active_count(subscriptions.0@[k].1@),
        decreases subscriptions.0@.len() - i,
    {
        let subs = &subscriptions.0[i].1;
        let mut count: u128 = 0;
        let mut j: usize = 0;
        while j < subs.len()
            invariant
                j <= subs@.len(),
                count == active_count(subs@.subrange(0, j as int)),
                count <= j,
            decreases subs@.len() - j,
        {
            proof {
                assert(subs@.subrange(0, j + 1).drop_last() =~= subs@.subrange(0, j as int));
            }
            if subs[j].status.is_active {
                count = count + 1;
            }
            j = j + 1;
        }
        assert(subs@.subrange(0, subs@.len() as int) =~= subs@);
        res.push((subscriptions.0[i].0, count));
        i = i + 1;
    }
    res
}

} // verus!
