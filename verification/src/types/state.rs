//! Everything the service keeps between calls.
use vstd::prelude::*;

use crate::types::balance::{Balances, UserBalanceView};
use crate::types::chains::{ChainView, Chains};
use crate::types::subscription::{Subscription, Subscriptions, SubscriptionsIndexer};
use crate::types::timer::Timer;
use crate::types::whitelist::Whitelist;
use crate::types::withdraw::{WithdrawRequest, WithdrawRequests};

verus! {

/// The service's state. Principals are held as their text form.
pub struct State {
    pub initialized: bool,
    pub controllers: Vec<String>,
    pub chains: Chains,
    pub tx_fee: u128,
    pub key_name: String,
    pub siwe_canister: Option<String>,
    pub sybil_canister: Option<String>,
    pub ic_eth_rpc_canister: String,
    pub subs_limit_wallet: u64,
    pub subs_limit_total: u64,
    pub pma: Option<String>,
    pub balances: Balances,
    pub withdraw_requests: WithdrawRequests,
    pub subscriptions: Subscriptions,
    pub timer_frequency: u64,
    pub subscriptions_indexer: SubscriptionsIndexer,
    pub is_timer_active: bool,
    pub timer: Option<Timer>,
    pub whitelist: Whitelist,
}

/// Subscriptions limit of one wallet that a new service starts with.
pub const INITIAL_SUBS_LIMIT_WALLET: u64 = 5;

/// Subscriptions limit of the whole service that a new service starts with.
pub const INITIAL_SUBS_LIMIT_TOTAL: u64 = 100;

/// Seconds between two runs of the publisher that a new service starts with.
pub const INITIAL_TIMER_FREQUENCY: u64 = 300;

impl State {
    /// Every table keeps its keys unique.
    pub open spec fn wf(&self) -> bool {
        &&& self.chains.wf()
        &&& self.balances.wf()
        &&& self.withdraw_requests.wf()
        &&& self.subscriptions.wf()
    }

    /// `self` and `other` agree on every setting: all but the tables and the
    /// whitelist.
    pub open spec fn same_settings(&self, other: &State) -> bool {
        &&& self.initialized == other.initialized
        &&& self.controllers == other.controllers
        &&& self.tx_fee == other.tx_fee
        &&& self.key_name == other.key_name
        &&& self.siwe_canister == other.siwe_canister
        &&& self.sybil_canister == other.sybil_canister
        &&& self.ic_eth_rpc_canister == other.ic_eth_rpc_canister
        &&& self.subs_limit_wallet == other.subs_limit_wallet
        &&& self.subs_limit_total == other.subs_limit_total
        &&& self.pma == other.pma
        &&& self.timer_frequency == other.timer_frequency
        &&& self.subscriptions_indexer == other.subscriptions_indexer
        &&& self.is_timer_active == other.is_timer_active
        &&& self.timer == other.timer
    }

    /// `self` and `other` hold the same chains, balances, withdrawal requests and
    /// subscriptions.
    pub open spec fn same_tables(&self, other: &State) -> bool {
        &&& self.chains.view() == other.chains.view()
        &&& self.balances.view() == other.balances.view()
        &&& self.withdraw_requests.view() == other.withdraw_requests.view()
        &&& self.subscriptions.view() == other.subscriptions.view()
    }
}

impl Default for State {
    /// A state with nothing in it.
    fn default() -> (res: Self)
        ensures
            res.wf(),
            res.chains.view() == Map::<u64, ChainView>::empty(),
            res.balances.view() == Map::<u64, Map<Seq<char>, UserBalanceView>>::empty(),
            res.withdraw_requests.view() == Map::<u64, Seq<WithdrawRequest>>::empty(),
            res.subscriptions.view() == Map::<u64, Seq<Subscription>>::empty(),
            res.whitelist@.len() == 0,
            res.timer is None,
            res.pma is None,
            res.tx_fee == 0,
            res.subs_limit_wallet == 0,
            res.subs_limit_total == 0,
            res.timer_frequency == 0,
            res.subscriptions_indexer.0 == 0,
    {
        State {
            initialized: false,
            controllers: Vec::new(),
            chains: Chains::new(),
            tx_fee: 0,
            key_name: String::new(),
            siwe_canister: None,
            sybil_canister: None,
            ic_eth_rpc_canister: String::new(),
            subs_limit_wallet: 0,
            subs_limit_total: 0,
            pma: None,
            balances: Balances::new(),
            withdraw_requests: WithdrawRequests::new(),
            subscriptions: Subscriptions::new(),
            timer_frequency: 0,
            subscriptions_indexer: SubscriptionsIndexer(0),
            is_timer_active: false,
            timer: None,
            whitelist: Vec::new(),
        }
    }
}

/// Sets up a freshly installed service: its fee, signing key, the canisters it
/// talks to, the default limits and timer frequency, and an idle timer.
pub fn init(
    state: &mut State,
    tx_fee: u128,
    key_name: String,
    siwe_canister: String,
    sybil_canister: String,
    ic_eth_rpc_canister: String,
)
    ensures
        final(state).tx_fee == tx_fee,
        final(state).key_name == key_name,
        final(state).siwe_canister == Some(siwe_canister),
        final(state).sybil_canister == Some(sybil_canister),
        final(state).ic_eth_rpc_canister == ic_eth_rpc_canister,
        final(state).subs_limit_wallet == INITIAL_SUBS_LIMIT_WALLET,
        final(state).subs_limit_total == INITIAL_SUBS_LIMIT_TOTAL,
        final(state).timer_frequency == INITIAL_TIMER_FREQUENCY,
        final(state).timer matches Some(t) && t.id@.len() == 0 && !t.is_active,
        final(state).wf() == old(state).wf(),
        final(state).same_tables(&*old(state)),
        final(state).whitelist == old(state).whitelist,
        final(state).pma == old(state).pma,
        final(state).subscriptions_indexer == old(state).subscriptions_indexer,
{
    state.tx_fee = tx_fee;
    state.key_name = key_name;
    state.siwe_canister = Some(siwe_canister);
    state.sybil_canister = Some(sybil_canister);
    state.ic_eth_rpc_canister = ic_eth_rpc_canister;
    state.subs_limit_wallet = INITIAL_SUBS_LIMIT_WALLET;
    state.subs_limit_total = INITIAL_SUBS_LIMIT_TOTAL;
    state.timer_frequency = INITIAL_TIMER_FREQUENCY;
    state.timer = Some(Timer::default());
}

} // verus!
