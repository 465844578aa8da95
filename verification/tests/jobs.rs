use pythia::jobs::publisher::{
    call_of, plan_round, publication_charge, record_publish_failures, RoundPlan, settle_publication, settle_results, MulticallResult,
};
use pythia::jobs::subscriptions_grouper::{group, group_subscriptions};
use pythia::jobs::withdraw::send_funds_plan;
use pythia::methods::balance::{_deposit_prepare, _deposit_settle, _get_balance};
use pythia::methods::chains::{_add_chain, _add_chain_pma_balance};
use pythia::methods::whitelist::_add_to_whitelist;
use pythia::types::chains::CreateChainRequest;
use pythia::types::errors::PythiaError;
use pythia::types::methods::{ExecutionCondition, PriceMutationType};
use pythia::types::state::{init, State};
use pythia::types::subscription::{PriceMutationConditionRequest, Subscription, SubsribeRequest};
use pythia::types::withdraw::WithdrawRequest;
use pythia::utils::multicall::{batch_gas, get_current_calls_batch, max_fee_per_gas, multitransfer_value, transfers_total, Call, Transfer};
use pythia::utils::web3::boost_gas_price;

const USER: &str = "0xa0ee7a142d267c1f36714e4a8f75612f20a79720";
const PMA: &str = "0x5aaeb6053f3e94c9b9a09f33669435e7ef1beaed";

fn pma_bytes() -> [u8; 20] {
    let mut b = [0u8; 20];
    hex::decode_to_slice(&PMA[2..], &mut b).unwrap();
    b
}

fn state_with_user(balance: u128) -> State {
    let mut st = State::default();
    init(&mut st, 5, "key".into(), "siwe".into(), "sybil".into(), "rpc".into());
    let req = CreateChainRequest {
        chain_id: 1,
        rpc: "https://rpc.example.com".into(),
        min_balance: 100,
        block_gas_limit: 30_000_000,
        fee: 10,
        symbol: "ETH".into(),
        multicall_contract: "0x88e33d0d7f9d130c85687fc73655457204e29467".into(),
    };
    _add_chain(&mut st, true, &req).unwrap();
    _add_chain_pma_balance(&mut st, 1, PMA).unwrap();
    _add_to_whitelist(&mut st, true, USER).unwrap();
    _deposit_prepare(&mut st, 1, USER).unwrap();
    _deposit_settle(&mut st, 1, USER, Some(pma_bytes()), Some(pma_bytes()), 1, balance).unwrap();
    st
}

fn add_sub(st: &mut State, cond: ExecutionCondition) -> Subscription {
    let (frequency_condition, price_mutation_cond_req, rate) = match cond {
        ExecutionCondition::Frequency(f) => (Some(f), None, None),
        ExecutionCondition::PriceMutation { mutation_rate, pair_id, creation_price, price_mutation_type } => (
            None,
            Some(PriceMutationConditionRequest { mutation_rate, pair_id, price_mutation_type }),
            Some(creation_price),
        ),
    };
    let req = SubsribeRequest {
        chain_id: 1,
        pair_id: None,
        contract_addr: "0x88e33d0d7f9d130c85687fc73655457204e29467".into(),
        method_abi: "set(uint256)".into(),
        is_random: true,
        gas_limit: 100_000,
        frequency_condition,
        price_mutation_cond_req,
        msg: String::new(),
        sig: String::new(),
    };
    let tf = st.timer_frequency;
    let id = st.subscriptions.add(&mut st.subscriptions_indexer, req, USER, tf, true, rate).unwrap();
    st.subscriptions.get(1, id).unwrap()
}

fn result(success: bool, used_gas: u128) -> MulticallResult {
    MulticallResult { success, used_gas, return_data: vec![] }
}

#[test]
fn gas_price_is_raised_by_a_fifth() {
    assert_eq!(boost_gas_price(100), 120);
    assert_eq!(boost_gas_price(105), 120);
    assert_eq!(boost_gas_price(9), 0);
}

#[test]
fn charge_of_a_publication() {
    assert_eq!(publication_charge(50_000, 1, 2, 10), Some(2 * (50_000 + 21_000 + 100) + 10));
    assert_eq!(publication_charge(50_000, 4, 3, 0), Some(3 * (50_000 + 5_250 + 100)));
    assert_eq!(publication_charge(u128::MAX, 1, 0, 7), Some(7));
    assert_eq!(publication_charge(u128::MAX, 1, 2, 0), None);
}

#[test]
fn unused_gas_means_publish_again() {
    let mut st = state_with_user(1_000_000);
    let sub = add_sub(&mut st, ExecutionCondition::Frequency(300));
    assert_eq!(settle_publication(&mut st, 1, PMA, &sub, &result(true, 0), 1, 2, 10, 77), Ok(true));
    assert_eq!(_get_balance(&st, 1, USER), Ok(1_000_000));
    assert_eq!(st.subscriptions.get(1, sub.id).unwrap().status.executions_counter, 0);
}

#[test]
fn publication_is_paid_and_recorded() {
    let mut st = state_with_user(1_000_000);
    let sub = add_sub(&mut st, ExecutionCondition::Frequency(300));
    assert_eq!(settle_publication(&mut st, 1, PMA, &sub, &result(true, 50_000), 1, 2, 10, 77), Ok(false));
    assert_eq!(_get_balance(&st, 1, USER), Ok(1_000_000 - 142_210));
    assert_eq!(_get_balance(&st, 1, PMA), Ok(10));
    let s = st.subscriptions.get(1, sub.id).unwrap();
    assert_eq!(s.status.last_update, 77);
    assert_eq!(s.status.executions_counter, 1);
    assert_eq!(s.status.failures_counter, None);
    assert!(s.status.is_active);
}

#[test]
fn running_over_the_gas_limit_stops_and_raises_it() {
    let mut st = state_with_user(10_000_000);
    let sub = add_sub(&mut st, ExecutionCondition::Frequency(300));
    assert_eq!(settle_publication(&mut st, 1, PMA, &sub, &result(false, 200_000), 2, 1, 0, 5), Ok(false));
    let s = st.subscriptions.get(1, sub.id).unwrap();
    assert!(!s.status.is_active);
    assert_eq!(s.method.gas_limit, 260_000);
    assert_eq!(s.status.failures_counter, Some(1));
    assert_eq!(_get_balance(&st, 1, USER), Ok(10_000_000 - (200_000 + 10_500 + 100)));
}

#[test]
fn failures_reach_the_limit() {
    let mut st = state_with_user(100_000_000);
    let sub = add_sub(&mut st, ExecutionCondition::Frequency(300));
    for t in 0..5 {
        settle_publication(&mut st, 1, PMA, &sub, &result(false, 1_000), 1, 1, 0, t).unwrap();
    }
    let s = st.subscriptions.get(1, sub.id).unwrap();
    assert_eq!(s.status.failures_counter, Some(5));
    assert!(!s.status.is_active);
}

#[test]
fn an_owner_who_cannot_pay_is_refused() {
    let mut st = state_with_user(1_000);
    let sub = add_sub(&mut st, ExecutionCondition::Frequency(300));
    assert_eq!(
        settle_publication(&mut st, 1, PMA, &sub, &result(true, 50_000), 1, 2, 10, 1),
        Err(PythiaError::UnableToReduceBalance)
    );
    assert_eq!(_get_balance(&st, 1, USER), Ok(1_000));
}

#[test]
fn results_leave_the_unpublished_for_later() {
    let mut st = state_with_user(100_000_000);
    let a = add_sub(&mut st, ExecutionCondition::Frequency(300));
    let b = add_sub(&mut st, ExecutionCondition::Frequency(300));
    let c = add_sub(&mut st, ExecutionCondition::Frequency(300));
    let subs = vec![a.clone(), b.clone(), c.clone()];
    let rest = settle_results(&mut st, 1, PMA, subs.clone(), &vec![], 1, 0, 9).unwrap();
    assert_eq!(rest.len(), 3);
    let rest = settle_results(&mut st, 1, PMA, subs, &vec![result(true, 0), result(true, 10)], 1, 0, 9).unwrap();
    assert_eq!(rest.iter().map(|s| s.id).collect::<Vec<_>>(), vec![a.id]);
    assert_eq!(st.subscriptions.get(1, b.id).unwrap().status.last_update, 9);
    assert_eq!(st.subscriptions.get(1, c.id).unwrap().status.last_update, 0);
}

#[test]
fn grouping_lines_up_last_updates() {
    let mut st = state_with_user(1_000_000);
    let a = add_sub(&mut st, ExecutionCondition::Frequency(300));
    let b = add_sub(&mut st, ExecutionCondition::Frequency(300));
    st.subscriptions.update_last_update(1, a.id, false, 500);
    assert_eq!(group(&mut st), Ok(()));
    assert_eq!(st.subscriptions.get(1, a.id).unwrap().status.last_update, 500);
    assert_eq!(st.subscriptions.get(1, b.id).unwrap().status.last_update, 500);
}

#[test]
fn grouping_leaves_a_lone_frequency() {
    let mut st = state_with_user(1_000_000);
    let mut a = add_sub(&mut st, ExecutionCondition::Frequency(300));
    let mut b = add_sub(&mut st, ExecutionCondition::Frequency(300));
    a.old_frequency = 60;
    b.old_frequency = 120;
    a.status.last_update = 3;
    b.status.last_update = 4;
    let out = group_subscriptions(&vec![a, b]);
    assert_eq!(out[0].status.last_update, 3);
    assert_eq!(out[1].status.last_update, 4);
}

#[test]
fn due_subscriptions_are_picked() {
    let mut st = state_with_user(1_000_000);
    let a = add_sub(&mut st, ExecutionCondition::Frequency(300));
    let b = add_sub(
        &mut st,
        ExecutionCondition::PriceMutation {
            mutation_rate: 10,
            pair_id: "ETH/USD".into(),
            creation_price: 1000,
            price_mutation_type: PriceMutationType::Decrease,
        },
    );
    assert_eq!(st.subscriptions.price_pairs(), vec!["ETH/USD".to_string()]);
    let rates = vec![("ETH/USD".to_string(), Some(950u64))];
    let (due, active) = st.subscriptions.get_publishable(100, &rates);
    assert!(active);
    assert_eq!(due.len(), 1);
    assert_eq!(due[0].0, 1);
    assert_eq!(due[0].1.iter().map(|s| s.id).collect::<Vec<_>>(), vec![b.id]);
    let (due, _) = st.subscriptions.get_publishable(301, &rates);
    assert_eq!(due[0].1.iter().map(|s| s.id).collect::<Vec<_>>(), vec![a.id, b.id]);
    match st.subscriptions.get(1, b.id).unwrap().method.exec_condition {
        Some(ExecutionCondition::PriceMutation { creation_price, .. }) => assert_eq!(creation_price, 950),
        _ => panic!("price condition expected"),
    }
}

#[test]
fn nothing_is_due_when_all_are_stopped() {
    let mut st = state_with_user(1_000_000);
    let a = add_sub(&mut st, ExecutionCondition::Frequency(300));
    st.subscriptions.stop(1, USER, a.id).unwrap();
    let (due, active) = st.subscriptions.get_publishable(10_000, &vec![]);
    assert!(!active);
    assert!(due[0].1.is_empty());
}

fn call(gas: u128) -> Call {
    Call { target: [1u8; 20], call_data: vec![1, 2], gas_limit: gas }
}

#[test]
fn calls_are_batched_by_block_gas() {
    let calls = vec![call(10_000), call(10_000), call(10_000)];
    let (batch, rest) = get_current_calls_batch(calls, 40_000);
    assert_eq!(batch.len(), 1);
    assert_eq!(rest.len(), 2);
    let (batch, rest) = get_current_calls_batch(vec![call(10_000), call(10_000)], 1_000_000);
    assert_eq!(batch.len(), 2);
    assert!(rest.is_empty());
    let (batch, rest) = get_current_calls_batch(vec![call(u128::MAX), call(1)], u128::MAX);
    assert!(batch.is_empty());
    assert_eq!(rest.len(), 2);
}

#[test]
fn batch_gas_and_fees() {
    assert_eq!(batch_gas(&vec![call(5), call(6)]), Some(27_000 + 10_000 + 11));
    assert_eq!(batch_gas(&vec![call(u128::MAX)]), None);
    assert_eq!(max_fee_per_gas(21), 42);
    let ts = vec![Transfer { target: [0; 20], value: 100 }, Transfer { target: [0; 20], value: 50 }];
    assert_eq!(transfers_total(&ts), Some(150));
    assert_eq!(multitransfer_value(150, 40, 2, 3), 90);
}

#[test]
fn withdrawals_go_out_in_chunks_of_a_hundred() {
    let reqs: Vec<WithdrawRequest> = (0..150u128).map(|i| WithdrawRequest { amount: i, receiver: PMA.to_string() }).collect();
    let plan = send_funds_plan(&reqs).unwrap();
    assert_eq!(plan.len(), 2);
    assert_eq!(plan[0].len(), 100);
    assert_eq!(plan[1].len(), 50);
    assert_eq!(plan[1][49].value, 149);
    assert_eq!(plan[0][0].target, pma_bytes());
    let bad = vec![WithdrawRequest { amount: 1, receiver: "nope".into() }];
    assert!(send_funds_plan(&bad).is_none());
    assert!(send_funds_plan(&vec![]).unwrap().is_empty());
}

#[test]
fn calls_are_made_from_subscriptions() {
    let mut st = state_with_user(1_000_000);
    let mut sub = add_sub(&mut st, ExecutionCondition::Frequency(300));
    let call = call_of(&sub, Ok(vec![1, 2, 3])).unwrap();
    assert_eq!(hex::encode(call.target), "88e33d0d7f9d130c85687fc73655457204e29467");
    assert_eq!(call.call_data, vec![1, 2, 3]);
    assert_eq!(call.gas_limit, 100_000);
    assert_eq!(call_of(&sub, Err(PythiaError::UnableToGetAssetData)).err(), Some(PythiaError::UnableToFormCallData));
    sub.contract_addr = "0x12".into();
    assert_eq!(call_of(&sub, Ok(vec![])).err(), Some(PythiaError::InvalidAddressFormat));
}

#[test]
fn failed_publications_are_recorded_in_order() {
    let mut st = state_with_user(1_000_000);
    let a = add_sub(&mut st, ExecutionCondition::Frequency(300));
    let b = add_sub(&mut st, ExecutionCondition::Frequency(600));
    assert_eq!(record_publish_failures(&mut st.subscriptions, &vec![], 10), Ok(()));
    assert_eq!(st.subscriptions.get(1, a.id).unwrap().status.executions_counter, 0);

    assert_eq!(record_publish_failures(&mut st.subscriptions, &vec![(1, a.id), (1, b.id), (1, a.id)], 900), Ok(()));
    let sa = st.subscriptions.get(1, a.id).unwrap();
    assert_eq!(sa.status.executions_counter, 2);
    assert_eq!(sa.status.failures_counter, Some(2));
    assert_eq!(sa.status.last_update, 900);
    assert!(sa.status.is_active);
    let sb = st.subscriptions.get(1, b.id).unwrap();
    assert_eq!(sb.status.executions_counter, 1);
    assert_eq!(sb.status.failures_counter, Some(1));
}

#[test]
fn recording_failures_stops_at_a_missing_subscription() {
    let mut st = state_with_user(1_000_000);
    let a = add_sub(&mut st, ExecutionCondition::Frequency(300));
    let b = add_sub(&mut st, ExecutionCondition::Frequency(600));
    assert_eq!(
        record_publish_failures(&mut st.subscriptions, &vec![(1, a.id), (1, 999), (1, b.id)], 50),
        Err(PythiaError::SubscriptionDoesNotExist)
    );
    assert_eq!(st.subscriptions.get(1, a.id).unwrap().status.failures_counter, Some(1));
    assert_eq!(st.subscriptions.get(1, b.id).unwrap().status.failures_counter, None);
    assert_eq!(record_publish_failures(&mut st.subscriptions, &vec![(2, a.id)], 50), Err(PythiaError::ChainDoesNotExist));
    assert_eq!(st.subscriptions.get(1, a.id).unwrap().status.executions_counter, 1);
}

#[test]
fn recorded_failures_stop_a_subscription_at_the_limit() {
    let mut st = state_with_user(1_000_000);
    let a = add_sub(&mut st, ExecutionCondition::Frequency(300));
    let failed = vec![(1, a.id); 5];
    assert_eq!(record_publish_failures(&mut st.subscriptions, &failed, 70), Ok(()));
    let sa = st.subscriptions.get(1, a.id).unwrap();
    assert_eq!(sa.status.failures_counter, Some(5));
    assert!(!sa.status.is_active);
}

#[test]
fn a_round_publishes_on_the_chains_with_something_due() {
    let mut st = state_with_user(1_000_000);
    let a = add_sub(&mut st, ExecutionCondition::Frequency(300));
    match plan_round(vec![(1, vec![a.clone()]), (2, vec![])], true) {
        RoundPlan::Publish { chains, stop_insufficients } => {
            assert_eq!(chains.len(), 1);
            assert_eq!(chains[0].0, 1);
            assert_eq!(chains[0].1[0].id, a.id);
            assert!(stop_insufficients);
        }
        RoundPlan::Stop => panic!("an active round should publish"),
    }
    match plan_round(vec![(2, vec![])], true) {
        RoundPlan::Publish { chains, stop_insufficients } => {
            assert!(chains.is_empty());
            assert!(!stop_insufficients);
        }
        RoundPlan::Stop => panic!("an active round should publish"),
    }
    assert!(matches!(plan_round(vec![(1, vec![a])], false), RoundPlan::Stop));
}
