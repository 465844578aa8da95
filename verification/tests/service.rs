use pythia::methods::balance::{_deposit_prepare, _deposit_settle, _get_balance, _withdraw_settle};
use pythia::methods::chains::{
    _add_chain, _add_chain_pma_balance, _get_chain_rpc, _remove_chain, _update_chain_fee_and_symbol,
    _update_chain_min_balance, _update_chain_rpc, get_chains,
};
use pythia::methods::controllers::{
    _clear_balance, _execute_publisher_job, _execute_withdraw, _stop_timer, _update_subs_limit_total,
    _update_timer_frequency, _update_tx_fee, _withdraw_fee_settle, _withdraw_fee_value,
};
use pythia::methods::subscriptions::{
    _remove_subscription, _start_subscription, _stop_subscription, _stop_subscriptions, _subscribe_checks,
    get_subscriptions, GetSubscriptionsFilter,
};
use pythia::methods::whitelist::{
    _add_to_whitelist, _blacklist, _get_whitelist, _is_whitelisted, _remove_from_whitelist, _unblacklist,
};
use pythia::types::chains::CreateChainRequest;
use pythia::types::errors::PythiaError;
use pythia::types::methods::{ExecutionCondition, ExecutionConditionError, MethodType, PriceMutationType};
use pythia::types::pagination::Pagination;
use pythia::types::state::{init, State};
use pythia::types::subscription::{PriceMutationConditionRequest, SubsribeRequest, UpdateSubscriptionRequest};

const USER: &str = "0xa0ee7a142d267c1f36714e4a8f75612f20a79720";
const USER_MIXED: &str = "0xA0Ee7A142d267C1f36714E4a8F75612F20a79720";
const PMA: &str = "0x5aaeb6053f3e94c9b9a09f33669435e7ef1beaed";

fn pma_bytes() -> [u8; 20] {
    let mut b = [0u8; 20];
    hex::decode_to_slice(&PMA[2..], &mut b).unwrap();
    b
}

fn chain_request(id: u64) -> CreateChainRequest {
    CreateChainRequest {
        chain_id: id,
        rpc: "https://rpc.example.com".into(),
        min_balance: 100,
        block_gas_limit: 30_000_000,
        fee: 10,
        symbol: "ETH".into(),
        multicall_contract: "0x88e33d0d7f9d130c85687fc73655457204e29467".into(),
    }
}

fn ready_state() -> State {
    let mut st = State::default();
    init(&mut st, 5, "key".into(), "siwe".into(), "sybil".into(), "rpc".into());
    _add_chain(&mut st, true, &chain_request(1)).unwrap();
    _add_chain_pma_balance(&mut st, 1, PMA).unwrap();
    _add_to_whitelist(&mut st, true, USER).unwrap();
    _deposit_prepare(&mut st, 1, USER).unwrap();
    _deposit_settle(&mut st, 1, USER, Some(pma_bytes()), Some(pma_bytes()), 1, 1_000_000).unwrap();
    st
}

fn subscribe(st: &mut State, method_abi: &str) -> u64 {
    let req = SubsribeRequest {
        chain_id: 1,
        pair_id: None,
        contract_addr: "0x88e33d0d7f9d130c85687fc73655457204e29467".into(),
        method_abi: method_abi.into(),
        is_random: true,
        gas_limit: 100_000,
        frequency_condition: Some(300),
        price_mutation_cond_req: None,
        msg: String::new(),
        sig: String::new(),
    };
    _subscribe_checks(st, USER, 1).unwrap();
    let tf = st.timer_frequency;
    st.subscriptions.add(&mut st.subscriptions_indexer, req, USER, tf, true, None).unwrap()
}

#[test]
fn init_sets_defaults() {
    let mut st = State::default();
    init(&mut st, 7, "key_1".into(), "a".into(), "b".into(), "c".into());
    assert_eq!(st.tx_fee, 7);
    assert_eq!(st.subs_limit_wallet, 5);
    assert_eq!(st.subs_limit_total, 100);
    assert_eq!(st.timer_frequency, 300);
    let t = st.timer.as_ref().unwrap();
    assert!(!t.is_active && t.id.is_empty());
}

#[test]
fn only_controllers_change_settings() {
    let mut st = State::default();
    assert_eq!(_update_tx_fee(&mut st, false, 3), Err(PythiaError::NotAController));
    assert_eq!(st.tx_fee, 0);
    assert_eq!(_update_tx_fee(&mut st, true, 3), Ok(()));
    assert_eq!(st.tx_fee, 3);
    assert_eq!(_update_subs_limit_total(&mut st, true, 9), Ok(()));
    assert_eq!(st.subs_limit_total, 9);
    assert_eq!(_update_timer_frequency(&mut st, true, 60), Ok(()));
    assert_eq!(st.timer_frequency, 60);
    assert_eq!(_execute_publisher_job(false), Err(PythiaError::NotAController));
    assert_eq!(_execute_withdraw(true), Ok(()));
}

#[test]
fn stop_timer_needs_a_timer() {
    let mut st = State::default();
    assert_eq!(_stop_timer(&mut st, true), Err(PythiaError::UnableToDeactivateTimer));
    init(&mut st, 0, "k".into(), "a".into(), "b".into(), "c".into());
    st.timer.as_mut().unwrap().is_active = true;
    assert_eq!(_stop_timer(&mut st, true), Err(PythiaError::UnableToDeactivateTimer));
    assert!(st.timer.as_ref().unwrap().is_active);
    st.timer.as_mut().unwrap().id = "17".into();
    assert_eq!(_stop_timer(&mut st, true), Ok(17));
    assert!(!st.timer.as_ref().unwrap().is_active);
    assert_eq!(st.timer.as_ref().unwrap().id, "17");
}

#[test]
fn whitelist_endpoints() {
    let mut st = State::default();
    assert_eq!(_add_to_whitelist(&mut st, false, USER), Err(PythiaError::NotAController));
    assert_eq!(_add_to_whitelist(&mut st, true, "0x12"), Err(PythiaError::InvalidAddressFormat));
    assert_eq!(_add_to_whitelist(&mut st, true, USER_MIXED), Ok(()));
    assert_eq!(st.whitelist[0].address, USER);
    assert_eq!(_is_whitelisted(&st, USER_MIXED), Ok(true));
    assert_eq!(_is_whitelisted(&st, PMA), Ok(false));
    assert_eq!(_is_whitelisted(&st, "nope"), Err(PythiaError::InvalidAddressFormat));
    assert_eq!(_unblacklist(&mut st, true, USER), Ok(()));
    assert_eq!(_get_whitelist(&st, false).err(), Some(PythiaError::NotAController));
    assert_eq!(_get_whitelist(&st, true).unwrap().len(), 1);
}

#[test]
fn blacklisting_stops_and_removal_deletes_subscriptions() {
    let mut st = ready_state();
    let id = subscribe(&mut st, "set(uint256)");
    assert_eq!(_blacklist(&mut st, true, USER), Ok(()));
    assert_eq!(_is_whitelisted(&st, USER), Ok(false));
    assert!(!st.subscriptions.get(1, id).unwrap().status.is_active);
    assert_eq!(_unblacklist(&mut st, true, USER), Ok(()));
    assert_eq!(_is_whitelisted(&st, USER), Ok(true));
    assert!(!st.subscriptions.get(1, id).unwrap().status.is_active);
    assert_eq!(_remove_from_whitelist(&mut st, true, USER), Ok(()));
    assert_eq!(_is_whitelisted(&st, USER), Ok(false));
    assert_eq!(st.subscriptions.get(1, id).err(), Some(PythiaError::SubscriptionDoesNotExist));
}

#[test]
fn adding_a_chain_opens_its_tables() {
    let mut st = State::default();
    assert_eq!(_add_chain(&mut st, false, &chain_request(1)), Err(PythiaError::NotAController));
    assert_eq!(_add_chain(&mut st, true, &chain_request(1)), Ok(()));
    assert_eq!(_add_chain(&mut st, true, &chain_request(1)), Err(PythiaError::ChainAlreadyExists));
    let mut bad = chain_request(2);
    bad.rpc = "not a url".into();
    assert_eq!(_add_chain(&mut st, true, &bad), Err(PythiaError::UnableToAddNewChain));
    let chains = get_chains(&st);
    assert_eq!(chains.len(), 1);
    assert_eq!(chains[0].rpc, "https://rpc.example.com/");
    assert_eq!(_get_chain_rpc(&st, true, 1), Ok("https://rpc.example.com/".to_string()));
    assert_eq!(_get_chain_rpc(&st, true, 2), Err(PythiaError::UnableToGetChainRPC));
    assert_eq!(_add_chain_pma_balance(&mut st, 1, PMA), Ok(()));
    assert_eq!(_add_chain_pma_balance(&mut st, 1, PMA), Err(PythiaError::UnableToAddNewBalance));
    assert_eq!(_get_balance(&st, 1, PMA), Ok(0));
}

#[test]
fn updating_a_chain() {
    let mut st = State::default();
    _add_chain(&mut st, true, &chain_request(1)).unwrap();
    assert_eq!(_update_chain_min_balance(&mut st, true, 1, 55), Ok(()));
    assert_eq!(_update_chain_fee_and_symbol(&mut st, true, 1, 4, "BNB".into()), Ok(()));
    assert_eq!(_update_chain_rpc(&mut st, true, 1, "http://node.local:8545".into()), Ok(()));
    assert_eq!(_update_chain_rpc(&mut st, true, 1, "%%%".into()), Err(PythiaError::UnableToUpdateChain));
    assert_eq!(_update_chain_min_balance(&mut st, true, 9, 1), Err(PythiaError::UnableToUpdateChain));
    let c = &get_chains(&st)[0];
    assert_eq!(c.min_balance, 55);
    assert_eq!(c.fee, Some(4));
    assert_eq!(c.symbol.as_deref(), Some("BNB"));
    assert_eq!(c.rpc, "http://node.local:8545/");
}

#[test]
fn removing_a_chain_removes_its_tables() {
    let mut st = State::default();
    _add_chain(&mut st, true, &chain_request(1)).unwrap();
    _add_chain(&mut st, true, &chain_request(2)).unwrap();
    assert_eq!(_remove_chain(&mut st, false, 1), Err(PythiaError::NotAController));
    assert_eq!(_remove_chain(&mut st, true, 1), Ok(()));
    assert_eq!(get_chains(&st).len(), 1);
    assert!(st.balances.0.iter().all(|(c, _)| *c == 2));
    assert!(st.subscriptions.0.iter().all(|(c, _)| *c == 2));
    assert!(st.withdraw_requests.0.iter().all(|(c, _)| *c == 2));
    assert_eq!(st.withdraw_requests.0.len(), 1);
    assert_eq!(_get_balance(&st, 1, PMA), Ok(0));
    assert_eq!(_remove_chain(&mut st, true, 1), Err(PythiaError::UnableToRemoveChain));
}

#[test]
fn deposits_count_each_transaction_once() {
    let mut st = ready_state();
    assert_eq!(_get_balance(&st, 1, USER), Ok(1_000_000));
    let other = [7u8; 20];
    assert_eq!(_deposit_settle(&mut st, 1, USER, None, Some(pma_bytes()), 2, 5), Err(PythiaError::TxWithoutReceiver));
    assert_eq!(_deposit_settle(&mut st, 1, USER, Some(other), Some(pma_bytes()), 2, 5), Err(PythiaError::TxWasNotSentToPma));
    assert_eq!(_deposit_settle(&mut st, 1, USER, Some(pma_bytes()), None, 2, 5), Err(PythiaError::UnableToGetPMA));
    assert_eq!(_deposit_settle(&mut st, 1, USER, Some(pma_bytes()), Some(pma_bytes()), 1, 5), Err(PythiaError::UnableToSaveNonce));
    assert_eq!(_deposit_settle(&mut st, 1, USER, Some(pma_bytes()), Some(pma_bytes()), 2, 0), Ok(()));
    assert_eq!(_get_balance(&st, 1, USER), Ok(1_000_000));
    assert_eq!(_deposit_settle(&mut st, 1, USER, Some(pma_bytes()), Some(pma_bytes()), 3, 25), Ok(()));
    assert_eq!(_get_balance(&st, 1, USER), Ok(1_000_025));
}

#[test]
fn deposits_need_a_whitelisted_user_and_a_chain() {
    let mut st = ready_state();
    assert_eq!(_deposit_prepare(&mut st, 1, PMA), Err(PythiaError::UserIsNotWhitelisted));
    assert_eq!(_deposit_prepare(&mut st, 2, USER), Err(PythiaError::ChainDoesNotExist));
    assert_eq!(_get_balance(&st, 2, USER), Ok(0));
}

#[test]
fn withdrawal_queues_balance_less_gas() {
    let mut st = ready_state();
    let id = subscribe(&mut st, "set(uint256)");
    let amount = _withdraw_settle(&mut st, 1, USER, PMA, 10).unwrap();
    assert_eq!(amount, 1_000_000 - 28_900 * 10);
    assert_eq!(_get_balance(&st, 1, USER), Ok(0));
    assert!(!st.subscriptions.get(1, id).unwrap().status.is_active);
    let reqs = &st.withdraw_requests.0[0].1;
    assert_eq!(reqs.len(), 1);
    assert_eq!(reqs[0].amount, amount);
    assert_eq!(reqs[0].receiver, PMA);
    assert_eq!(_withdraw_settle(&mut st, 1, USER, PMA, 10), Err(PythiaError::UnableToGetValueForWithdraw));
}

#[test]
fn fee_withdrawal_and_clearing() {
    let mut st = ready_state();
    assert_eq!(_withdraw_fee_value(&st, 1, PMA), Ok(0));
    assert_eq!(_withdraw_fee_value(&st, 3, PMA), Err(PythiaError::UnableToGetBalance));
    assert_eq!(_withdraw_fee_settle(&mut st, 1, USER, 400), Ok(()));
    assert_eq!(_get_balance(&st, 1, USER), Ok(999_600));
    assert_eq!(_clear_balance(&mut st, true, 1, USER_MIXED), Ok(()));
    assert_eq!(_get_balance(&st, 1, USER), Ok(0));
    assert_eq!(_clear_balance(&mut st, true, 1, "0x1"), Err(PythiaError::InvalidAddressFormat));
    assert_eq!(_clear_balance(&mut st, true, 5, USER), Err(PythiaError::UnableToClearBalance));
}

#[test]
fn subscription_checks_and_lifecycle() {
    let mut st = ready_state();
    assert_eq!(_subscribe_checks(&st, PMA, 1), Err(PythiaError::UserIsNotWhitelisted));
    let id = subscribe(&mut st, "set(uint256)");
    assert_eq!(id, 1);
    assert_eq!(_stop_subscription(&mut st, USER, 1, id), Ok(()));
    assert!(!st.subscriptions.get(1, id).unwrap().status.is_active);
    assert_eq!(_stop_subscription(&mut st, USER, 1, 99), Err(PythiaError::UnableToStopSubscription));
    assert_eq!(_start_subscription(&mut st, USER, 1, id), Ok(()));
    assert!(st.subscriptions.get(1, id).unwrap().status.is_active);
    assert_eq!(_stop_subscriptions(&mut st, false), Err(PythiaError::NotAController));
    assert_eq!(_stop_subscriptions(&mut st, true), Ok(()));
    assert!(!st.subscriptions.get(1, id).unwrap().status.is_active);
    assert_eq!(_remove_subscription(&mut st, true, id), Ok(()));
    assert_eq!(st.subscriptions.get(1, id).err(), Some(PythiaError::SubscriptionDoesNotExist));
}

#[test]
fn starting_needs_enough_balance() {
    let mut st = ready_state();
    let id = subscribe(&mut st, "set(uint256)");
    _clear_balance(&mut st, true, 1, USER).unwrap();
    assert_eq!(_start_subscription(&mut st, USER, 1, id), Err(PythiaError::InsufficientBalance));
    assert_eq!(_subscribe_checks(&st, USER, 1), Err(PythiaError::InsufficientBalance));
}

#[test]
fn wallet_limit_refuses_more_subscriptions() {
    let mut st = ready_state();
    st.subs_limit_wallet = 1;
    subscribe(&mut st, "set(uint256)");
    subscribe(&mut st, "set(uint256)");
    assert_eq!(_subscribe_checks(&st, USER, 1), Err(PythiaError::WalletSubscriptionsLimitReached));
    st.subs_limit_total = 0;
    assert_eq!(_subscribe_checks(&st, USER, 1), Err(PythiaError::TotalSubscriptionsLimitReached));
}

#[test]
fn listing_subscriptions_sorted_and_paged() {
    let mut st = ready_state();
    for _ in 0..5 {
        subscribe(&mut st, "set(uint256)");
    }
    let all = get_subscriptions(&st, None, None);
    assert_eq!(all.total_items, 5);
    assert_eq!(all.total_pages, 1);
    let page = get_subscriptions(&st, None, Some(Pagination { page: 2, size: 2 }));
    assert_eq!(page.total_pages, 3);
    assert_eq!(page.items.iter().map(|s| s.id).collect::<Vec<_>>(), vec![3, 4]);
    let filter = GetSubscriptionsFilter { chain_id: Some(1), ids: vec![2, 5], owner: Some(USER_MIXED.into()) };
    let some = get_subscriptions(&st, Some(filter), None);
    assert_eq!(some.items.iter().map(|s| s.id).collect::<Vec<_>>(), vec![2, 5]);
}

fn request(frequency: Option<u64>, price: Option<PriceMutationConditionRequest>) -> SubsribeRequest {
    SubsribeRequest {
        chain_id: 1,
        pair_id: None,
        contract_addr: "0x5615156085DEC243767B19d9C914d4413b42e2CF".into(),
        method_abi: "increment_counter()".into(),
        is_random: false,
        gas_limit: 50_000,
        frequency_condition: frequency,
        price_mutation_cond_req: price,
        msg: String::new(),
        sig: String::new(),
    }
}

fn eth_condition(rate: i64) -> PriceMutationConditionRequest {
    PriceMutationConditionRequest {
        mutation_rate: rate,
        pair_id: "ETH/USD".into(),
        price_mutation_type: PriceMutationType::Both,
    }
}

#[test]
fn subscriptions_take_their_condition_from_the_request() {
    let mut st = ready_state();
    _update_timer_frequency(&mut st, true, 60).unwrap();
    let id = st.subscriptions.add(&mut st.subscriptions_indexer, request(Some(60), None), USER, 60, true, None).unwrap();
    assert_eq!(id, 1);
    let s = st.subscriptions.get(1, 1).unwrap();
    assert_eq!(s.method.name, "increment_counter");
    assert!(matches!(s.method.method_type, MethodType::Empty));
    assert!(matches!(s.method.exec_condition, Some(ExecutionCondition::Frequency(60))));
    assert_eq!(s.method.gas_limit, 50_000);
    assert!(s.status.is_active);

    let both = request(Some(120), Some(eth_condition(5)));
    let id = st.subscriptions.add(&mut st.subscriptions_indexer, both, USER, 60, true, Some(7)).unwrap();
    assert!(matches!(st.subscriptions.get(1, id).unwrap().method.exec_condition, Some(ExecutionCondition::Frequency(120))));

    let id = st.subscriptions.add(&mut st.subscriptions_indexer, request(None, Some(eth_condition(5))), USER, 60, true, Some(1500)).unwrap();
    assert!(matches!(
        st.subscriptions.get(1, id).unwrap().method.exec_condition,
        Some(ExecutionCondition::PriceMutation {
            mutation_rate: 5,
            ref pair_id,
            creation_price: 1500,
            price_mutation_type: PriceMutationType::Both,
        }) if pair_id == "ETH/USD"
    ));
}

#[test]
fn subscriptions_without_a_valid_condition_are_refused() {
    let mut st = ready_state();
    let before = st.subscriptions_indexer.0;
    let add = |st: &mut State, req: SubsribeRequest, rate: Option<u64>| {
        st.subscriptions.add(&mut st.subscriptions_indexer, req, USER, 300, true, rate)
    };
    assert_eq!(add(&mut st, request(None, None), None), Err(PythiaError::ExecConditionIsRequired));
    assert_eq!(
        add(&mut st, request(Some(30), None), None),
        Err(PythiaError::ExecutionConditionError(ExecutionConditionError::FrequencyIsTooLow))
    );
    assert_eq!(
        add(&mut st, request(Some(450), None), None),
        Err(PythiaError::ExecutionConditionError(ExecutionConditionError::FrequencyIsNotMultipliableByTheTimerFrequency {
            frequency: 450,
            timer_frequency: 300,
        }))
    );
    assert_eq!(
        add(&mut st, request(None, Some(eth_condition(100))), Some(1)),
        Err(PythiaError::ExecutionConditionError(ExecutionConditionError::InvalidChangeRate))
    );
    assert_eq!(
        add(&mut st, request(None, Some(eth_condition(10))), None),
        Err(PythiaError::ExecutionConditionError(ExecutionConditionError::PairDoesNotExist))
    );
    assert_eq!(st.subscriptions_indexer.0, before);
    assert!(st.subscriptions.get(1, before + 1).is_err());
}

#[test]
fn a_missing_condition_is_refused_before_the_abi_is_read() {
    let mut st = ready_state();
    let mut req = request(None, None);
    req.method_abi = "increment_counter".into();
    assert_eq!(
        st.subscriptions.add(&mut st.subscriptions_indexer, req, USER, 300, true, None),
        Err(PythiaError::ExecConditionIsRequired)
    );
}

fn update_request(chain_id: u64, id: u64) -> UpdateSubscriptionRequest {
    UpdateSubscriptionRequest {
        chain_id,
        id,
        pair_id: None,
        gas_limit: Some(70_000),
        method_abi: Some("increment_counter".into()),
        contract_addr: None,
        frequency: None,
        is_random: Some(false),
        msg: String::new(),
        sig: String::new(),
    }
}

#[test]
fn updating_a_missing_subscription_is_refused_before_the_abi_is_read() {
    let mut st = ready_state();
    assert_eq!(st.subscriptions.update(&update_request(1, 999), USER, 300), Err(PythiaError::SubscriptionDoesNotExist));
    assert_eq!(st.subscriptions.update(&update_request(77, 1), USER, 300), Err(PythiaError::ChainDoesNotExist));
    let id = st.subscriptions.add(&mut st.subscriptions_indexer, request(Some(300), None), USER, 300, true, None).unwrap();
    assert_eq!(st.subscriptions.update(&update_request(1, id), PMA, 300), Err(PythiaError::SubscriptionDoesNotExist));
    assert_eq!(st.subscriptions.get(1, id).unwrap().method.gas_limit, 50_000);
}
