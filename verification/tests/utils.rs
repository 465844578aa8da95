use pythia::methods::signatures::{
    complete_signature, eip191_message, personal_sign_data, sign_message_allowed, siwe_message, siwe_nonce,
    issued_at, siwe_recover, siwe_sign_request, verify_signed_message,
};
use pythia::migrations::{active_subscriptions_per_chain, fill_multicall_contracts, OldMethodType, OldMetrics};
use pythia::types::asset_data::{price_of, AssetData, AssetDataResult, RateDataLight};
use pythia::types::chains::{Chain, Chains};
use pythia::types::errors::PythiaError;
use pythia::types::methods::MethodType;
use pythia::types::subs::{estimated_gas_limit, is_valid_func_param};
use pythia::utils::abi::resolve_abi;
use pythia::utils::address::{eip55, normalize};
use pythia::utils::canister::{fee_for, fee_pair_id};
use pythia::utils::metrics::Metric;
use pythia::utils::params::{cast_to_param_type, ParamToken};
use pythia::utils::processors::{is_processable, raw_tx_execution_transform_processor, JsonValue, RawTxExecutionTransformProcessor};
use pythia::utils::signature::{get_eth_v, split_recovery_byte, SignatureError};
use pythia::utils::text::{decimal_string, parse_u64};
use pythia::utils::validator::subscription_frequency;
use pythia::utils::web3::{check_receipt, check_success, transfer_all_value};

#[test]
fn decimal_numerals() {
    assert_eq!(decimal_string(0), "0");
    assert_eq!(decimal_string(7), "7");
    assert_eq!(decimal_string(1_000_000_007), "1000000007");
    assert_eq!(decimal_string(u128::MAX), u128::MAX.to_string());
}

#[test]
fn decimal_numerals_read_back() {
    assert_eq!(parse_u64("0"), Some(0));
    assert_eq!(parse_u64(&decimal_string(987654321)), Some(987654321));
    assert_eq!(parse_u64("18446744073709551615"), Some(u64::MAX));
    assert_eq!(parse_u64("18446744073709551616"), None);
    assert_eq!(parse_u64(""), None);
    assert_eq!(parse_u64("12a"), None);
    assert_eq!(parse_u64("-1"), None);
}

#[test]
fn readme_method_without_inputs() {
    let (abi, t) = resolve_abi("increment_counter()".into(), None, false).unwrap();
    assert_eq!(
        abi,
        "{\"inputs\":[],\"name\":\"increment_counter\",\"outputs\":[],\"stateMutability\":\"nonpayable\",\"type\":\"function\"}"
    );
    assert!(matches!(t, MethodType::Empty));
}

#[test]
fn addresses_normalize_to_lower_case() {
    let n = normalize("0x5AAEB6053F3E94C9B9A09F33669435E7EF1BEAED").unwrap();
    assert_eq!(n, "0x5aaeb6053f3e94c9b9a09f33669435e7ef1beaed");
    assert_eq!(normalize(&n).unwrap(), n);
    assert_eq!(normalize("0x5aaeb6053f3e94c9b9a09f33669435e7ef1bea"), Err(PythiaError::InvalidAddressFormat));
}

#[test]
fn checksum_addresses() {
    let c = eip55("0x5aaeb6053f3e94c9b9a09f33669435e7ef1beaed".to_string()).unwrap();
    assert_eq!(c, "0x5aAeb6053F3E94C9b9A09f33669435E7Ef1BeAed");
    assert_eq!(eip55("zz".to_string()), Err(PythiaError::InvalidAddressFormat));
}

#[test]
fn checksum_text_denotes_the_same_address() {
    let a = "0xfb6916095ca1df60bb79ce92ce3ea74c37c5d359";
    let c = eip55(a.to_string()).unwrap();
    assert_eq!(c, "0xfB6916095ca1df60bB79Ce92cE3Ea74c37c5d359");
    assert_eq!(normalize(&c).unwrap(), a);
}

#[test]
fn abi_of_a_random_method() {
    let (abi, t) = resolve_abi("set(uint256)".into(), None, true).unwrap();
    assert_eq!(
        abi,
        "{\"inputs\":[{\"internalType\":\"uint256\",\"name\":\"template\",\"type\":\"uint256\"}],\"name\":\"set\",\"outputs\":[],\"stateMutability\":\"nonpayable\",\"type\":\"function\"}"
    );
    assert!(matches!(t, MethodType::Random(ref p) if p == "uint256"));
    assert_eq!(resolve_abi("set(address)".into(), None, true).err(), Some(PythiaError::InvalidABIParameterTypes));
}

#[test]
fn supported_param_types() {
    assert!(is_valid_func_param("uint8"));
    assert!(is_valid_func_param("bytes32"));
    assert!(!is_valid_func_param("address"));
    assert_eq!(estimated_gas_limit(100), 120);
}

#[test]
fn random_values_take_the_param_type() {
    match cast_to_param_type(258, "bytes") {
        Some(ParamToken::Bytes(b)) => assert_eq!(b, 258u64.to_le_bytes().to_vec()),
        _ => panic!("bytes expected"),
    }
    assert!(matches!(cast_to_param_type(1, "bytes32"), Some(ParamToken::FixedBytes(_))));
    assert!(matches!(cast_to_param_type(9, "uint256"), Some(ParamToken::Uint(9))));
    assert!(matches!(cast_to_param_type(9, "int64"), Some(ParamToken::Int(9))));
    match cast_to_param_type(42, "string") {
        Some(ParamToken::String(s)) => assert_eq!(s, "42"),
        _ => panic!("string expected"),
    }
    assert!(cast_to_param_type(1, "address").is_none());
}

#[test]
fn frequency_rules() {
    assert_eq!(subscription_frequency(30, 300), Err(PythiaError::SubscriptionFrequencyIsTooLow));
    assert_eq!(subscription_frequency(120, 300), Err(PythiaError::TimerFrequencyIsGreaterThanSubscriptionFrequency));
    assert_eq!(subscription_frequency(450, 300), Err(PythiaError::TimerFrequencyIsNotDivisibleBySubscriptionFrequency));
    assert_eq!(subscription_frequency(600, 300), Ok(()));
}

#[test]
fn receipts_and_transfers() {
    assert_eq!(check_receipt(None), Err(PythiaError::TxDoesNotExist));
    assert_eq!(check_receipt(Some(None)), Err(PythiaError::TxNotExecuted));
    assert_eq!(check_receipt(Some(Some(0))), Err(PythiaError::TxHasFailed));
    assert_eq!(check_receipt(Some(Some(1))), Ok(()));
    assert_eq!(check_success(2), Err(PythiaError::TxHasFailed));
    assert_eq!(transfer_all_value(1_000_000, 10), 1_000_000 - 210_000);
}

fn chains_with(symbol: Option<&str>, fee: Option<u128>, multicall: Option<&str>) -> Chains {
    Chains(vec![(
        1,
        Chain {
            chain_id: 1,
            rpc: "https://rpc.example.com/".into(),
            min_balance: 1,
            block_gas_limit: 1,
            fee,
            symbol: symbol.map(|s| s.to_string()),
            multicall_contract: multicall.map(|s| s.to_string()),
        },
    )])
}

#[test]
fn fee_in_the_chain_coin() {
    let chains = chains_with(Some("ETH"), Some(33), None);
    assert_eq!(fee_pair_id(&chains, 1), Ok("ETH/USD".to_string()));
    assert_eq!(fee_pair_id(&chains, 2), Err(PythiaError::ChainDoesNotExist));
    assert_eq!(fee_for(&chains, 1, 2, Some(4_000)), Ok(2 * 1_000_000_000_000_000_000 / 4_000));
    assert_eq!(fee_for(&chains, 1, 2, None), Ok(33));
}

#[test]
fn old_chains_get_the_old_multicall_contract() {
    let mut chains = chains_with(None, None, None);
    fill_multicall_contracts(&mut chains);
    assert_eq!(chains.0[0].1.multicall_contract.as_deref(), Some("0x88e33D0d7f9d130c85687FC73655457204E29467"));
    let mut kept = chains_with(None, None, Some("0xabc"));
    fill_multicall_contracts(&mut kept);
    assert_eq!(kept.0[0].1.multicall_contract.as_deref(), Some("0xabc"));
}

#[test]
fn old_method_types_and_metrics() {
    assert!(matches!(MethodType::from(OldMethodType::Pair("ETH/USD".into())), MethodType::Pair(ref p) if p == "ETH/USD"));
    assert!(matches!(MethodType::from(OldMethodType::Empty), MethodType::Empty));
    let mut m = Metric::new("cycles", "c", "gauge", &[]);
    m.set(4);
    let old = OldMetrics {
        ACTIVE_SUBSCRIPTIONS: None,
        RPC_OUTCALLS: None,
        ECDSA_SIGNS: Some(Metric::new("ecdsa", "e", "counter", &[])),
        SUCCESSFUL_RPC_OUTCALLS: None,
        SYBIL_OUTCALLS: None,
        SUCCESSFUL_SYBIL_OUTCALLS: None,
        CYCLES: Some(m),
    };
    let metrics = old.into_metrics();
    assert_eq!(metrics.CYCLES.get(), 4);
    assert!(metrics.RPC_OUTCALLS.inner.is_empty());
}

#[test]
fn active_subscriptions_are_counted_per_chain() {
    let subs = pythia::types::subscription::Subscriptions(vec![(1, vec![]), (5, vec![])]);
    assert_eq!(active_subscriptions_per_chain(&subs), vec![(1, 0), (5, 0)]);
}

#[test]
fn prices_of_feed_values() {
    assert_eq!(price_of(&AssetData::default()), Ok(0));
    let feed = AssetData::CustomPriceFeed { symbol: "X".into(), rate: 12, decimals: None, timestamp: 1 };
    assert_eq!(price_of(&feed), Ok(12));
    let number = AssetData::CustomNumber { id: "n".into(), value: 3, decimals: 0 };
    assert_eq!(price_of(&number), Err(PythiaError::UnsupportedAssetDataType));
    let r = AssetDataResult::default();
    assert!(r.signature.is_none());
    assert_eq!(RateDataLight::default().rate, 0);
}

#[test]
fn processor_clears_both_indexes() {
    let p = raw_tx_execution_transform_processor();
    assert!(p.transaction_index && p.log_index);
}

#[test]
fn personal_message_text() {
    assert_eq!(eip191_message("hello"), "\x19Ethereum Signed Message:\n5hello");
    assert_eq!(eip191_message("é"), "\x19Ethereum Signed Message:\n2é");
}

#[test]
fn siwe_message_text() {
    let nonce = siwe_nonce(&(0u8..32).collect());
    assert_eq!(nonce, "000102030405060708090a0b0c0d0e0f10");
    let msg = siwe_message("0xAbC", "Hi", 5, &nonce, "2024-01-01T00:00:00.000000000Z");
    assert_eq!(
        msg,
        "Pythia wants you to sign in with your Ethereum account:\n0xAbC\n\nHi\n\nURI: http://localhost:8080\nVersion: 1\nChain ID: 5\nNonce: 000102030405060708090a0b0c0d0e0f10\nIssued At: 2024-01-01T00:00:00.000000000Z"
    );
    assert_eq!(sign_message_allowed(false), Err(PythiaError::NotAController));
}

#[test]
fn recovery_byte_and_foreign_signatures() {
    let (sig, id) = split_recovery_byte(vec![1, 2, 28]);
    assert_eq!(sig, vec![1, 2]);
    assert_eq!(id, 1);
    let signature = vec![1u8; 64];
    let message = vec![2u8; 32];
    assert_eq!(get_eth_v(&signature, &message, &[9u8; 20]), Err(SignatureError::InvalidSignatureFormat));
    assert_eq!(complete_signature(signature, &message, &[9u8; 20]), Err(SignatureError::InvalidSignatureFormat));
}

const SIWE_TEXT: &str = "localhost:4361 wants you to sign in with your Ethereum account:\n0x6Da01670d8fc844e736095918bbE11fE8D564163\n\nSIWE Notepad Example\n\nURI: http://localhost:4361\nVersion: 1\nChain ID: 1\nNonce: kEWepMt9knR6lWJ6A\nIssued At: 2021-12-07T18:28:18.807Z";
const SIWE_SIG: &str = "6228b3ecd7bf2df018183aeab6b6f1db1e9f4e3cbe24560404112e25363540eb679934908143224d746bbb5e1aa65ab435684081f4dbb74a0fec57f98f40f5051c";
const SIWE_SIGNER: &str = "0x6da01670d8fc844e736095918bbe11fe8d564163";

fn hex_of(bytes: &[u8]) -> String {
    bytes.iter().map(|b| format!("{:02x}", b)).collect()
}

#[test]
fn personal_message_digest() {
    assert_eq!(
        hex_of(&personal_sign_data("Hello World")),
        "a1de988600a42c4b4ab089b619297c17d53cffae5d5120d82d8a92d0bb3b78f2"
    );
}

#[test]
fn siwe_signer_is_recovered() {
    let now: u64 = 1_700_000_000_000_000_000;
    assert_eq!(siwe_recover(SIWE_TEXT, SIWE_SIG, now), Ok(SIWE_SIGNER.to_string()));
    let wrong = format!("7{}", &SIWE_SIG[1..]);
    assert_eq!(siwe_recover(SIWE_TEXT, &wrong, now), Err(PythiaError::UnableToRecoverAddress));
    assert_eq!(siwe_recover(SIWE_TEXT, "zz", now), Err(PythiaError::UnableToRecoverAddress));
    assert_eq!(siwe_recover("not a message", SIWE_SIG, now), Err(PythiaError::UnableToRecoverAddress));
}

#[test]
fn own_signatures_are_checked() {
    assert_eq!(verify_signed_message(SIWE_TEXT, SIWE_SIG, SIWE_SIGNER), Ok(()));
    assert_eq!(
        verify_signed_message(SIWE_TEXT, SIWE_SIG, "0x0000000000000000000000000000000000000001"),
        Err("Invalid signature".to_string())
    );
    assert_eq!(verify_signed_message(SIWE_TEXT, "abcd", SIWE_SIGNER), Err("Invalid signature length".to_string()));
    let bad = format!("g{}", &SIWE_SIG[1..]);
    assert_eq!(
        verify_signed_message(SIWE_TEXT, &bad, SIWE_SIGNER),
        Err("Failed to decode hex signature: InvalidHexCharacter { c: 'g', index: 0 }".to_string())
    );
}

#[test]
fn siwe_requests_to_sign() {
    let rand: Vec<u8> = vec![0u8; 32];
    let (text, digest) = siwe_sign_request(
        "0x6Da01670d8fc844e736095918bbE11fE8D564163",
        "Hi",
        1,
        &rand,
        "2021-12-07T18:28:18.807Z",
    )
    .unwrap();
    assert_eq!(
        text,
        "Pythia wants you to sign in with your Ethereum account:\n0x6Da01670d8fc844e736095918bbE11fE8D564163\n\nHi\n\nURI: http://localhost:8080\nVersion: 1\nChain ID: 1\nNonce: 0000000000000000000000000000000000\nIssued At: 2021-12-07T18:28:18.807Z"
    );
    assert_eq!(digest, personal_sign_data(&text));
    assert_eq!(siwe_sign_request("0xnot-an-address", "Hi", 1, &rand, "2021-12-07T18:28:18.807Z"), None);
}

fn text(s: &str) -> JsonValue {
    JsonValue::Str(s.to_string())
}

fn object(fields: Vec<(&str, JsonValue)>) -> JsonValue {
    JsonValue::Object(fields.into_iter().map(|(k, v)| (k.to_string(), v)).collect())
}

fn field_of<'a>(v: &'a JsonValue, key: &str) -> Option<&'a JsonValue> {
    match v {
        JsonValue::Object(fs) => fs.iter().find(|(k, _)| k == key).map(|(_, v)| v),
        _ => None,
    }
}

fn text_of(v: Option<&JsonValue>) -> Option<String> {
    match v {
        Some(JsonValue::Str(s)) => Some(s.clone()),
        _ => None,
    }
}

#[test]
fn reply_indexes_are_cleared() {
    let p = raw_tx_execution_transform_processor();
    let entry = object(vec![("logIndex", text("0x5")), ("data", text("0xab"))]);
    let body = object(vec![("id", JsonValue::Number("1".to_string())), ("result", JsonValue::Array(vec![entry]))]);
    assert!(is_processable(&body));
    let out = p.process_body(body);
    assert!(matches!(field_of(&out, "id"), Some(JsonValue::Number(n)) if n == "1"));
    let entries = match field_of(&out, "result") {
        Some(JsonValue::Array(es)) => es,
        _ => panic!("result should stay an array"),
    };
    assert_eq!(entries.len(), 1);
    assert_eq!(text_of(field_of(&entries[0], "logIndex")), Some("0x0".to_string()));
    assert_eq!(text_of(field_of(&entries[0], "transactionIndex")), Some("0x0".to_string()));
    assert_eq!(text_of(field_of(&entries[0], "data")), Some("0xab".to_string()));
}

#[test]
fn replies_without_an_array_result_stay() {
    let p = RawTxExecutionTransformProcessor { transaction_index: true, log_index: false };
    let body = object(vec![("result", text("0x1"))]);
    assert!(is_processable(&body));
    let out = p.process_body(body);
    assert_eq!(text_of(field_of(&out, "result")), Some("0x1".to_string()));
    assert!(!is_processable(&object(vec![("id", text("1"))])));
    assert!(!is_processable(&object(vec![("result", JsonValue::Array(vec![text("x")]))])));
    assert!(!is_processable(&JsonValue::Null));
}

#[test]
fn issued_at_is_the_utc_text_of_the_whole_seconds() {
    assert_eq!(issued_at(1_638_901_698_807_000_000), "2021-12-07T18:28:18.000000000Z");
    assert_eq!(issued_at(0), "1970-01-01T00:00:00.000000000Z");
    assert_eq!(issued_at(999_999_999), "1970-01-01T00:00:00.000000000Z");
}
