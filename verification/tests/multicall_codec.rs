use ic_web3_rs::ethabi::{decode, encode, short_signature, ParamType, Token};
use ic_web3_rs::types::{H160, U256};
use pythia::types::asset_data::AssetData;
use pythia::types::errors::PythiaError;
use pythia::utils::call_data::{call_data, price_inputs, random_word};
use pythia::utils::params::ParamToken;
use pythia::utils::multicall::Call;
use pythia::utils::multicall_codec::{multicall_call_data, multicall_results};

fn result_token(success: bool, used_gas: U256, data: Vec<u8>) -> Token {
    Token::Tuple(vec![Token::Bool(success), Token::Uint(used_gas), Token::Bytes(data)])
}

#[test]
fn multicall_output_is_read_call_by_call() {
    let raw = encode(&[Token::Array(vec![
        result_token(true, U256::from(50_000u64), vec![1, 2, 3]),
        result_token(false, U256::from(u128::MAX), vec![]),
    ])]);
    let results = multicall_results(&raw).unwrap();
    assert_eq!(results.len(), 2);
    assert!(results[0].success);
    assert_eq!(results[0].used_gas, 50_000);
    assert_eq!(results[0].return_data, vec![1, 2, 3]);
    assert!(!results[1].success);
    assert_eq!(results[1].used_gas, u128::MAX);
    assert!(results[1].return_data.is_empty());
}

#[test]
fn multicall_output_that_does_not_decode_is_refused() {
    assert!(matches!(multicall_results(&vec![1, 2, 3]), Err(PythiaError::UnableToDecodeOutputs)));
}

#[test]
fn multicall_gas_beyond_128_bits_is_refused() {
    let big = U256::from(u128::MAX) + U256::from(1u64);
    let raw = encode(&[Token::Array(vec![result_token(true, U256::from(7u64), vec![]), result_token(true, big, vec![])])]);
    assert!(matches!(multicall_results(&raw), Err(PythiaError::InvalidMulticallResult)));
}

#[test]
fn multicall_input_encodes_the_calls() {
    let call = Call { target: [0x11; 20], call_data: vec![0xab, 0xcd], gas_limit: 90_000 };
    let data = multicall_call_data(&vec![call]).unwrap();
    let kind = ParamType::Array(Box::new(ParamType::Tuple(vec![ParamType::Address, ParamType::Bytes, ParamType::Uint(256)])));
    assert_eq!(&data[..4], &short_signature("multicall", &[kind.clone()])[..]);
    let tokens = decode(&[kind], &data[4..]).unwrap();
    assert_eq!(
        tokens,
        vec![Token::Array(vec![Token::Tuple(vec![
            Token::Address(H160::from([0x11; 20])),
            Token::Bytes(vec![0xab, 0xcd]),
            Token::Uint(U256::from(90_000u64)),
        ])])]
    );
}

#[test]
fn a_method_call_is_encoded_from_its_abi() {
    let (abi, _) = pythia::utils::abi::resolve_abi("set(uint256)".into(), None, true).unwrap();
    let data = call_data(&abi, &vec![ParamToken::Uint(5)]).unwrap();
    assert_eq!(&data[..4], &short_signature("set", &[ParamType::Uint(256)])[..]);
    assert_eq!(decode(&[ParamType::Uint(256)], &data[4..]).unwrap(), vec![Token::Uint(U256::from(5u64))]);
    assert_eq!(call_data("not an abi", &vec![]), Err(PythiaError::InvalidContractABI));
    assert_eq!(call_data(&abi, &vec![ParamToken::String("x".into())]), Err(PythiaError::UnableToEncodeCall));
}

#[test]
fn price_feeds_give_the_pair_inputs() {
    let data = AssetData::CustomPriceFeed { symbol: "ETH/USD".into(), rate: 2000, decimals: None, timestamp: 77 };
    let v = price_inputs(data).unwrap();
    assert_eq!(v.len(), 4);
    assert!(matches!(&v[0], ParamToken::String(s) if s == "ETH/USD"));
    assert!(matches!(v[1], ParamToken::Uint(2000)));
    assert!(matches!(v[2], ParamToken::Uint(0)));
    assert!(matches!(v[3], ParamToken::Uint(77)));
    let other = AssetData::CustomString { id: "a".into(), value: "b".into() };
    assert!(matches!(price_inputs(other), Err(PythiaError::UnsupportedAssetDataType)));
}

#[test]
fn random_words_are_big_endian_and_padded() {
    assert_eq!(random_word(&vec![1, 2, 3, 4, 5, 6, 7, 8, 9]), 0x0102030405060708);
    assert_eq!(random_word(&vec![0xff]), 0xff00000000000000);
    assert_eq!(random_word(&vec![]), 0);
}
