//! The encoded call of a subscription's method, and the arguments it is called with.
use vstd::prelude::*;

use ic_web3_rs::ethabi::{Function, Token};

use crate::types::asset_data::AssetData;
use crate::types::errors::PythiaError;
use crate::types::subscription::{abi_function_name, function_name};
use crate::utils::multicall_codec::{be_value, lemma_be_value_bound, lemma_pow256_monotone, pow256};
use crate::utils::params::{token_view, ParamToken};

verus! {

/// The plain values of call arguments.
pub open spec fn tokens_view(params: Seq<ParamToken>) -> Seq<(int, Seq<u8>, Seq<char>, u64)> {
    Seq::new(params.len(), |i: int| token_view(params[i]))
}

/// The encoded call of the function that the ABI JSON text `abi` describes with
/// the arguments `params`; `None` where the arguments do not fit its inputs.
pub uninterp spec fn call_input(abi: Seq<char>, params: Seq<(int, Seq<u8>, Seq<char>, u64)>) -> Option<Seq<u8>>;

/// `ethabi::Function::encode_input` of the function that `serde_json` reads from
/// `abi`, with `params` as tokens of the same kinds (numbers widened to 256
/// bits): the selector and the encoded arguments, or `None` where either step
/// fails. The encoding is named, not stated.
#[verifier::external_body]
fn encode_call(abi: &str, params: &Vec<ParamToken>) -> (res: Option<Vec<u8>>)
    ensures
        match res {
            Some(d) => call_input(abi@, tokens_view(params@)) == Some(d@),
            None => call_input(abi@, tokens_view(params@)) is None,
        },
{
    let f: Function = serde_json::from_str(abi).ok()?;
    let tokens: Vec<Token> = params.iter().map(|t| match t {
        ParamToken::Bytes(b) => Token::Bytes(b.clone()),
        ParamToken::FixedBytes(b) => Token::FixedBytes(b.clone()),
        ParamToken::Uint(v) => Token::Uint((*v).into()),
        ParamToken::Int(v) => Token::Int((*v).into()),
        ParamToken::String(s) => Token::String(s.clone()),
    }).collect();
    f.encode_input(&tokens).ok()
}

/// The encoded call of the method whose ABI JSON text is `abi`, with `params`. An
/// ABI text that does not describe a function is refused with
/// `InvalidContractABI`; arguments that do not fit its inputs with
/// `UnableToEncodeCall`.
pub fn call_data(abi: &str, params: &Vec<ParamToken>) -> (res: Result<Vec<u8>, PythiaError>)
    ensures
        abi_function_name(abi@) is None ==> res == Err::<Vec<u8>, PythiaError>(PythiaError::InvalidContractABI),
        abi_function_name(abi@) is Some ==> match call_input(abi@, tokens_view(params@)) {
            Some(d) => res matches Ok(r) && r@ == d,
            None => res == Err::<Vec<u8>, PythiaError>(PythiaError::UnableToEncodeCall),
        },
{
    if function_name(abi).is_none() {
        return Err(PythiaError::InvalidContractABI);
    }
    match encode_call(abi, params) {
        Some(d) => Ok(d),
        None => Err(PythiaError::UnableToEncodeCall),
    }
}

/// The arguments a pair's method is called with, from the pair's price feed: its
/// symbol, rate, decimals (none counts as zero) and time. Other feeds are refused
/// with `UnsupportedAssetDataType`.
pub fn price_inputs(data: AssetData) -> (res: Result<Vec<ParamToken>, PythiaError>)
    ensures
        match data {
            AssetData::DefaultPriceFeed { symbol, rate, decimals, timestamp } => res matches Ok(v) && tokens_view(v@)
                == seq![(4int, Seq::<u8>::empty(), symbol@, 0u64), (2int, Seq::<u8>::empty(), Seq::<char>::empty(), rate),
                    (2int, Seq::<u8>::empty(), Seq::<char>::empty(), decimals),
                    (2int, Seq::<u8>::empty(), Seq::<char>::empty(), timestamp)],
            AssetData::CustomPriceFeed { symbol, rate, decimals, timestamp } => res matches Ok(v) && tokens_view(v@)
                == seq![(4int, Seq::<u8>::empty(), symbol@, 0u64), (2int, Seq::<u8>::empty(), Seq::<char>::empty(), rate),
                    (2int, Seq::<u8>::empty(), Seq::<char>::empty(), if let Some(d) = decimals { d } else { 0u64 }),
                    (2int, Seq::<u8>::empty(), Seq::<char>::empty(), timestamp)],
            _ => res == Err::<Vec<ParamToken>, PythiaError>(PythiaError::UnsupportedAssetDataType),
        },
{
    let (symbol, rate, decimals, timestamp) = match data {
        AssetData::DefaultPriceFeed { symbol, rate, decimals, timestamp } => (symbol, rate, decimals, timestamp),
        AssetData::CustomPriceFeed { symbol, rate, decimals, timestamp } => {
            let d = match decimals {
                Some(d) => d,
                None => 0,
            };
            (symbol, rate, d, timestamp)
        },
        _ => { return Err(PythiaError::UnsupportedAssetDataType); },
    };
    let v = vec![ParamToken::String(symbol), ParamToken::Uint(rate), ParamToken::Uint(decimals), ParamToken::Uint(timestamp)];
    assert(tokens_view(v@) =~= seq![(4int, Seq::<u8>::empty(), v@[0]->String_0@, 0u64),
        (2int, Seq::<u8>::empty(), Seq::<char>::empty(), rate),
        (2int, Seq::<u8>::empty(), Seq::<char>::empty(), decimals),
        (2int, Seq::<u8>::empty(), Seq::<char>::empty(), timestamp)]);
    Ok(v)
}

/// The 8 bytes a random value is read from: the first 8 of `raw`, padded with
/// zeros where there are fewer.
pub open spec fn word_bytes(raw: Seq<u8>) -> Seq<u8> {
    Seq::new(8, |i: int| if i < raw.len() { raw[i] } else { 0u8 })
}

/// The random value of a subscription's call, read from the random bytes `raw`:
/// the big-endian number of their first 8 bytes, padded with zeros.
pub fn random_word(raw: &Vec<u8>) -> (res: u64)
    ensures
        res == be_value(word_bytes(raw@)),
{
    let ghost w = word_bytes(raw@);
    proof {
        assert(pow256(8) == 0x1_0000_0000_0000_0000nat) by {
            reveal_with_fuel(pow256, 9);
        }
    }
    let mut acc: u64 = 0;
    let mut i: usize = 0;
    while i < 8
        invariant
            i <= 8,
            w == word_bytes(raw@),
            pow256(8) == 0x1_0000_0000_0000_0000nat,
            acc == be_value(w.subrange(0, i as int)),
        decreases 8 - i,
    {
        let b: u8 = if i < raw.len() { raw[i] } else { 0 };
        let ghost next = w.subrange(0, i + 1);
        proof {
            assert(next.drop_last() =~= w.subrange(0, i as int));
            assert(next.last() == b);
            lemma_be_value_bound(next);
            lemma_pow256_monotone(next.len(), 8);
        }
        acc = acc * 256 + b as u64;
        i = i + 1;
    }
    proof {
        assert(w.subrange(0, 8) =~= w);
    }
    acc
}

} // verus!
