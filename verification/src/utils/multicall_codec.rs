//! The calls to the multicall contract's `multicall` function, and what it reports.
use vstd::prelude::*;

use ic_web3_rs::ethabi::{Contract, Token};
use ic_web3_rs::types::{H160, U256};

use crate::jobs::publisher::MulticallResult;
use crate::types::errors::PythiaError;
use crate::utils::multicall::Call;

verus! {

/// The ABI of the multicall contract: `multicall` runs calls, each with its own
/// gas limit, and reports for each whether it succeeded and the gas it used;
/// `multitransfer` pays several receivers at once.
pub const MULTICALL_ABI: &'static str = "[
{\"inputs\":[{\"components\":[{\"internalType\":\"address\",\"name\":\"target\",\"type\":\"address\"},{\"internalType\":\"bytes\",\"name\":\"callData\",\"type\":\"bytes\"},{\"internalType\":\"uint256\",\"name\":\"gasLimit\",\"type\":\"uint256\"}],\"internalType\":\"struct Multicall.Call[]\",\"name\":\"calls\",\"type\":\"tuple[]\"}],
 \"name\":\"multicall\",
 \"outputs\":[{\"components\":[{\"internalType\":\"bool\",\"name\":\"success\",\"type\":\"bool\"},{\"internalType\":\"uint256\",\"name\":\"usedGas\",\"type\":\"uint256\"},{\"internalType\":\"bytes\",\"name\":\"returnData\",\"type\":\"bytes\"}],\"internalType\":\"struct Multicall.Result[]\",\"name\":\"\",\"type\":\"tuple[]\"}],
 \"stateMutability\":\"nonpayable\",\"type\":\"function\"},
{\"inputs\":[{\"components\":[{\"internalType\":\"address\",\"name\":\"target\",\"type\":\"address\"},{\"internalType\":\"uint256\",\"name\":\"value\",\"type\":\"uint256\"}],\"internalType\":\"struct Multicall.Transfer[]\",\"name\":\"transfers\",\"type\":\"tuple[]\"}],
 \"name\":\"multitransfer\",\"outputs\":[],\"stateMutability\":\"payable\",\"type\":\"function\"}
]";

/// The name of the contract function that runs a batch of calls.
pub const MULTICALL_CALL_FUNCTION: &'static str = "multicall";

/// What the multicall contract reports of one call, as decoded: whether it
/// succeeded, the gas it used as 32 big-endian bytes, and what it returned.
pub struct RawMulticallItem {
    pub success: bool,
    pub used_gas: Vec<u8>,
    pub return_data: Vec<u8>,
}

/// The plain values of decoded items.
pub open spec fn items_view(items: Seq<RawMulticallItem>) -> Seq<(bool, Seq<u8>, Seq<u8>)> {
    Seq::new(items.len(), |i: int| (items[i].success, items[i].used_gas@, items[i].return_data@))
}

/// The plain values of decoded items, if there are any.
pub open spec fn opt_items_view(items: Option<Vec<RawMulticallItem>>) -> Option<Seq<(bool, Seq<u8>, Seq<u8>)>> {
    match items {
        Some(v) => Some(items_view(v@)),
        None => None,
    }
}

/// The plain values of calls: the contract, the encoded call, the gas limit.
pub open spec fn calls_view(calls: Seq<Call>) -> Seq<(Seq<u8>, Seq<u8>, u128)> {
    Seq::new(calls.len(), |i: int| (calls[i].target@, calls[i].call_data@, calls[i].gas_limit))
}

/// What the `multicall` function's output `raw` decodes to, per call (success,
/// used gas as 32 big-endian bytes, return data); `None` where it does not decode.
pub uninterp spec fn multicall_outputs(raw: Seq<u8>) -> Option<Seq<(bool, Seq<u8>, Seq<u8>)>>;

/// The input of a call of the `multicall` function with `calls`, each a contract,
/// an encoded call and a gas limit; `None` where it cannot be encoded.
pub uninterp spec fn multicall_input(calls: Seq<(Seq<u8>, Seq<u8>, u128)>) -> Option<Seq<u8>>;

/// `ethabi::Function::decode_output` of the multicall contract's `multicall`
/// function on `raw`, its single output taken as an array of tuples of a bool,
/// an unsigned number and bytes, the number written as 32 big-endian bytes. The
/// decoding is named, not stated; the number always takes 32 bytes.
#[verifier::external_body]
fn decode_multicall_outputs(raw: &Vec<u8>) -> (res: Option<Vec<RawMulticallItem>>)
    ensures
        opt_items_view(res) == multicall_outputs(raw@),
        res matches Some(v) ==> forall|i: int| 0 <= i < v@.len() ==> (#[trigger] v@[i]).used_gas@.len() == 32,
{
    let out = Contract::load(MULTICALL_ABI.as_bytes()).ok()?.function(MULTICALL_CALL_FUNCTION).ok()?.decode_output(raw).ok()?;
    out.first()?.clone().into_array()?.into_iter().map(|t| match t {
        Token::Tuple(f) => match f.as_slice() {
            [Token::Bool(s), Token::Uint(g), Token::Bytes(d)] => {
                let mut b = vec![0u8; 32];
                g.to_big_endian(&mut b);
                Some(RawMulticallItem { success: *s, used_gas: b, return_data: d.clone() })
            },
            _ => None,
        },
        _ => None,
    }).collect()
}

/// `ethabi::Function::encode_input` of the multicall contract's `multicall`
/// function with one array argument: a tuple of an address, bytes and an
/// unsigned number per call. The encoding is named, not stated.
#[verifier::external_body]
fn encode_multicall_input(calls: &Vec<Call>) -> (res: Option<Vec<u8>>)
    ensures
        match res {
            Some(d) => multicall_input(calls_view(calls@)) == Some(d@),
            None => multicall_input(calls_view(calls@)) is None,
        },
{
    let params: Vec<Token> = calls.iter().map(|c| Token::Tuple(vec![
        Token::Address(H160::from(c.target)), Token::Bytes(c.call_data.clone()), Token::Uint(U256::from(c.gas_limit)),
    ])).collect();
    let f = Contract::load(MULTICALL_ABI.as_bytes()).ok()?.function(MULTICALL_CALL_FUNCTION).ok()?.clone();
    f.encode_input(&[Token::Array(params)]).ok()
}

/// The input of the `multicall` function that runs `batch`.
pub fn multicall_call_data(batch: &Vec<Call>) -> (res: Result<Vec<u8>, PythiaError>)
    ensures
        match multicall_input(calls_view(batch@)) {
            Some(d) => res matches Ok(r) && r@ == d,
            None => res == Err::<Vec<u8>, PythiaError>(PythiaError::UnableToFormCallData),
        },
{
    match encode_multicall_input(batch) {
        Some(d) => Ok(d),
        None => Err(PythiaError::UnableToFormCallData),
    }
}

/// `256` to the power `n`.
pub open spec fn pow256(n: nat) -> nat
    decreases n,
{
    if n == 0 { 1 } else { 256 * pow256((n - 1) as nat) }
}

/// The number that the big-endian bytes `b` write.
pub open spec fn be_value(b: Seq<u8>) -> nat
    decreases b.len(),
{
    if b.len() == 0 { 0 } else { be_value(b.drop_last()) * 256 + b.last() as nat }
}

/// A used gas, 32 big-endian bytes, fits in 128 bits: its first 16 bytes are zero.
pub open spec fn gas_fits(g: Seq<u8>) -> bool {
    forall|j: int| 0 <= j < 16 ==> g[j] == 0
}

/// The value of a used gas that fits in 128 bits: what its last 16 bytes write.
pub open spec fn gas_value(g: Seq<u8>) -> nat {
    be_value(g.subrange(16, 32))
}

pub proof fn lemma_be_value_bound(b: Seq<u8>)
    ensures
        be_value(b) < pow256(b.len()),
    decreases b.len(),
{
    if b.len() > 0 {
        let p = b.drop_last();
        lemma_be_value_bound(p);
        let v = be_value(p);
        let q = pow256(p.len());
        let l = b.last();
        assert(v * 256 + l < q * 256) by (nonlinear_arith)
            requires v < q, l < 256;
    }
}

pub proof fn lemma_pow256_monotone(a: nat, b: nat)
    requires
        a <= b,
    ensures
        pow256(a) <= pow256(b),
    decreases b - a,
{
    if a < b {
        lemma_pow256_monotone(a, (b - 1) as nat);
    }
}

/// The used gas `g`, 32 big-endian bytes, as a 128-bit number, where it fits.
fn gas_u128(g: &Vec<u8>) -> (res: Option<u128>)
    requires
        g@.len() == 32,
    ensures
        gas_fits(g@) ==> res == Some(gas_value(g@) as u128) && gas_value(g@) <= u128::MAX,
        !gas_fits(g@) ==> res is None,
{
    let mut i: usize = 0;
    while i < 16
        invariant
            g@.len() == 32,
            i <= 16,
            forall|j: int| 0 <= j < i ==> g@[j] == 0,
        decreases 16 - i,
    {
        if g[i] != 0 {
            return None;
        }
        i = i + 1;
    }
    proof {
        assert(pow256(16) == 0x1_0000_0000_0000_0000_0000_0000_0000_0000nat) by {
            reveal_with_fuel(pow256, 17);
        }
    }
    let mut acc: u128 = 0;
    while i < 32
        invariant
            g@.len() == 32,
            16 <= i <= 32,
            gas_fits(g@),
            pow256(16) == 0x1_0000_0000_0000_0000_0000_0000_0000_0000nat,
            acc == be_value(g@.subrange(16, i as int)),
        decreases 32 - i,
    {
        let ghost next = g@.subrange(16, i + 1);
        proof {
            assert(next.drop_last() =~= g@.subrange(16, i as int));
            lemma_be_value_bound(next);
            lemma_pow256_monotone(next.len(), 16);
        }
        acc = acc * 256 + g[i] as u128;
        i = i + 1;
    }
    proof {
        lemma_be_value_bound(g@.subrange(16, 32));
    }
    Some(acc)
}

/// Some used gas among `items` does not fit in 128 bits.
pub open spec fn gas_refused(items: Seq<(bool, Seq<u8>, Seq<u8>)>) -> bool {
    exists|i: int| 0 <= i < items.len() && !gas_fits(#[trigger] items[i].1)
}

/// `results` say, in order, what `items` say.
pub open spec fn results_of(results: Seq<MulticallResult>, items: Seq<(bool, Seq<u8>, Seq<u8>)>) -> bool {
    &&& results.len() == items.len()
    &&& forall|i: int| 0 <= i < items.len() ==> {
        &&& (#[trigger] results[i]).success == items[i].0
        &&& results[i].used_gas == gas_value(items[i].1)
        &&& results[i].return_data@ == items[i].2
    }
}

/// What the multicall contract reports of each call, in order, from the raw
/// output `raw` of its `multicall` function. An output that does not decode is
/// refused with `UnableToDecodeOutputs`; a used gas that does not fit in 128
/// bits with `InvalidMulticallResult`.
pub fn multicall_results(raw: &Vec<u8>) -> (res: Result<Vec<MulticallResult>, PythiaError>)
    ensures
        multicall_outputs(raw@) is None ==> res == Err::<Vec<MulticallResult>, PythiaError>(PythiaError::UnableToDecodeOutputs),
        multicall_outputs(raw@) is Some && gas_refused(multicall_outputs(raw@)->0)
            ==> res == Err::<Vec<MulticallResult>, PythiaError>(PythiaError::InvalidMulticallResult),
        multicall_outputs(raw@) is Some && !gas_refused(multicall_outputs(raw@)->0)
            ==> (res matches Ok(v) && results_of(v@, multicall_outputs(raw@)->0)),
{
    let items = match decode_multicall_outputs(raw) {
        Some(v) => v,
        None => { return Err(PythiaError::UnableToDecodeOutputs); },
    };
    let ghost iv = items_view(items@);
    let mut res: Vec<MulticallResult> = Vec::new();
    let mut i: usize = 0;
    while i < items.len()
        invariant
            i <= items@.len(),
            iv == items_view(items@),
            multicall_outputs(raw@) == Some(iv),
            forall|k: int| 0 <= k < items@.len() ==> (#[trigger] items@[k]).used_gas@.len() == 32,
            forall|k: int| 0 <= k < i ==> gas_fits(#[trigger] iv[k].1),
            res@.len() == i,
            forall|k: int| 0 <= k < i ==> {
                &&& (#[trigger] res@[k]).success == iv[k].0
                &&& res@[k].used_gas == gas_value(iv[k].1)
                &&& res@[k].return_data@ == iv[k].2
            },
        decreases items@.len() - i,
    {
        let it = &items[i];
        assert(iv[i as int].1 == it.used_gas@);
        let used_gas = match gas_u128(&it.used_gas) {
            Some(g) => g,
            None => {
                assert(iv.len() == items@.len());
                assert(!gas_fits(iv[i as int].1));
                assert(gas_refused(iv));
                return Err(PythiaError::InvalidMulticallResult);
            },
        };
        res.push(MulticallResult { success: it.success, used_gas, return_data: it.return_data.clone() });
        i = i + 1;
    }
    Ok(res)
}

} // verus!
