//! Batching contract calls and transfers into multicall transactions.
use vstd::prelude::*;

verus! {

/// Gas that every multicall transaction spends before its calls.
pub const BASE_GAS: u128 = 27_000;

/// Gas that one transfer of a multitransfer spends.
pub const GAS_PER_TRANSFER: u128 = 7_900;

/// Gas that the multicall contract spends on its own work.
pub const GAS_FOR_OPS: u128 = 10_000;

/// One contract call of a multicall: the contract, the encoded call, and the
/// gas it may use.
pub struct Call {
    pub target: [u8; 20],
    pub call_data: Vec<u8>,
    pub gas_limit: u128,
}

/// One transfer of a multitransfer.
pub struct Transfer {
    pub target: [u8; 20],
    pub value: u128,
}

/// The gas limits of the first `k` calls, added up.
pub open spec fn gas_sum(calls: Seq<Call>, k: int) -> int
    decreases k,
{
    if k <= 0 { 0 } else { gas_sum(calls, k - 1) + calls[k - 1].gas_limit }
}

/// Where the first batch of `calls` ends: before the first call whose gas,
/// added to what the batch already counts (`BASE_GAS` plus a thousand), reaches
/// the block gas limit; or after the last call.
pub open spec fn batch_end(calls: Seq<Call>, block_gas_limit: u128) -> int {
    if exists|i: int| 0 <= i < calls.len() && #[trigger] reaches(calls, block_gas_limit, i) {
        choose|i: int| 0 <= i < calls.len() && #[trigger] reaches(calls, block_gas_limit, i)
            && forall|k: int| 0 <= k < i ==> !#[trigger] reaches(calls, block_gas_limit, k)
    } else {
        calls.len() as int
    }
}

/// Counting the calls up to the `i`-th, the batch reaches the block gas limit.
pub open spec fn reaches(calls: Seq<Call>, block_gas_limit: u128, i: int) -> bool {
    BASE_GAS + 1000 + gas_sum(calls, i + 1) >= block_gas_limit
}

proof fn lemma_gas_sum_monotone(calls: Seq<Call>, a: int, b: int)
    requires
        0 <= a <= b,
    ensures
        gas_sum(calls, a) <= gas_sum(calls, b),
    decreases b - a,
{
    if a < b {
        lemma_gas_sum_monotone(calls, a, b - 1);
    }
}

/// Splits `calls` into the batch that fits in one block and the calls left for
/// later.
pub fn get_current_calls_batch(calls: Vec<Call>, block_gas_limit: u128) -> (res: (Vec<Call>, Vec<Call>))
    ensures
        res.0@ == calls@.subrange(0, batch_end(calls@, block_gas_limit)),
        res.1@ == calls@.subrange(batch_end(calls@, block_gas_limit), calls@.len() as int),
{
    let mut counter: u128 = BASE_GAS + 1000;
    let mut i: usize = 0;
    while i < calls.len()
        invariant
            i <= calls@.len(),
            counter == (if BASE_GAS + 1000 + gas_sum(calls@, i as int) <= u128::MAX {
                BASE_GAS + 1000 + gas_sum(calls@, i as int)
            } else {
                u128::MAX as int
            }),
            forall|k: int| 0 <= k < i ==> !#[trigger] reaches(calls@, block_gas_limit, k),
        decreases calls@.len() - i,
    {
        let g = calls[i].gas_limit;
        counter = if counter > u128::MAX - g { u128::MAX } else { counter + g };
        proof {
            lemma_gas_sum_monotone(calls@, i as int, i + 1);
        }
        if counter >= block_gas_limit {
            proof {
                assert(reaches(calls@, block_gas_limit, i as int));
                let e = batch_end(calls@, block_gas_limit);
                assert(forall|k: int| 0 <= k < i ==> !#[trigger] reaches(calls@, block_gas_limit, k));
                if e != i {
                    if e < i {
                        assert(!reaches(calls@, block_gas_limit, e));
                    } else {
                        assert(!reaches(calls@, block_gas_limit, i as int));
                    }
                }
            }
            let mut first = calls;
            let rest = first.split_off(i);
            return (first, rest);
        }
        i = i + 1;
    }
    proof {
        if exists|j: int| 0 <= j < calls@.len() && #[trigger] reaches(calls@, block_gas_limit, j) {
            let j = choose|j: int| 0 <= j < calls@.len() && #[trigger] reaches(calls@, block_gas_limit, j);
            assert(!reaches(calls@, block_gas_limit, j));
        }
        assert(calls@.subrange(0, calls@.len() as int) =~= calls@);
        assert(calls@.subrange(calls@.len() as int, calls@.len() as int) =~= Seq::<Call>::empty());
    }
    (calls, Vec::new())
}

/// The gas of a multicall transaction carrying `batch`, where it fits in 128
/// bits: the base gas, the contract's own gas, and every call's limit.
pub fn batch_gas(batch: &Vec<Call>) -> (res: Option<u128>)
    ensures
        BASE_GAS + GAS_FOR_OPS + gas_sum(batch@, batch@.len() as int) <= u128::MAX
            ==> res == Some((BASE_GAS + GAS_FOR_OPS + gas_sum(batch@, batch@.len() as int)) as u128),
        BASE_GAS + GAS_FOR_OPS + gas_sum(batch@, batch@.len() as int) > u128::MAX ==> res is None,
{
    let mut total: u128 = BASE_GAS + GAS_FOR_OPS;
    let mut i: usize = 0;
    while i < batch.len()
        invariant
            i <= batch@.len(),
            total == BASE_GAS + GAS_FOR_OPS + gas_sum(batch@, i as int),
        decreases batch@.len() - i,
    {
        match total.checked_add(batch[i].gas_limit) {
            Some(t) => { total = t; },
            None => {
                proof {
                    lemma_gas_sum_monotone(batch@, i + 1, batch@.len() as int);
                }
                return None;
            },
        }
        i = i + 1;
    }
    Some(total)
}

/// The most a multicall transaction pays per gas: twice the gas price.
pub fn max_fee_per_gas(gas_price: u128) -> (res: u128)
    requires
        gas_price * 2 <= u128::MAX,
    ensures
        res == gas_price * 2,
{
    gas_price * 2
}

/// The values of the first `k` transfers, added up.
pub open spec fn value_sum(transfers: Seq<Transfer>, k: int) -> int
    decreases k,
{
    if k <= 0 { 0 } else { value_sum(transfers, k - 1) + transfers[k - 1].value }
}

proof fn lemma_value_sum_monotone(transfers: Seq<Transfer>, a: int, b: int)
    requires
        0 <= a <= b,
    ensures
        value_sum(transfers, a) <= value_sum(transfers, b),
    decreases b - a,
{
    if a < b {
        lemma_value_sum_monotone(transfers, a, b - 1);
    }
}

/// What a multitransfer sends in all, where it fits in 128 bits.
pub fn transfers_total(transfers: &Vec<Transfer>) -> (res: Option<u128>)
    ensures
        value_sum(transfers@, transfers@.len() as int) <= u128::MAX
            ==> res == Some(value_sum(transfers@, transfers@.len() as int) as u128),
        value_sum(transfers@, transfers@.len() as int) > u128::MAX ==> res is None,
{
    let mut total: u128 = 0;
    let mut i: usize = 0;
    while i < transfers.len()
        invariant
            i <= transfers@.len(),
            total == value_sum(transfers@, i as int),
        decreases transfers@.len() - i,
    {
        match total.checked_add(transfers[i].value) {
            Some(t) => { total = t; },
            None => {
                proof {
                    lemma_value_sum_monotone(transfers@, i + 1, transfers@.len() as int);
                }
                return None;
            },
        }
        i = i + 1;
    }
    Some(total)
}

/// The value a multitransfer carries: the total to send, less each transfer's
/// share of the estimated gas, counted once, at `gas_price`.
pub fn multitransfer_value(total: u128, gas_limit: u128, n_transfers: usize, gas_price: u128) -> (res: u128)
    requires
        n_transfers >= 1,
        ((gas_limit as int) / (n_transfers as int)) * gas_price <= total,
    ensures
        res == total - ((gas_limit as int) / (n_transfers as int)) * gas_price,
{
    let share = gas_limit / (n_transfers as u128);
    proof {
        assert(share * gas_price <= total);
    }
    total - share * gas_price
}

} // verus!
