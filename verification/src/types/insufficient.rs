//! Stopping the subscriptions whose owners cannot pay for the next round.
use vstd::prelude::*;

use crate::types::balance::{Balances, UserBalanceView};
use crate::types::chains::{ChainView, Chains};
use crate::types::errors::PythiaError;
use crate::types::subscription::{stopped, sub_pairs, Subscription, Subscriptions};
use crate::utils::keyed::{keys_unique, lemma_to_map, to_map};
use crate::utils::text::str_eq;

verus! {

/// How many subscriptions at the front of `subs` belong to `owner`.
pub open spec fn run_len(subs: Seq<Subscription>, owner: Seq<char>) -> nat
    decreases subs.len(),
{
    if subs.len() == 0 || subs[0].owner@ != owner {
        0
    } else {
        1 + run_len(subs.drop_first(), owner)
    }
}

/// What a group of subscriptions costs for one round: each one's gas limit at
/// `gas_price`, plus `fee`.
pub open spec fn group_need(g: Seq<Subscription>, gas_price: u128, fee: u128) -> int
    decreases g.len(),
{
    if g.len() == 0 {
        0
    } else {
        group_need(g.drop_last(), gas_price, fee) + g.last().method.gas_limit * gas_price + fee
    }
}

/// The group, stopped.
pub open spec fn stop_group(g: Seq<Subscription>) -> Seq<Subscription> {
    g.map_values(|s: Subscription| stopped(s))
}

/// One chain's subscriptions after the check, group by group: a group is a run of
/// consecutive subscriptions of one owner, and it is stopped when the owner's balance is
/// below what the group costs plus the chain's minimum balance. A missing balance ends
/// the check with an error; the groups before it stay as checked.
pub open spec fn process_groups(
    subs: Seq<Subscription>,
    c: u64,
    bal: Map<u64, Map<Seq<char>, UserBalanceView>>,
    gas_price: u128,
    fee: u128,
    min_balance: u128,
) -> (Seq<Subscription>, Option<PythiaError>)
    decreases subs.len(),
{
    if subs.len() == 0 {
        (subs, None)
    } else {
        let owner = subs[0].owner@;
        let n = run_len(subs, owner);
        if !bal.contains_key(c) {
            (subs, Some(PythiaError::ChainDoesNotExist))
        } else if !bal[c].contains_key(owner) {
            (subs, Some(PythiaError::UnableToGetBalance))
        } else if n == 0 {
            (subs, None)
        } else {
            proof { lemma_run_len_le(subs, owner); }
            let g = subs.take(n as int);
            let g2 = if bal[c][owner].amount < group_need(g, gas_price, fee) + min_balance { stop_group(g) } else { g };
            let r = process_groups(subs.skip(n as int), c, bal, gas_price, fee, min_balance);
            (g2 + r.0, r.1)
        }
    }
}

/// The table after the check: each chain in `checked` is checked with the next gas price
/// and fee (the i-th checked chain in table order takes `gas_prices[i]` and `fees[i]`)
/// and its chain's minimum balance. The first error ends the check; what was checked
/// before it stays.
pub open spec fn process_table(
    t: Seq<(u64, Seq<Subscription>)>,
    checked: Seq<u64>,
    gas_prices: Seq<u128>,
    fees: Seq<u128>,
    chains: Map<u64, ChainView>,
    bal: Map<u64, Map<Seq<char>, UserBalanceView>>,
    i: int,
) -> (Seq<(u64, Seq<Subscription>)>, Option<PythiaError>)
    decreases t.len(),
{
    if t.len() == 0 {
        (t, None)
    } else {
        let c = t[0].0;
        if !checked.contains(c) {
            let r = process_table(t.drop_first(), checked, gas_prices, fees, chains, bal, i);
            (seq![t[0]] + r.0, r.1)
        } else if i < 0 || i >= gas_prices.len() {
            (t, Some(PythiaError::GasPriceNotFound))
        } else if i >= fees.len() {
            (t, Some(PythiaError::FeeNotFound))
        } else if !chains.contains_key(c) {
            (t, Some(PythiaError::ChainDoesNotExist))
        } else {
            let p = process_groups(t[0].1, c, bal, gas_prices[i], fees[i], chains[c].min_balance);
            if p.1 is Some {
                (seq![(c, p.0)] + t.drop_first(), p.1)
            } else {
                let r = process_table(t.drop_first(), checked, gas_prices, fees, chains, bal, i + 1);
                (seq![(c, p.0)] + r.0, r.1)
            }
        }
    }
}

/// A run is no longer than the sequence.
pub proof fn lemma_run_len_le(subs: Seq<Subscription>, owner: Seq<char>)
    ensures
        run_len(subs, owner) <= subs.len(),
    decreases subs.len(),
{
    if subs.len() > 0 {
        lemma_run_len_le(subs.drop_first(), owner);
    }
}

/// A run is as long as the stretch of subscriptions of its owner at the front.
proof fn lemma_run_len(subs: Seq<Subscription>, owner: Seq<char>, n: int)
    requires
        0 <= n <= subs.len(),
        forall|q: int| 0 <= q < n ==> (#[trigger] subs[q]).owner@ == owner,
        n == subs.len() || subs[n].owner@ != owner,
    ensures
        run_len(subs, owner) == n,
    decreases n,
{
    if n > 0 {
        let d = subs.drop_first();
        assert forall|q: int| 0 <= q < n - 1 implies (#[trigger] d[q]).owner@ == owner by {
            assert(d[q] == subs[q + 1]);
        }
        if n < subs.len() {
            assert(d[n - 1] == subs[n]);
        }
        lemma_run_len(d, owner, n - 1);
    }
}

/// What a group costs is never negative.
proof fn lemma_group_need_nonneg(g: Seq<Subscription>, gas_price: u128, fee: u128)
    ensures
        group_need(g, gas_price, fee) >= 0,
    decreases g.len(),
{
    if g.len() > 0 {
        lemma_group_need_nonneg(g.drop_last(), gas_price, fee);
        let x = g.last().method.gas_limit;
        assert(x * gas_price >= 0) by (nonlinear_arith)
            requires x >= 0, gas_price >= 0;
    }
}

/// The gas limits of `g`, added up.
pub open spec fn gas_total(g: Seq<Subscription>) -> int
    decreases g.len(),
{
    if g.len() == 0 { 0 } else { gas_total(g.drop_last()) + g.last().method.gas_limit }
}

proof fn lemma_group_need_formula(g: Seq<Subscription>, gas_price: u128, fee: u128)
    ensures
        group_need(g, gas_price, fee) == gas_total(g) * gas_price + fee * g.len(),
    decreases g.len(),
{
    if g.len() > 0 {
        lemma_group_need_formula(g.drop_last(), gas_price, fee);
        let t = gas_total(g.drop_last());
        let x = g.last().method.gas_limit as int;
        let n = g.len() as int;
        let gp = gas_price as int;
        let fe = fee as int;
        assert(t * gp + fe * (n - 1) + x * gp + fe == (t + x) * gp + fe * n) by (nonlinear_arith);
    }
}

proof fn lemma_gas_total_nonneg(g: Seq<Subscription>)
    ensures
        gas_total(g) >= 0,
    decreases g.len(),
{
    if g.len() > 0 {
        lemma_gas_total_nonneg(g.drop_last());
    }
}

/// The run at the front of `subs` is its stretch of subscriptions of `owner`.
pub proof fn lemma_run_len_stretch(subs: Seq<Subscription>, owner: Seq<char>)
    ensures
        run_len(subs, owner) <= subs.len(),
        forall|q: int| 0 <= q < run_len(subs, owner) ==> (#[trigger] subs[q]).owner@ == owner,
        run_len(subs, owner) < subs.len() ==> subs[run_len(subs, owner) as int].owner@ != owner,
    decreases subs.len(),
{
    if subs.len() > 0 && subs[0].owner@ == owner {
        let d = subs.drop_first();
        lemma_run_len_stretch(d, owner);
        assert forall|q: int| 0 <= q < run_len(subs, owner) implies (#[trigger] subs[q]).owner@ == owner by {
            if q > 0 {
                assert(subs[q] == d[q - 1]);
            }
        }
        if run_len(subs, owner) < subs.len() {
            assert(subs[run_len(subs, owner) as int] == d[run_len(d, owner) as int]);
        }
    }
}

/// Law: the subscriptions of the owner at the front of a chain's list (the run
/// of them there) are stopped exactly when the owner's balance is below what the
/// run costs for a round, each subscription's gas limit at the chain's gas price
/// plus the fee, added to the chain's minimum balance; otherwise they stay as
/// they are. The subscriptions after the run are checked in the same way, run by
/// run.
pub proof fn law_run_stopped_when_owner_cannot_pay(
    subs: Seq<Subscription>,
    c: u64,
    bal: Map<u64, Map<Seq<char>, UserBalanceView>>,
    gas_price: u128,
    fee: u128,
    min_balance: u128,
)
    requires
        subs.len() > 0,
        bal.contains_key(c),
        bal[c].contains_key(subs[0].owner@),
    ensures
        ({
            let o = subs[0].owner@;
            let n = run_len(subs, o) as int;
            let r = process_groups(subs, c, bal, gas_price, fee, min_balance).0;
            let need = gas_total(subs.take(n)) * gas_price + fee * n + min_balance;
            &&& 1 <= n <= subs.len()
            &&& r.len() >= n
            &&& forall|q: int| 0 <= q < n ==> (#[trigger] subs[q]).owner@ == o
            &&& n < subs.len() ==> subs[n].owner@ != o
            &&& forall|q: int| 0 <= q < n ==> #[trigger] r[q] == (if bal[c][o].amount < need { stopped(subs[q]) } else { subs[q] })
            &&& r.subrange(n, r.len() as int) == process_groups(subs.skip(n), c, bal, gas_price, fee, min_balance).0
        }),
{
    let o = subs[0].owner@;
    lemma_run_len_stretch(subs, o);
    assert(run_len(subs, o) >= 1) by {
        reveal_with_fuel(run_len, 2);
    }
    let n = run_len(subs, o) as int;
    let g = subs.take(n);
    lemma_group_need_formula(g, gas_price, fee);
    let r = process_groups(subs, c, bal, gas_price, fee, min_balance);
    let rest = process_groups(subs.skip(n), c, bal, gas_price, fee, min_balance);
    let g2 = if bal[c][o].amount < group_need(g, gas_price, fee) + min_balance { stop_group(g) } else { g };
    assert(r.0 == g2 + rest.0);
    assert(r.0.subrange(n, r.0.len() as int) =~= rest.0);
    assert forall|q: int| 0 <= q < n implies #[trigger] r.0[q]
        == (if bal[c][o].amount < gas_total(g) * gas_price + fee * n + min_balance { stopped(subs[q]) } else { subs[q] }) by {
        assert(r.0[q] == g2[q]);
        assert(g[q] == subs[q]);
    }
}

/// Law: at a higher gas price, every subscription of the front run that was
/// stopped is stopped too: raising the price never lets a run stay active.
pub proof fn law_higher_gas_price_stops_no_fewer(
    subs: Seq<Subscription>,
    c: u64,
    bal: Map<u64, Map<Seq<char>, UserBalanceView>>,
    low: u128,
    high: u128,
    fee: u128,
    min_balance: u128,
)
    requires
        subs.len() > 0,
        bal.contains_key(c),
        bal[c].contains_key(subs[0].owner@),
        low <= high,
    ensures
        forall|q: int| 0 <= q < run_len(subs, subs[0].owner@)
            && #[trigger] process_groups(subs, c, bal, low, fee, min_balance).0[q] == stopped(subs[q])
            ==> process_groups(subs, c, bal, high, fee, min_balance).0[q] == stopped(subs[q]),
{
    let o = subs[0].owner@;
    law_run_stopped_when_owner_cannot_pay(subs, c, bal, low, fee, min_balance);
    law_run_stopped_when_owner_cannot_pay(subs, c, bal, high, fee, min_balance);
    let n = run_len(subs, o) as int;
    let t = gas_total(subs.take(n));
    lemma_gas_total_nonneg(subs.take(n));
    assert(t * low <= t * high) by (nonlinear_arith)
        requires t >= 0, low <= high;
}

/// Law: a chain that is checked alone is checked with its own gas price, fee and
/// minimum balance.
pub proof fn law_checked_chain_uses_its_price(
    c: u64,
    subs: Seq<Subscription>,
    gas_price: u128,
    fee: u128,
    chains: Map<u64, ChainView>,
    bal: Map<u64, Map<Seq<char>, UserBalanceView>>,
)
    requires
        chains.contains_key(c),
    ensures
        ({
            let p = process_groups(subs, c, bal, gas_price, fee, chains[c].min_balance);
            process_table(seq![(c, subs)], seq![c], seq![gas_price], seq![fee], chains, bal, 0) == (seq![(c, p.0)], p.1)
        }),
{
    let t = seq![(c, subs)];
    assert(seq![c][0] == c);
    assert(t.drop_first() =~= Seq::<(u64, Seq<Subscription>)>::empty());
    let p = process_groups(subs, c, bal, gas_price, fee, chains[c].min_balance);
    assert(seq![(c, p.0)] + t.drop_first() =~= seq![(c, p.0)]);
    assert(seq![(c, p.0)] + Seq::<(u64, Seq<Subscription>)>::empty() =~= seq![(c, p.0)]);
    assert(process_table(t.drop_first(), seq![c], seq![gas_price], seq![fee], chains, bal, 1)
        == (t.drop_first(), Option::<PythiaError>::None));
    assert(t[0] == (c, subs));
    assert(seq![c].contains(c));
}

/// Law: checked chains take the gas prices and fees in order: the second checked
/// chain is checked with the second price and fee, after the first chain was
/// checked without error with the first ones; a chain that is not checked is
/// left as it is.
pub proof fn law_checked_chains_take_prices_in_order(
    c1: u64,
    s1: Seq<Subscription>,
    c2: u64,
    s2: Seq<Subscription>,
    skipped: (u64, Seq<Subscription>),
    g1: u128,
    g2: u128,
    f1: u128,
    f2: u128,
    chains: Map<u64, ChainView>,
    bal: Map<u64, Map<Seq<char>, UserBalanceView>>,
)
    requires
        c1 != c2,
        skipped.0 != c1 && skipped.0 != c2,
        chains.contains_key(c1),
        chains.contains_key(c2),
        process_groups(s1, c1, bal, g1, f1, chains[c1].min_balance).1 is None,
    ensures
        ({
            let p1 = process_groups(s1, c1, bal, g1, f1, chains[c1].min_balance);
            let p2 = process_groups(s2, c2, bal, g2, f2, chains[c2].min_balance);
            process_table(seq![(c1, s1), skipped, (c2, s2)], seq![c1, c2], seq![g1, g2], seq![f1, f2], chains, bal, 0)
                == (seq![(c1, p1.0), skipped, (c2, p2.0)], p2.1)
        }),
{
    let checked = seq![c1, c2];
    let gp = seq![g1, g2];
    let fs = seq![f1, f2];
    let t = seq![(c1, s1), skipped, (c2, s2)];
    let t1 = t.drop_first();
    let t2 = t1.drop_first();
    let t3 = t2.drop_first();
    assert(t1 =~= seq![skipped, (c2, s2)]);
    assert(t2 =~= seq![(c2, s2)]);
    assert(t3 =~= Seq::<(u64, Seq<Subscription>)>::empty());
    assert(checked[0] == c1 && checked.contains(c1));
    assert(checked[1] == c2 && checked.contains(c2));
    assert(!checked.contains(skipped.0));
    let p1 = process_groups(s1, c1, bal, g1, f1, chains[c1].min_balance);
    let p2 = process_groups(s2, c2, bal, g2, f2, chains[c2].min_balance);
    assert(process_table(t3, checked, gp, fs, chains, bal, 2) == (t3, Option::<PythiaError>::None));
    let r2 = process_table(t2, checked, gp, fs, chains, bal, 1);
    if p2.1 is Some {
        assert(r2 == (seq![(c2, p2.0)] + t3, p2.1));
    } else {
        assert(r2 == (seq![(c2, p2.0)] + t3, p2.1));
    }
    assert(seq![(c2, p2.0)] + t3 =~= seq![(c2, p2.0)]);
    let r1 = process_table(t1, checked, gp, fs, chains, bal, 1);
    assert(r1 == (seq![skipped] + r2.0, r2.1));
    assert(seq![skipped] + seq![(c2, p2.0)] =~= seq![skipped, (c2, p2.0)]);
    assert(seq![(c1, p1.0)] + seq![skipped, (c2, p2.0)] =~= seq![(c1, p1.0), skipped, (c2, p2.0)]);
}

/// The cost of `subs[p..e]`, or `None` when it does not fit in 128 bits.
fn group_cost(subs: &Vec<Subscription>, p: usize, e: usize, gas_price: u128, fee: u128) -> (res: Option<u128>)
    requires
        p <= e <= subs@.len(),
    ensures
        match res {
            Some(v) => v == group_need(subs@.subrange(p as int, e as int), gas_price, fee),
            None => group_need(subs@.subrange(p as int, e as int), gas_price, fee) > u128::MAX,
        },
{
    let mut acc: u128 = 0;
    let mut q: usize = p;
    while q < e
        invariant
            p <= q <= e <= subs@.len(),
            acc == group_need(subs@.subrange(p as int, q as int), gas_price, fee),
        decreases e - q,
    {
        let ghost g = subs@.subrange(p as int, q + 1);
        assert(g.drop_last() =~= subs@.subrange(p as int, q as int));
        assert(g.last() == subs@[q as int]);
        proof { lemma_group_need_nonneg(g.drop_last(), gas_price, fee); }
        let x = subs[q].method.gas_limit;
        let prod = match x.checked_mul(gas_price) {
            Some(v) => v,
            None => {
                proof { lemma_group_need_rest(subs@, p as int, q as int + 1, e as int, gas_price, fee); }
                return None;
            },
        };
        let s1 = match acc.checked_add(prod) {
            Some(v) => v,
            None => {
                proof { lemma_group_need_rest(subs@, p as int, q as int + 1, e as int, gas_price, fee); }
                return None;
            },
        };
        let s2 = match s1.checked_add(fee) {
            Some(v) => v,
            None => {
                proof { lemma_group_need_rest(subs@, p as int, q as int + 1, e as int, gas_price, fee); }
                return None;
            },
        };
        acc = s2;
        q = q + 1;
    }
    Some(acc)
}

/// The cost of a longer stretch is at least that of a shorter one.
proof fn lemma_group_need_rest(s: Seq<Subscription>, p: int, q: int, e: int, gas_price: u128, fee: u128)
    requires
        0 <= p <= q <= e <= s.len(),
    ensures
        group_need(s.subrange(p, e), gas_price, fee) >= group_need(s.subrange(p, q), gas_price, fee),
    decreases e - q,
{
    if q < e {
        lemma_group_need_rest(s, p, q, e - 1, gas_price, fee);
        let g = s.subrange(p, e);
        assert(g.drop_last() =~= s.subrange(p, e - 1));
        let x = g.last().method.gas_limit;
        assert(x * gas_price >= 0) by (nonlinear_arith)
            requires x >= 0, gas_price >= 0;
    }
}

/// One chain's subscriptions after the check, as `process_groups` says.
fn process_chain(
    subs: &Vec<Subscription>,
    c: u64,
    balances: &Balances,
    gas_price: u128,
    fee: u128,
    min_balance: u128,
) -> (res: (Vec<Subscription>, Option<PythiaError>))
    requires
        balances.wf(),
    ensures
        (res.0@, res.1) == process_groups(subs@, c, balances.view(), gas_price, fee, min_balance),
{
    let ghost bal = balances.view();
    let mut out: Vec<Subscription> = Vec::new();
    let mut p: usize = 0;
    let n = subs.len();
    assert(subs@.skip(0) =~= subs@);
    assert(out@ + process_groups(subs@.skip(0), c, bal, gas_price, fee, min_balance).0
        =~= process_groups(subs@, c, bal, gas_price, fee, min_balance).0);
    while p < n
        invariant
            balances.wf(),
            bal == balances.view(),
            n == subs@.len(),
            p <= n,
            out@ + process_groups(subs@.skip(p as int), c, bal, gas_price, fee, min_balance).0
                == process_groups(subs@, c, bal, gas_price, fee, min_balance).0,
            process_groups(subs@.skip(p as int), c, bal, gas_price, fee, min_balance).1
                == process_groups(subs@, c, bal, gas_price, fee, min_balance).1,
        decreases n - p,
    {
        let ghost rest = subs@.skip(p as int);
        let owner = &subs[p].owner;
        assert(rest[0] == subs@[p as int]);
        let mut e: usize = p + 1;
        while e < n && str_eq(subs[e].owner.as_str(), owner.as_str())
            invariant
                n == subs@.len(),
                p < e <= n,
                owner@ == subs@[p as int].owner@,
                forall|q: int| p <= q < e ==> (#[trigger] subs@[q]).owner@ == subs@[p as int].owner@,
            decreases n - e,
        {
            e = e + 1;
        }
        proof {
            assert forall|q: int| 0 <= q < e - p implies (#[trigger] rest[q]).owner@ == rest[0].owner@ by {
                assert(rest[q] == subs@[p + q]);
            }
            if e < n {
                assert(rest[e - p] == subs@[e as int]);
            }
            lemma_run_len(rest, rest[0].owner@, e - p);
        }
        let amount = match balances.get(c, owner.as_str()) {
            Ok(a) => a,
            Err(e) => {
                let err = match e {
                    PythiaError::ChainDoesNotExist => PythiaError::ChainDoesNotExist,
                    _ => PythiaError::UnableToGetBalance,
                };
                let ghost before_err = out@;
                let mut k: usize = p;
                while k < n
                    invariant
                        n == subs@.len(),
                        p <= k <= n,
                        out@ == before_err + subs@.subrange(p as int, k as int),
                    decreases n - k,
                {
                    out.push(subs[k].clone());
                    assert(out@ =~= before_err + subs@.subrange(p as int, k + 1));
                    k = k + 1;
                }
                assert(subs@.subrange(p as int, n as int) =~= rest);
                return (out, Some(err));
            },
        };
        let cost = group_cost(subs, p, e, gas_price, fee);
        let insufficient = match cost {
            Some(v) => match v.checked_add(min_balance) {
                Some(total) => amount < total,
                None => true,
            },
            None => true,
        };
        assert(rest.take(e - p) =~= subs@.subrange(p as int, e as int));
        let ghost before = out@;
        let mut q: usize = p;
        while q < e
            invariant
                n == subs@.len(),
                p <= q <= e <= n,
                out@ == before + (if insufficient { stop_group(subs@.subrange(p as int, q as int)) } else { subs@.subrange(p as int, q as int) }),
            decreases e - q,
        {
            let mut s = subs[q].clone();
            if insufficient {
                s.status.is_active = false;
            }
            out.push(s);
            assert(out@ =~= before + (if insufficient { stop_group(subs@.subrange(p as int, q + 1)) } else { subs@.subrange(p as int, q + 1) }));
            q = q + 1;
        }
        assert(rest.skip(e - p) =~= subs@.skip(e as int));
        p = e;
    }
    assert(subs@.skip(n as int) =~= Seq::<Subscription>::empty());
    (out, None)
}


/// The chain has a subscription that is active.
pub open spec fn has_active(p: (u64, Seq<Subscription>)) -> bool {
    exists|j: int| 0 <= j < p.1.len() && (#[trigger] p.1[j]).status.is_active
}

/// The chains, in table order, that have an active subscription.
pub open spec fn active_chains(t: Seq<(u64, Seq<Subscription>)>) -> Seq<u64> {
    t.filter(|p: (u64, Seq<Subscription>)| has_active(p)).map_values(|p: (u64, Seq<Subscription>)| p.0)
}

/// The check keeps every chain id in its place.
proof fn lemma_process_table_keys(
    t: Seq<(u64, Seq<Subscription>)>,
    checked: Seq<u64>,
    gas_prices: Seq<u128>,
    fees: Seq<u128>,
    chains: Map<u64, ChainView>,
    bal: Map<u64, Map<Seq<char>, UserBalanceView>>,
    i: int,
)
    ensures
        process_table(t, checked, gas_prices, fees, chains, bal, i).0.len() == t.len(),
        forall|k: int| 0 <= k < t.len() ==> (#[trigger] process_table(t, checked, gas_prices, fees, chains, bal, i).0[k]).0 == t[k].0,
    decreases t.len(),
{
    if t.len() > 0 {
        let c = t[0].0;
        let r = process_table(t, checked, gas_prices, fees, chains, bal, i).0;
        if !checked.contains(c) {
            lemma_process_table_keys(t.drop_first(), checked, gas_prices, fees, chains, bal, i);
            assert forall|k: int| 0 <= k < t.len() implies (#[trigger] r[k]).0 == t[k].0 by {
                if k > 0 { assert(t.drop_first()[k - 1] == t[k]); }
            }
        } else if i < 0 || i >= gas_prices.len() || i >= fees.len() || !chains.contains_key(c) {
        } else {
            let p = process_groups(t[0].1, c, bal, gas_prices[i], fees[i], chains[c].min_balance);
            if p.1 is Some {
                assert forall|k: int| 0 <= k < t.len() implies (#[trigger] r[k]).0 == t[k].0 by {
                    if k > 0 { assert(t.drop_first()[k - 1] == t[k]); }
                }
            } else {
                lemma_process_table_keys(t.drop_first(), checked, gas_prices, fees, chains, bal, i + 1);
                assert forall|k: int| 0 <= k < t.len() implies (#[trigger] r[k]).0 == t[k].0 by {
                    if k > 0 { assert(t.drop_first()[k - 1] == t[k]); }
                }
            }
        }
    }
}

impl Subscriptions {
    /// The chains, in table order, that have an active subscription: those whose gas
    /// price and fee `stop_insufficients` needs.
    pub fn chains_to_check(&self) -> (res: Vec<u64>)
        ensures
            res@ == active_chains(sub_pairs(self.0@)),
    {
        let ghost t = sub_pairs(self.0@);
        let ghost pred = |p: (u64, Seq<Subscription>)| has_active(p);
        let ghost key = |p: (u64, Seq<Subscription>)| p.0;
        let mut res: Vec<u64> = Vec::new();
        let mut i: usize = 0;
        while i < self.0.len()
            invariant
                i <= self.0@.len(),
                t == sub_pairs(self.0@),
                pred == (|p: (u64, Seq<Subscription>)| has_active(p)),
                key == (|p: (u64, Seq<Subscription>)| p.0),
                res@ == t.subrange(0, i as int).filter(pred).map_values(key),
            decreases self.0@.len() - i,
        {
            let mut any = false;
            let mut j: usize = 0;
            while j < self.0[i].1.len()
                invariant
                    i < self.0@.len(),
                    j <= self.0@[i as int].1@.len(),
                    any == exists|q: int| 0 <= q < j && (#[trigger] self.0@[i as int].1@[q]).status.is_active,
                decreases self.0@[i as int].1@.len() - j,
            {
                if self.0[i].1[j].status.is_active {
                    any = true;
                }
                j = j + 1;
            }
            proof {
                assert(t[i as int] == (self.0@[i as int].0, self.0@[i as int].1@));
                assert(any == has_active(t[i as int]));
                assert(t.subrange(0, i + 1) =~= t.subrange(0, i as int).push(t[i as int]));
                t.subrange(0, i as int).lemma_filter_push(t[i as int], pred);
            }
            if any {
                let ghost before = res@;
                res.push(self.0[i].0);
                assert(res@ =~= t.subrange(0, i + 1).filter(pred).map_values(key));
            } else {
                assert(res@ =~= t.subrange(0, i + 1).filter(pred).map_values(key));
            }
            i = i + 1;
        }
        assert(t.subrange(0, self.0@.len() as int) =~= t);
        res
    }

    /// Stops, chain by chain and owner by owner, the subscriptions whose owners cannot pay
    /// for the next round, as `process_table` says: `chains_to_check` are the chains to
    /// check, and the i-th of them met in table order is priced at `gas_prices[i]` plus
    /// `fees[i]` per subscription. An error (a missing price, fee, chain or balance) ends
    /// the check, and what was checked before it stays.
    #[verifier::rlimit(40)]
    pub fn stop_insufficients(
        &mut self,
        balances: &Balances,
        chains: &Chains,
        chains_to_check: &Vec<u64>,
        gas_prices: &Vec<u128>,
        fees: &Vec<u128>,
    ) -> (res: Result<(), PythiaError>)
        requires
            old(self).wf(),
            balances.wf(),
            chains.wf(),
        ensures
            final(self).wf(),
            ({
                let r = process_table(sub_pairs(old(self).0@), chains_to_check@, gas_prices@, fees@, chains.view(), balances.view(), 0);
                &&& sub_pairs(final(self).0@) == r.0
                &&& match r.1 {
                    Some(e) => res == Err::<(), PythiaError>(e),
                    None => res is Ok,
                }
            }),
    {
        let ghost t0 = sub_pairs(self.0@);
        let ghost r = process_table(t0, chains_to_check@, gas_prices@, fees@, chains.view(), balances.view(), 0);
        proof { lemma_process_table_keys(t0, chains_to_check@, gas_prices@, fees@, chains.view(), balances.view(), 0); }
        let n = self.0.len();
        let mut i: usize = 0;
        let mut ci: usize = 0;
        assert(t0.skip(0) =~= t0);
        assert(sub_pairs(self.0@).take(0) + process_table(t0.skip(0), chains_to_check@, gas_prices@, fees@, chains.view(), balances.view(), 0).0 =~= r.0);
        while i < n
            invariant
                self.wf(),
                balances.wf(),
                chains.wf(),
                n == self.0@.len(),
                t0.len() == n,
                t0 == sub_pairs(old(self).0@),
                i <= n,
                ci <= i,
                r == process_table(t0, chains_to_check@, gas_prices@, fees@, chains.view(), balances.view(), 0),
                sub_pairs(self.0@).take(i as int)
                    + process_table(t0.skip(i as int), chains_to_check@, gas_prices@, fees@, chains.view(), balances.view(), ci as int).0 == r.0,
                process_table(t0.skip(i as int), chains_to_check@, gas_prices@, fees@, chains.view(), balances.view(), ci as int).1 == r.1,
                forall|k: int| i <= k < n ==> #[trigger] sub_pairs(self.0@)[k] == t0[k],
            decreases n - i,
        {
            let ghost rest = t0.skip(i as int);
            let ghost cur = sub_pairs(self.0@);
            assert(rest[0] == t0[i as int]);
            assert(cur[i as int] == t0[i as int]);
            assert(rest.drop_first() =~= t0.skip(i + 1));
            let c = self.0[i].0;
            if !contains_u64_vec(chains_to_check, c) {
                assert(cur.take(i + 1) =~= cur.take(i as int).push(cur[i as int]));
                i = i + 1;
            } else {
                if ci >= gas_prices.len() {
                    assert(cur =~= cur.take(i as int) + rest) by {
                        assert forall|k: int| 0 <= k < cur.len() implies #[trigger] cur[k] == (cur.take(i as int) + rest)[k] by {
                            if k >= i { assert(rest[k - i] == t0[k]); }
                        }
                    }
                    assert(rest.len() > 0);
                    assert(chains_to_check@.contains(rest[0].0));
                    assert(process_table(rest, chains_to_check@, gas_prices@, fees@, chains.view(), balances.view(), ci as int)
                        == (rest, Some(PythiaError::GasPriceNotFound)));
                    assert(cur == r.0);
                    return Err(PythiaError::GasPriceNotFound);
                }
                if ci >= fees.len() {
                    assert(cur =~= cur.take(i as int) + rest) by {
                        assert forall|k: int| 0 <= k < cur.len() implies #[trigger] cur[k] == (cur.take(i as int) + rest)[k] by {
                            if k >= i { assert(rest[k - i] == t0[k]); }
                        }
                    }
                    assert(rest.len() > 0);
                    assert(chains_to_check@.contains(rest[0].0));
                    assert(process_table(rest, chains_to_check@, gas_prices@, fees@, chains.view(), balances.view(), ci as int)
                        == (rest, Some(PythiaError::FeeNotFound)));
                    assert(cur == r.0);
                    return Err(PythiaError::FeeNotFound);
                }
                let min = match chains.get_min_balance(c) {
                    Ok(m) => m,
                    Err(_) => {
                        assert(cur =~= cur.take(i as int) + rest) by {
                            assert forall|k: int| 0 <= k < cur.len() implies #[trigger] cur[k] == (cur.take(i as int) + rest)[k] by {
                                if k >= i { assert(rest[k - i] == t0[k]); }
                            }
                        }
                        assert(process_table(rest, chains_to_check@, gas_prices@, fees@, chains.view(), balances.view(), ci as int)
                            == (rest, Some(PythiaError::ChainDoesNotExist)));
                        assert(cur == r.0);
                        return Err(PythiaError::ChainDoesNotExist);
                    },
                };
                let ghost before_vec = self.0@;
                let (ns, err) = process_chain(&self.0[i].1, c, balances, gas_prices[ci], fees[ci], min);
                self.set_chain(i, ns);
                let ghost now = sub_pairs(self.0@);
                assert forall|k: int| 0 <= k < n && k != i implies #[trigger] now[k] == cur[k] by {
                    assert(self.0@[k] == before_vec[k]);
                }
                match err {
                    Some(e) => {
                        assert(now =~= cur.take(i as int) + (seq![(c, now[i as int].1)] + rest.drop_first())) by {
                            assert forall|k: int| 0 <= k < now.len() implies #[trigger] now[k] == (cur.take(i as int) + (seq![(c, now[i as int].1)] + rest.drop_first()))[k] by {
                                if k > i { assert(rest.drop_first()[k - i - 1] == t0[k]); }
                            }
                        }
                        return Err(e);
                    },
                    None => {
                        assert(now.take(i + 1) =~= cur.take(i as int).push((c, now[i as int].1)));
                        ci = ci + 1;
                        i = i + 1;
                    },
                }
            }
        }
        proof {
            assert(t0.skip(n as int) =~= Seq::<(u64, Seq<Subscription>)>::empty());
            assert(sub_pairs(self.0@).take(n as int) =~= sub_pairs(self.0@));
        }
        Ok(())
    }
}

/// Whether `x` occurs in `v`.
fn contains_u64_vec(v: &Vec<u64>, x: u64) -> (res: bool)
    ensures
        res == v@.contains(x),
{
    crate::types::subscription::contains_u64(v, x)
}

} // verus!
