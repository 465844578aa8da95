//! Which subscriptions are due for publication.
use vstd::prelude::*;

use crate::types::methods::{spec_mutation_fires, spec_mutation_rate, ExecutionCondition, Method};
use crate::types::subscription::{all_subs, sub_pairs, Subscription, Subscriptions};
use crate::utils::keyed::{lemma_to_map_pointwise, map_entries};
use crate::utils::text::str_eq;

verus! {

/// The price read for pair `pair`: the first entry of `rates` for it, `None`
/// where there is none or reading it failed.
pub open spec fn rate_for(rates: Seq<(String, Option<u64>)>, pair: Seq<char>) -> Option<u64>
    decreases rates.len(),
{
    if rates.len() == 0 {
        None
    } else if rates[0].0@ == pair {
        rates[0].1
    } else {
        rate_for(rates.drop_first(), pair)
    }
}

/// What checking the condition of `s` at time `now` gives: whether it is due and
/// the condition as it stands afterwards; `None` when `s` has no condition or
/// its price could not be read.
pub open spec fn checked_condition(s: Subscription, now: u64, rates: Seq<(String, Option<u64>)>)
    -> Option<(bool, ExecutionCondition)>
{
    match s.method.exec_condition {
        None => None,
        Some(ExecutionCondition::Frequency(f)) =>
            Some((now > s.status.last_update + f, ExecutionCondition::Frequency(f))),
        Some(ExecutionCondition::PriceMutation { mutation_rate, pair_id, creation_price, price_mutation_type }) =>
            match rate_for(rates, pair_id@) {
                None => None,
                Some(r) => Some((
                    spec_mutation_fires(spec_mutation_rate(r, creation_price), mutation_rate, price_mutation_type),
                    ExecutionCondition::PriceMutation { mutation_rate, pair_id, creation_price: r, price_mutation_type },
                )),
            },
    }
}

/// `s` is active and its condition is due.
pub open spec fn is_publishable(s: Subscription, now: u64, rates: Seq<(String, Option<u64>)>) -> bool {
    s.status.is_active && (checked_condition(s, now, rates) matches Some((true, _)))
}

/// `s` as it is kept after the check: a due subscription keeps its checked
/// condition, the others stay as they were.
pub open spec fn after_check(s: Subscription, now: u64, rates: Seq<(String, Option<u64>)>) -> Subscription {
    if is_publishable(s, now, rates) {
        Subscription { method: Method { exec_condition: Some((checked_condition(s, now, rates)->0).1), ..s.method }, ..s }
    } else {
        s
    }
}

/// The price condition of `s` can be checked: it does not compare with a zero
/// price, by which the check would divide.
pub open spec fn price_checkable(s: Subscription, rates: Seq<(String, Option<u64>)>) -> bool {
    s.status.is_active ==> match s.method.exec_condition {
        Some(ExecutionCondition::PriceMutation { pair_id, creation_price, .. }) =>
            rate_for(rates, pair_id@) is Some ==> creation_price != 0,
        _ => true,
    }
}

/// The pairs of the active subscriptions with a price condition, in order.
pub open spec fn price_pair_list(subs: Seq<Subscription>) -> Seq<Seq<char>>
    decreases subs.len(),
{
    if subs.len() == 0 {
        seq![]
    } else {
        let s = subs.last();
        let rest = price_pair_list(subs.drop_last());
        if s.status.is_active && (s.method.exec_condition matches Some(ExecutionCondition::PriceMutation { .. })) {
            rest.push(s.method.exec_condition->0->pair_id@)
        } else {
            rest
        }
    }
}

/// The price read for `pair`, as `rate_for` gives it.
pub fn lookup_rate(rates: &Vec<(String, Option<u64>)>, pair: &str) -> (res: Option<u64>)
    ensures
        res == rate_for(rates@, pair@),
{
    let mut k: usize = 0;
    assert(rates@.subrange(0, rates@.len() as int) =~= rates@);
    while k < rates.len()
        invariant
            k <= rates@.len(),
            rate_for(rates@, pair@) == rate_for(rates@.subrange(k as int, rates@.len() as int), pair@),
        decreases rates@.len() - k,
    {
        let ghost rest = rates@.subrange(k as int, rates@.len() as int);
        assert(rest.drop_first() =~= rates@.subrange(k + 1, rates@.len() as int));
        assert(rest[0] == rates@[k as int]);
        if str_eq(rates[k].0.as_str(), pair) {
            return rates[k].1;
        }
        k = k + 1;
    }
    assert(rates@.subrange(k as int, rates@.len() as int) =~= Seq::<(String, Option<u64>)>::empty());
    None
}

/// Checks the condition of one subscription as `checked_condition` says.
fn check_condition(s: &Subscription, now: u64, rates: &Vec<(String, Option<u64>)>) -> (res: Option<(bool, ExecutionCondition)>)
    requires
        price_checkable(*s, rates@),
        s.status.is_active,
    ensures
        res == checked_condition(*s, now, rates@),
{
    match &s.method.exec_condition {
        None => None,
        Some(cond) => {
            let mut c = cond.clone();
            match cond {
                ExecutionCondition::Frequency(_) => {
                    let due = c.check_frequency(s.status.last_update, now);
                    Some((due, c))
                },
                ExecutionCondition::PriceMutation { pair_id, .. } => {
                    match lookup_rate(rates, pair_id.as_str()) {
                        None => None,
                        Some(r) => match c.check_price_mutation(r) {
                            Ok(due) => Some((due, c)),
                            Err(_) => None,
                        },
                    }
                },
            }
        },
    }
}

impl Subscriptions {
    /// The pairs whose prices the check needs: those of the active subscriptions
    /// with a price condition, chain after chain.
    pub fn price_pairs(&self) -> (res: Vec<String>)
        ensures
            res@.map_values(|p: String| p@) == price_pair_list(all_subs(sub_pairs(self.0@))),
    {
        let all = self.collect_all();
        let mut res: Vec<String> = Vec::new();
        let mut k: usize = 0;
        while k < all.len()
            invariant
                k <= all@.len(),
                res@.map_values(|p: String| p@) == price_pair_list(all@.subrange(0, k as int)),
            decreases all@.len() - k,
        {
            proof {
                assert(all@.subrange(0, k + 1).drop_last() =~= all@.subrange(0, k as int));
            }
            let ghost before = res@;
            if all[k].status.is_active {
                if let Some(ExecutionCondition::PriceMutation { pair_id, .. }) = &all[k].method.exec_condition {
                    res.push(pair_id.clone());
                }
            }
            proof {
                assert(res@.map_values(|p: String| p@) =~= price_pair_list(all@.subrange(0, k + 1)));
            }
            k = k + 1;
        }
        assert(all@.subrange(0, all@.len() as int) =~= all@);
        res
    }

    /// The subscriptions due for publication at time `now`, with the prices read
    /// in `rates`: for each chain, in table order, its active subscriptions whose
    /// condition is due, as they were before the check; and whether any
    /// subscription at all is active. A due subscription keeps its checked
    /// condition (a price condition remembers the price read).
    pub fn get_publishable(&mut self, now: u64, rates: &Vec<(String, Option<u64>)>) -> (res: (Vec<(u64, Vec<Subscription>)>, bool))
        requires
            old(self).wf(),
            forall|i: int, j: int| 0 <= i < old(self).0@.len() && 0 <= j < old(self).0@[i].1@.len()
                ==> price_checkable(#[trigger] old(self).0@[i].1@[j], rates@),
        ensures
            final(self).wf(),
            final(self).view() == map_entries(old(self).view(),
                |c: u64, subs: Seq<Subscription>| subs.map_values(|s: Subscription| after_check(s, now, rates@))),
            res.0@.len() == old(self).0@.len(),
            forall|i: int| 0 <= i < res.0@.len() ==> (#[trigger] res.0@[i]).0 == old(self).0@[i].0
                && res.0@[i].1@ == old(self).0@[i].1@.filter(|s: Subscription| is_publishable(s, now, rates@)),
            res.1 == exists|i: int, j: int| 0 <= i < old(self).0@.len() && 0 <= j < old(self).0@[i].1@.len()
                && (#[trigger] old(self).0@[i].1@[j]).status.is_active,
    {
        let ghost g = |c: u64, subs: Seq<Subscription>| subs.map_values(|s: Subscription| after_check(s, now, rates@));
        let ghost p = |s: Subscription| is_publishable(s, now, rates@);
        let n = self.0.len();
        let mut out: Vec<(u64, Vec<Subscription>)> = Vec::new();
        let mut is_active = false;
        let mut i: usize = 0;
        while i < n
            invariant
                self.wf(),
                n == self.0@.len(),
                n == old(self).0@.len(),
                i <= n,
                g == (|c: u64, subs: Seq<Subscription>| subs.map_values(|s: Subscription| after_check(s, now, rates@))),
                p == (|s: Subscription| is_publishable(s, now, rates@)),
                forall|a: int, j: int| 0 <= a < old(self).0@.len() && 0 <= j < old(self).0@[a].1@.len()
                    ==> price_checkable(#[trigger] old(self).0@[a].1@[j], rates@),
                forall|k: int| 0 <= k < i ==> #[trigger] sub_pairs(self.0@)[k]
                    == (old(self).0@[k].0, g(old(self).0@[k].0, old(self).0@[k].1@)),
                forall|k: int| i <= k < n ==> #[trigger] self.0@[k] == old(self).0@[k],
                out@.len() == i,
                forall|k: int| 0 <= k < i ==> (#[trigger] out@[k]).0 == old(self).0@[k].0
                    && out@[k].1@ == old(self).0@[k].1@.filter(p),
                is_active == exists|a: int, j: int| 0 <= a < i && 0 <= j < old(self).0@[a].1@.len()
                    && (#[trigger] old(self).0@[a].1@[j]).status.is_active,
            decreases n - i,
        {
            let chain_id = self.0[i].0;
            let subs = &self.0[i].1;
            let ghost old_subs = old(self).0@[i as int].1@;
            let mut kept: Vec<Subscription> = Vec::new();
            let mut due: Vec<Subscription> = Vec::new();
            let mut active_here = false;
            let mut j: usize = 0;
            while j < subs.len()
                invariant
                    subs@ == old_subs,
                    old_subs == old(self).0@[i as int].1@,
                    i < n,
                    n == old(self).0@.len(),
                    p == (|s: Subscription| is_publishable(s, now, rates@)),
                    forall|a: int, b: int| 0 <= a < old(self).0@.len() && 0 <= b < old(self).0@[a].1@.len()
                        ==> price_checkable(#[trigger] old(self).0@[a].1@[b], rates@),
                    j <= subs@.len(),
                    kept@ == old_subs.subrange(0, j as int).map_values(|s: Subscription| after_check(s, now, rates@)),
                    due@ == old_subs.subrange(0, j as int).filter(p),
                    active_here == exists|b: int| 0 <= b < j && (#[trigger] old_subs[b]).status.is_active,
                decreases subs@.len() - j,
            {
                let s = &subs[j];
                proof {
                    assert(old_subs.subrange(0, j + 1) =~= old_subs.subrange(0, j as int).push(old_subs[j as int]));
                    old_subs.subrange(0, j as int).lemma_filter_push(old_subs[j as int], p);
                    assert(price_checkable(old(self).0@[i as int].1@[j as int], rates@));
                }
                let mut t = s.clone();
                if s.status.is_active {
                    active_here = true;
                    match check_condition(s, now, rates) {
                        Some((true, cond)) => {
                            due.push(s.clone());
                            t.method.exec_condition = Some(cond);
                        },
                        _ => {},
                    }
                }
                kept.push(t);
                proof {
                    assert(kept@ =~= old_subs.subrange(0, j + 1).map_values(|s: Subscription| after_check(s, now, rates@)));
                }
                j = j + 1;
            }
            proof {
                assert(old_subs.subrange(0, old_subs.len() as int) =~= old_subs);
                assert(kept@ == g(chain_id, old_subs));
            }
            let ghost prev = self.0@;
            self.set_chain(i, kept);
            assert forall|k: int| 0 <= k < i implies #[trigger] sub_pairs(self.0@)[k] == sub_pairs(prev)[k] by {
                assert(self.0@[k] == prev[k]);
            }
            out.push((chain_id, due));
            is_active = is_active || active_here;
            proof {
                assert forall|k: int| 0 <= k < i + 1 implies (#[trigger] out@[k]).0 == old(self).0@[k].0
                    && out@[k].1@ == old(self).0@[k].1@.filter(p) by {}
            }
            i = i + 1;
        }
        proof {
            let s0 = sub_pairs(old(self).0@);
            assert forall|k: int| 0 <= k < s0.len() implies #[trigger] sub_pairs(self.0@)[k]
                == (s0[k].0, g(s0[k].0, s0[k].1)) by {}
            lemma_to_map_pointwise(s0, sub_pairs(self.0@), g);
        }
        (out, is_active)
    }
}

} // verus!
