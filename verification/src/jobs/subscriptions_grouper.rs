//! Lining up subscriptions of the same frequency, so that they are published
//! together.
use vstd::prelude::*;

use crate::types::errors::PythiaError;
use crate::types::state::State;
use crate::types::subscription::{sub_pairs, with_status, Subscription, SubscriptionStatus};
use crate::utils::keyed::{lemma_to_map_pointwise, map_entries};

verus! {

/// How many of the first `k` subscriptions have frequency `f`.
pub open spec fn count_freq(subs: Seq<Subscription>, f: u64, k: int) -> nat
    decreases k,
{
    if k <= 0 {
        0
    } else {
        count_freq(subs, f, k - 1) + if subs[k - 1].old_frequency == f { 1nat } else { 0nat }
    }
}

/// The latest last update among the first `k` subscriptions with frequency `f`,
/// or zero.
pub open spec fn max_update(subs: Seq<Subscription>, f: u64, k: int) -> u64
    decreases k,
{
    if k <= 0 {
        0
    } else {
        let m = max_update(subs, f, k - 1);
        let u = subs[k - 1].status.last_update;
        if subs[k - 1].old_frequency == f && u > m { u } else { m }
    }
}

/// A subscription that shares its frequency with another takes the latest last
/// update of all subscriptions of that frequency; others stay as they are.
pub open spec fn grouped_one(subs: Seq<Subscription>, s: Subscription) -> Subscription {
    let f = s.old_frequency;
    if count_freq(subs, f, subs.len() as int) > 1 {
        with_status(s, SubscriptionStatus { last_update: max_update(subs, f, subs.len() as int), ..s.status })
    } else {
        s
    }
}

/// The subscriptions of one chain after grouping, in the same order.
pub open spec fn grouped(subs: Seq<Subscription>) -> Seq<Subscription> {
    subs.map_values(|s: Subscription| grouped_one(subs, s))
}

proof fn lemma_count_monotone(subs: Seq<Subscription>, f: u64, m: int, k: int)
    requires
        m <= k,
    ensures
        count_freq(subs, f, m) <= count_freq(subs, f, k),
    decreases k - m,
{
    if m < k {
        lemma_count_monotone(subs, f, m, k - 1);
    }
}

proof fn lemma_count_step(subs: Seq<Subscription>, f: u64, i: int, k: int)
    requires
        0 <= i < k,
        subs[i].old_frequency == f,
    ensures
        count_freq(subs, f, k) >= count_freq(subs, f, i) + 1,
{
    lemma_count_monotone(subs, f, i + 1, k);
}

proof fn lemma_max_update_ge(subs: Seq<Subscription>, f: u64, k: int, j: int)
    requires
        0 <= j < k,
        subs[j].old_frequency == f,
    ensures
        max_update(subs, f, k) >= subs[j].status.last_update,
    decreases k,
{
    if j < k - 1 {
        lemma_max_update_ge(subs, f, k - 1, j);
    }
}

proof fn lemma_max_update_attained(subs: Seq<Subscription>, f: u64, k: int)
    requires
        count_freq(subs, f, k) > 0,
    ensures
        exists|j: int| 0 <= j < k && subs[j].old_frequency == f && #[trigger] subs[j].status.last_update == max_update(subs, f, k),
    decreases k,
{
    if k > 0 {
        if count_freq(subs, f, k - 1) > 0 {
            lemma_max_update_attained(subs, f, k - 1);
            let j = choose|j: int| 0 <= j < k - 1 && subs[j].old_frequency == f
                && #[trigger] subs[j].status.last_update == max_update(subs, f, k - 1);
            if !(subs[k - 1].old_frequency == f && subs[k - 1].status.last_update > max_update(subs, f, k - 1)) {
                assert(subs[j].status.last_update == max_update(subs, f, k));
            } else {
                assert(subs[k - 1].status.last_update == max_update(subs, f, k));
            }
        } else {
            assert(subs[k - 1].old_frequency == f);
            if max_update(subs, f, k - 1) > 0 && max_update(subs, f, k - 1) >= subs[k - 1].status.last_update {
                lemma_max_update_zero(subs, f, k - 1);
            }
            assert(subs[k - 1].status.last_update == max_update(subs, f, k));
        }
    }
}

proof fn lemma_max_update_zero(subs: Seq<Subscription>, f: u64, k: int)
    requires
        count_freq(subs, f, k) == 0,
    ensures
        max_update(subs, f, k) == 0,
    decreases k,
{
    if k > 0 {
        lemma_max_update_zero(subs, f, k - 1);
    }
}

/// Law: grouping never moves a last update back, and changes nothing else; a
/// subscription whose frequency another subscription of the chain shares takes
/// a last update that is at least that of every subscription of its frequency,
/// and is the last update of one of them.
pub proof fn law_grouped_takes_the_latest_update(subs: Seq<Subscription>, i: int)
    requires
        0 <= i < subs.len(),
    ensures
        grouped(subs).len() == subs.len(),
        grouped(subs)[i].status.last_update >= subs[i].status.last_update,
        grouped(subs)[i].id == subs[i].id,
        grouped(subs)[i].owner == subs[i].owner,
        grouped(subs)[i].method == subs[i].method,
        grouped(subs)[i].old_frequency == subs[i].old_frequency,
        grouped(subs)[i].status.is_active == subs[i].status.is_active,
        forall|j: int| 0 <= j < subs.len() && j != i && subs[j].old_frequency == subs[i].old_frequency
            ==> grouped(subs)[i].status.last_update >= #[trigger] subs[j].status.last_update,
        exists|j: int| 0 <= j < subs.len() && subs[j].old_frequency == subs[i].old_frequency
            && grouped(subs)[i].status.last_update == #[trigger] subs[j].status.last_update,
{
    let f = subs[i].old_frequency;
    let n = subs.len() as int;
    lemma_count_step(subs, f, i, n);
    lemma_max_update_ge(subs, f, n, i);
    assert forall|j: int| 0 <= j < subs.len() && j != i && subs[j].old_frequency == subs[i].old_frequency
        implies grouped(subs)[i].status.last_update >= #[trigger] subs[j].status.last_update by {
        lemma_max_update_ge(subs, f, n, j);
        let (a, b) = if i < j { (i, j) } else { (j, i) };
        lemma_count_step(subs, f, a, b);
        lemma_count_step(subs, f, b, n);
    }
    if count_freq(subs, f, n) > 1 {
        lemma_max_update_attained(subs, f, n);
    } else {
        assert(subs[i].status.last_update == grouped(subs)[i].status.last_update);
    }
}

/// Whether more than one subscription has frequency `f`, and the latest last
/// update among them.
fn frequency_stats(subs: &Vec<Subscription>, f: u64) -> (res: (bool, u64))
    ensures
        res.0 == (count_freq(subs@, f, subs@.len() as int) > 1),
        res.1 == max_update(subs@, f, subs@.len() as int),
{
    let mut count: u64 = 0;
    let mut max: u64 = 0;
    let mut k: usize = 0;
    while k < subs.len()
        invariant
            k <= subs@.len(),
            count <= 2,
            count as nat == count_freq(subs@, f, k as int) || (count == 2 && count_freq(subs@, f, k as int) > 1),
            (count > 1) == (count_freq(subs@, f, k as int) > 1),
            max == max_update(subs@, f, k as int),
        decreases subs@.len() - k,
    {
        if subs[k].old_frequency == f {
            if count < 2 {
                count = count + 1;
            }
            if subs[k].status.last_update > max {
                max = subs[k].status.last_update;
            }
        }
        k = k + 1;
    }
    (count > 1, max)
}

/// Groups the subscriptions of one chain by frequency: where a frequency is
/// shared, all its subscriptions take the latest last update among them.
pub fn group_subscriptions(subscriptions: &Vec<Subscription>) -> (res: Vec<Subscription>)
    ensures
        res@ == grouped(subscriptions@),
{
    let mut res: Vec<Subscription> = Vec::new();
    let mut i: usize = 0;
    while i < subscriptions.len()
        invariant
            i <= subscriptions@.len(),
            res@.len() == i,
            forall|j: int| 0 <= j < i ==> #[trigger] res@[j] == grouped_one(subscriptions@, subscriptions@[j]),
        decreases subscriptions@.len() - i,
    {
        let mut s = subscriptions[i].clone();
        let (shared, max) = frequency_stats(subscriptions, s.old_frequency);
        if shared {
            s.status.last_update = max;
        }
        res.push(s);
        i = i + 1;
    }
    assert(res@ =~= grouped(subscriptions@));
    res
}

/// Groups the subscriptions of every chain by frequency.
pub fn group(state: &mut State) -> (res: Result<(), PythiaError>)
    requires
        old(state).wf(),
    ensures
        res is Ok,
        final(state).wf(),
        final(state).same_settings(&*old(state)),
        final(state).whitelist == old(state).whitelist,
        final(state).chains.view() == old(state).chains.view(),
        final(state).balances.view() == old(state).balances.view(),
        final(state).withdraw_requests.view() == old(state).withdraw_requests.view(),
        final(state).subscriptions.view() == map_entries(old(state).subscriptions.view(),
            |c: u64, subs: Seq<Subscription>| grouped(subs)),
{
    let ghost g = |c: u64, subs: Seq<Subscription>| grouped(subs);
    let n = state.subscriptions.0.len();
    let mut i: usize = 0;
    while i < n
        invariant
            state.wf(),
            state.same_settings(&*old(state)),
            state.whitelist == old(state).whitelist,
            state.chains.view() == old(state).chains.view(),
            state.balances.view() == old(state).balances.view(),
            state.withdraw_requests.view() == old(state).withdraw_requests.view(),
            n == state.subscriptions.0@.len(),
            n == old(state).subscriptions.0@.len(),
            i <= n,
            g == (|c: u64, subs: Seq<Subscription>| grouped(subs)),
            forall|k: int| 0 <= k < i ==> #[trigger] sub_pairs(state.subscriptions.0@)[k]
                == (old(state).subscriptions.0@[k].0, g(old(state).subscriptions.0@[k].0, old(state).subscriptions.0@[k].1@)),
            forall|k: int| i <= k < n ==> #[trigger] state.subscriptions.0@[k] == old(state).subscriptions.0@[k],
        decreases n - i,
    {
        let newsubs = group_subscriptions(&state.subscriptions.0[i].1);
        let ghost prev = state.subscriptions.0@;
        state.subscriptions.set_chain(i, newsubs);
        assert forall|k: int| 0 <= k < i implies #[trigger] sub_pairs(state.subscriptions.0@)[k] == sub_pairs(prev)[k] by {
            assert(state.subscriptions.0@[k] == prev[k]);
        }
        assert(sub_pairs(state.subscriptions.0@)[i as int] == (old(state).subscriptions.0@[i as int].0,
            g(old(state).subscriptions.0@[i as int].0, old(state).subscriptions.0@[i as int].1@)));
        i = i + 1;
    }
    proof {
        let s0 = sub_pairs(old(state).subscriptions.0@);
        assert forall|k: int| 0 <= k < s0.len() implies #[trigger] sub_pairs(state.subscriptions.0@)[k]
            == (s0[k].0, g(s0[k].0, s0[k].1)) by {}
        lemma_to_map_pointwise(s0, sub_pairs(state.subscriptions.0@), g);
    }
    Ok(())
}

} // verus!
