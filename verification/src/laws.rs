//! Properties that hold across the operations of the service.
use vstd::prelude::*;

use crate::jobs::subscriptions_grouper::{count_freq, grouped, grouped_one, max_update};
use crate::types::balance::UserBalanceView;
use crate::types::pagination::{page_items, spec_page_count};
use crate::types::publishable::is_publishable;
use crate::types::subscription::{
    restarted, selected, set_active_selected, stopped, without_selected, Subscription,
};
use crate::methods::signatures::{spec_eip191_message, verify_outcome};
use crate::utils::address::{lemma_normalize_hex_lower, spec_from_h160, spec_hex_lower};
use crate::utils::metrics::Metric;
use crate::utils::signature::{keccak, lemma_hex_decode_lower, recovered_address};
use vstd::utf8::encode_utf8;

verus! {

/// Law: taking back from a balance what was just added to it gives the balances
/// that were there before (`add_amount` then `reduce` of the same amount on the
/// same balance).
pub proof fn law_add_then_reduce_restores(
    m: Map<u64, Map<Seq<char>, UserBalanceView>>,
    c: u64,
    a: Seq<char>,
    x: u128,
)
    requires
        m.contains_key(c),
        m[c].contains_key(a),
        m[c][a].amount + x <= u128::MAX,
    ensures
        ({
            let b = m[c][a];
            let m1 = m.insert(c, m[c].insert(a, UserBalanceView { amount: (b.amount + x) as u128, nonces: b.nonces }));
            let b1 = m1[c][a];
            m1.insert(c, m1[c].insert(a, UserBalanceView { amount: (b1.amount - x) as u128, nonces: b1.nonces })) == m
        }),
{
    let b = m[c][a];
    let m1 = m.insert(c, m[c].insert(a, UserBalanceView { amount: (b.amount + x) as u128, nonces: b.nonces }));
    let b1 = m1[c][a];
    assert(UserBalanceView { amount: (b1.amount - x) as u128, nonces: b1.nonces } == b);
    assert(m1[c].insert(a, b) =~= m[c]);
    assert(m1.insert(c, m[c]) =~= m);
}

/// Law: a nonce that a deposit recorded is refused the next time: after
/// `save_nonce` of `n`, the nonces hold `n`.
pub proof fn law_nonce_recorded_once(b: UserBalanceView, n: u128)
    ensures
        b.nonces.push(n).contains(n),
{
    assert(b.nonces.push(n)[b.nonces.len() as int] == n);
}

/// Law: starting a subscription again undoes stopping it, but for the failure
/// count, which starting clears; a running subscription without failures is
/// back as it was.
pub proof fn law_start_undoes_stop(s: Subscription)
    ensures
        restarted(stopped(s)) == restarted(s),
        s.status.is_active && s.status.failures_counter is None ==> restarted(stopped(s)) == s,
{
}

/// Law: after a bulk stop, no selected subscription is active, and the others
/// are as they were.
pub proof fn law_stop_all_stops_selected(subs: Seq<Subscription>, ids: Seq<u64>, owner: Option<Seq<char>>)
    ensures
        set_active_selected(subs, ids, owner, false).len() == subs.len(),
        forall|i: int| 0 <= i < subs.len() && selected(#[trigger] subs[i], ids, owner)
            ==> !set_active_selected(subs, ids, owner, false)[i].status.is_active,
        forall|i: int| 0 <= i < subs.len() && !selected(#[trigger] subs[i], ids, owner)
            ==> set_active_selected(subs, ids, owner, false)[i] == subs[i],
{
}

/// Law: after a bulk removal, no selected subscription is left, and every other
/// one is.
pub proof fn law_remove_all_removes_selected(subs: Seq<Subscription>, ids: Seq<u64>, owner: Option<Seq<char>>)
    ensures
        forall|i: int| 0 <= i < without_selected(subs, ids, owner).len()
            ==> !selected(#[trigger] without_selected(subs, ids, owner)[i], ids, owner),
        forall|s: Subscription| subs.contains(s) && !selected(s, ids, owner)
            ==> #[trigger] without_selected(subs, ids, owner).contains(s),
{
    let p = |s: Subscription| !selected(s, ids, owner);
    broadcast use vstd::seq_lib::group_filter_ensures;
    assert(without_selected(subs, ids, owner) == subs.filter(p));
    assert forall|i: int| 0 <= i < subs.filter(p).len() implies !selected(#[trigger] subs.filter(p)[i], ids, owner) by {
        assert(p(subs.filter(p)[i]));
    }
    assert forall|s: Subscription| subs.contains(s) && !selected(s, ids, owner)
        implies #[trigger] subs.filter(p).contains(s) by {
        let i = choose|i: int| 0 <= i < subs.len() && subs[i] == s;
        assert(p(subs[i]));
    }
}

/// Law: opening a chain's table and closing it again leaves the table as it was.
pub proof fn law_init_then_deinit_restores<V>(m: Map<u64, V>, c: u64, empty: V)
    requires
        !m.contains_key(c),
    ensures
        m.insert(c, empty).remove(c) == m,
{
    assert(m.insert(c, empty).remove(c) =~= m);
}

proof fn lemma_page_bounds(len: nat, size: nat)
    by (nonlinear_arith)
    requires
        size >= 1,
    ensures
        spec_page_count(len, size) * size >= len,
        len > 0 ==> (spec_page_count(len, size) - 1) * size < len,
        len == 0 ==> spec_page_count(len, size) == 0,
{
}

/// Law: the pages cover the list: all pages together hold at least as many
/// places as there are items, one page fewer would not, and every page up to
/// the last is cut from the list while any page after it is empty.
pub proof fn law_pages_cover<T>(data: Seq<T>, size: nat, page: nat)
    requires
        size >= 1,
        page >= 1,
    ensures
        spec_page_count(data.len(), size) * size >= data.len(),
        data.len() > 0 ==> (spec_page_count(data.len(), size) - 1) * size < data.len(),
        page > spec_page_count(data.len(), size) ==> page_items(data, page, size).len() == 0,
        page <= spec_page_count(data.len(), size) ==> 1 <= page_items(data, page, size).len() <= size,
{
    lemma_page_bounds(data.len(), size);
    if page <= spec_page_count(data.len(), size) {
        assert(data.len() > 0);
        assert(((page - 1) as nat) * size < data.len()) by (nonlinear_arith)
            requires
                page >= 1,
                page <= spec_page_count(data.len(), size),
                size >= 1,
                (spec_page_count(data.len(), size) - 1) * size < data.len(),
                data.len() > 0 || spec_page_count(data.len(), size) == 0,
        {
            assert((page - 1) * size <= (spec_page_count(data.len(), size) - 1) * size) by (nonlinear_arith)
                requires page <= spec_page_count(data.len(), size), size >= 1;
        }
    }
}

/// Law: after grouping, subscriptions of a shared frequency share one last
/// update: the latest among them.
pub proof fn law_grouped_share_last_update(subs: Seq<Subscription>, i: int, j: int)
    requires
        0 <= i < subs.len(),
        0 <= j < subs.len(),
        subs[i].old_frequency == subs[j].old_frequency,
        count_freq(subs, subs[i].old_frequency, subs.len() as int) > 1,
    ensures
        grouped(subs)[i].status.last_update == grouped(subs)[j].status.last_update,
        grouped(subs)[i].status.last_update == max_update(subs, subs[i].old_frequency, subs.len() as int),
        grouped(subs)[i].id == subs[i].id && grouped(subs)[i].old_frequency == subs[i].old_frequency,
{
}

/// The subscriptions of a chain that the publisher picks.
pub open spec fn due(subs: Seq<Subscription>, now: u64, rates: Seq<(String, Option<u64>)>) -> Seq<Subscription> {
    subs.filter(|s: Subscription| is_publishable(s, now, rates))
}

/// Law: a subscription that the publisher picks is active.
pub proof fn law_publishable_active(subs: Seq<Subscription>, now: u64, rates: Seq<(String, Option<u64>)>)
    ensures
        forall|k: int| 0 <= k < due(subs, now, rates).len() ==> (#[trigger] due(subs, now, rates)[k]).status.is_active,
{
    broadcast use vstd::seq_lib::group_filter_ensures;
    let p = |s: Subscription| is_publishable(s, now, rates);
    assert forall|k: int| 0 <= k < due(subs, now, rates).len() implies (#[trigger] due(subs, now, rates)[k]).status.is_active by {
        assert(p(subs.filter(p)[k]));
    }
}

/// Law: on a metric without a value of its own, `set` makes one, and `get`
/// then reads the value set.
pub proof fn law_set_then_get(old: Metric, new: Metric, v: u128)
    requires
        old.wf(),
        new.wf(),
        new.plain_entry_made(&old, v),
        !old.has_key(seq![]),
    ensures
        new.plain_value() == v,
{
    let k = new.inner@.len() - 1;
    assert(new.key(k) == Seq::<Seq<char>>::empty());
    assert(new.has_key(seq![]));
    let s = new.slot(seq![]);
    assert(new.key(s) == Seq::<Seq<char>>::empty());
}

/// Law: a personal signature that the service makes with its own key passes its
/// own check. `personal_sign_data` gives the digest, the key signs it, and
/// `complete_signature` appends the recovery byte (27 where recovery id 0 gives
/// the service's address, else 28); `verify_signed_message` then accepts the
/// result against the service's canonical address.
pub proof fn law_own_signature_verifies(message: Seq<char>, signature: Seq<u8>, pma: Seq<u8>)
    requires
        signature.len() == 64,
        pma.len() == 20,
        ({
            let data = keccak(encode_utf8(spec_eip191_message(message)));
            spec_hex_lower(pma) == recovered_address(data, signature, 0)
                || spec_hex_lower(pma) == recovered_address(data, signature, 1)
        }),
    ensures
        ({
            let data = keccak(encode_utf8(spec_eip191_message(message)));
            let v: u8 = if spec_hex_lower(pma) == recovered_address(data, signature, 0) { 27 } else { 28 };
            verify_outcome(message, spec_hex_lower(signature.push(v)), spec_from_h160(pma)) == Ok::<(), Seq<char>>(())
        }),
{
    let data = keccak(encode_utf8(spec_eip191_message(message)));
    let v: u8 = if spec_hex_lower(pma) == recovered_address(data, signature, 0) { 27 } else { 28 };
    let full = signature.push(v);
    lemma_hex_decode_lower(full);
    assert(full.drop_last() =~= signature);
    assert(full.last() == v);
    assert((v % 27) as u8 == if v == 27 { 0u8 } else { 1u8 });
    lemma_normalize_hex_lower(pma);
}

} // verus!
