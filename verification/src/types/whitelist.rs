use vstd::prelude::*;

use crate::utils::text::{str_eq, str_to_string};

verus! {

/// One address on the list, and whether it is blacklisted.
pub struct WhitelistEntry {
    pub address: String,
    pub is_blacklisted: bool,
}

/// What an entry holds, as plain values.
pub struct WhitelistEntryView {
    pub address: Seq<char>,
    pub is_blacklisted: bool,
}

impl View for WhitelistEntry {
    type V = WhitelistEntryView;

    open spec fn view(&self) -> WhitelistEntryView {
        WhitelistEntryView { address: self.address@, is_blacklisted: self.is_blacklisted }
    }
}

pub type Whitelist = Vec<WhitelistEntry>;

/// The list, entry by entry, as plain values.
pub open spec fn list_view(w: Seq<WhitelistEntry>) -> Seq<WhitelistEntryView> {
    w.map_values(|e: WhitelistEntry| e@)
}

/// An address is whitelisted when some entry holds it and is not blacklisted.
pub open spec fn spec_is_whitelisted(w: Seq<WhitelistEntryView>, address: Seq<char>) -> bool {
    exists|i: int| 0 <= i < w.len() && (#[trigger] w[i]).address == address && !w[i].is_blacklisted
}

/// The list without the entries that hold `address`, the others in order.
pub open spec fn spec_without(w: Seq<WhitelistEntryView>, address: Seq<char>) -> Seq<WhitelistEntryView>
    decreases w.len(),
{
    if w.len() == 0 {
        w
    } else if w.last().address == address {
        spec_without(w.drop_last(), address)
    } else {
        spec_without(w.drop_last(), address).push(w.last())
    }
}

/// The list with the blacklist flag of every entry that holds `address` set to `flag`.
pub open spec fn spec_with_flag(w: Seq<WhitelistEntryView>, address: Seq<char>, flag: bool) -> Seq<WhitelistEntryView> {
    w.map_values(|e: WhitelistEntryView|
        if e.address == address { WhitelistEntryView { address: e.address, is_blacklisted: flag } } else { e })
}

/// Whether `address` is whitelisted and not blacklisted.
pub fn is_whitelisted(whitelist: &Whitelist, address: &str) -> (res: bool)
    ensures
        res == spec_is_whitelisted(list_view(whitelist@), address@),
{
    let mut i: usize = 0;
    while i < whitelist.len()
        invariant
            i <= whitelist@.len(),
            forall|j: int| 0 <= j < i ==> !((#[trigger] list_view(whitelist@)[j]).address == address@
                && !list_view(whitelist@)[j].is_blacklisted),
        decreases whitelist@.len() - i,
    {
        let entry = &whitelist[i];
        if str_eq(entry.address.as_str(), address) && !entry.is_blacklisted {
            assert(list_view(whitelist@)[i as int] == entry@);
            return true;
        }
        i = i + 1;
    }
    proof {
        if spec_is_whitelisted(list_view(whitelist@), address@) {
            let k = choose|k: int| 0 <= k < list_view(whitelist@).len()
                && (#[trigger] list_view(whitelist@)[k]).address == address@
                && !list_view(whitelist@)[k].is_blacklisted;
            assert(!((list_view(whitelist@)[k]).address == address@ && !list_view(whitelist@)[k].is_blacklisted));
        }
    }
    false
}

/// Appends `address` to the list, not blacklisted.
pub fn add(whitelist: &mut Whitelist, address: &str)
    ensures
        list_view(final(whitelist)@) == list_view(old(whitelist)@).push(
            WhitelistEntryView { address: address@, is_blacklisted: false },
        ),
{
    let entry = WhitelistEntry { address: str_to_string(address), is_blacklisted: false };
    whitelist.push(entry);
    assert(list_view(whitelist@) =~= list_view(old(whitelist)@).push(
        WhitelistEntryView { address: address@, is_blacklisted: false },
    ));
}


/// Drops every entry that holds `address`; the others keep their order.
pub fn remove(whitelist: &mut Whitelist, address: &str)
    ensures
        list_view(final(whitelist)@) == spec_without(list_view(old(whitelist)@), address@),
{
    let ghost old_list = list_view(whitelist@);
    let mut kept: Vec<WhitelistEntry> = Vec::new();
    let mut rest: Vec<WhitelistEntry> = Vec::new();
    std::mem::swap(&mut rest, whitelist);
    let mut i: usize = 0;
    let n = rest.len();
    while i < n
        invariant
            n == rest@.len(),
            i <= n,
            old_list == list_view(rest@),
            list_view(kept@) == spec_without(old_list.subrange(0, i as int), address@),
        decreases n - i,
    {
        let keep = !str_eq(rest[i].address.as_str(), address);
        proof {
            assert(old_list.subrange(0, i + 1).drop_last() == old_list.subrange(0, i as int));
            assert(old_list.subrange(0, i + 1).last() == old_list[i as int]);
        }
        if keep {
            let e = WhitelistEntry { address: rest[i].address.clone(), is_blacklisted: rest[i].is_blacklisted };
            kept.push(e);
            assert(list_view(kept@) =~= spec_without(old_list.subrange(0, i as int), address@).push(old_list[i as int]));
        }
        i = i + 1;
    }
    assert(old_list.subrange(0, n as int) == old_list);
    *whitelist = kept;
}

/// Sets the blacklist flag of every entry that holds `address`.
fn set_flag(whitelist: &mut Whitelist, address: &str, flag: bool)
    ensures
        list_view(final(whitelist)@) == spec_with_flag(list_view(old(whitelist)@), address@, flag),
{
    let n = whitelist.len();
    let mut i: usize = 0;
    while i < n
        invariant
            n == whitelist@.len(),
            n == old(whitelist)@.len(),
            i <= n,
            forall|j: int| 0 <= j < i ==> #[trigger] list_view(whitelist@)[j]
                == spec_with_flag(list_view(old(whitelist)@), address@, flag)[j],
            forall|j: int| i <= j < n ==> #[trigger] whitelist@[j] == old(whitelist)@[j],
        decreases n - i,
    {
        let ghost before = whitelist@;
        if str_eq(whitelist[i].address.as_str(), address) {
            whitelist[i].is_blacklisted = flag;
            assert(whitelist@[i as int].address == before[i as int].address);
        }
        proof {
            assert(before[i as int] == old(whitelist)@[i as int]);
            assert forall|j: int| 0 <= j < i implies #[trigger] list_view(whitelist@)[j]
                == spec_with_flag(list_view(old(whitelist)@), address@, flag)[j] by {
                assert(whitelist@[j] == before[j]);
                assert(list_view(before)[j] == spec_with_flag(list_view(old(whitelist)@), address@, flag)[j]);
            }
            assert forall|j: int| i < j < n implies #[trigger] whitelist@[j] == old(whitelist)@[j] by {
                assert(whitelist@[j] == before[j]);
            }
            assert(list_view(whitelist@)[i as int] == spec_with_flag(list_view(old(whitelist)@), address@, flag)[i as int]);
        }
        i = i + 1;
    }
    assert(list_view(whitelist@) =~= spec_with_flag(list_view(old(whitelist)@), address@, flag));
}

/// Marks every entry that holds `address` as blacklisted.
pub fn blacklist(whitelist: &mut Whitelist, address: &str)
    ensures
        list_view(final(whitelist)@) == spec_with_flag(list_view(old(whitelist)@), address@, true),
{
    set_flag(whitelist, address, true);
}

/// Clears the blacklist flag of every entry that holds `address`.
pub fn unblacklist(whitelist: &mut Whitelist, address: &str)
    ensures
        list_view(final(whitelist)@) == spec_with_flag(list_view(old(whitelist)@), address@, false),
{
    set_flag(whitelist, address, false);
}

/// A copy of the whole list.
pub fn get_list(whitelist: &Whitelist) -> (res: Whitelist)
    ensures
        list_view(res@) == list_view(whitelist@),
{
    let mut res: Vec<WhitelistEntry> = Vec::new();
    let mut i: usize = 0;
    while i < whitelist.len()
        invariant
            i <= whitelist@.len(),
            res@.len() == i,
            list_view(res@) == list_view(whitelist@).subrange(0, i as int),
        decreases whitelist@.len() - i,
    {
        let e = WhitelistEntry { address: whitelist[i].address.clone(), is_blacklisted: whitelist[i].is_blacklisted };
        assert(e.address == whitelist@[i as int].address);
        assert(e@ == whitelist@[i as int]@);
        res.push(e);
        assert(res@[i as int] == e);
        assert(list_view(res@)[i as int] == list_view(whitelist@)[i as int]);
        assert(list_view(res@) =~= list_view(whitelist@).subrange(0, i + 1));
        i = i + 1;
    }
    assert(list_view(res@) =~= list_view(whitelist@));
    res
}

/// No entry of `spec_without(w, a)` holds `a`; every other entry of `w` is kept.
pub proof fn lemma_without(w: Seq<WhitelistEntryView>, a: Seq<char>)
    ensures
        forall|i: int| 0 <= i < spec_without(w, a).len() ==> (#[trigger] spec_without(w, a)[i]).address != a,
        forall|i: int| 0 <= i < w.len() && (#[trigger] w[i]).address != a ==>
            spec_without(w, a).contains(w[i]),
        forall|e: WhitelistEntryView| spec_without(w, a).contains(e) ==> #[trigger] w.contains(e),
    decreases w.len(),
{
    if w.len() > 0 {
        lemma_without(w.drop_last(), a);
        let r = spec_without(w.drop_last(), a);
        assert forall|i: int| 0 <= i < w.len() && (#[trigger] w[i]).address != a implies
            spec_without(w, a).contains(w[i]) by {
            if i < w.len() - 1 {
                assert(w.drop_last()[i] == w[i]);
                if w.last().address != a {
                    let k = choose|k: int| 0 <= k < r.len() && r[k] == w[i];
                    assert(spec_without(w, a)[k] == w[i]);
                }
            } else {
                assert(spec_without(w, a)[r.len() as int] == w[i]);
            }
        }
        assert forall|e: WhitelistEntryView| spec_without(w, a).contains(e) implies #[trigger] w.contains(e) by {
            let k = choose|k: int| 0 <= k < spec_without(w, a).len() && spec_without(w, a)[k] == e;
            if w.last().address != a && k == r.len() {
                assert(w[w.len() - 1] == e);
            } else {
                assert(r[k] == e);
                assert(r.contains(e));
                assert(w.drop_last().contains(e));
                let j = choose|j: int| 0 <= j < w.drop_last().len() && w.drop_last()[j] == e;
                assert(w[j] == e);
            }
        }
    }
}

/// Law: right after `add(a)`, `a` is whitelisted.
pub proof fn law_add_then_whitelisted(w: Seq<WhitelistEntryView>, a: Seq<char>)
    ensures
        spec_is_whitelisted(w.push(WhitelistEntryView { address: a, is_blacklisted: false }), a),
{
    let w2 = w.push(WhitelistEntryView { address: a, is_blacklisted: false });
    assert(w2[w.len() as int].address == a);
}

/// Law: right after `remove(a)`, `a` is not whitelisted, and every other address keeps
/// its standing.
pub proof fn law_remove_then_not_whitelisted(w: Seq<WhitelistEntryView>, a: Seq<char>, b: Seq<char>)
    ensures
        !spec_is_whitelisted(spec_without(w, a), a),
        b != a ==> (spec_is_whitelisted(spec_without(w, a), b) == spec_is_whitelisted(w, b)),
{
    lemma_without(w, a);
    let r = spec_without(w, a);
    if b != a {
        if spec_is_whitelisted(w, b) {
            let i = choose|i: int| 0 <= i < w.len() && (#[trigger] w[i]).address == b && !w[i].is_blacklisted;
            assert(r.contains(w[i]));
            let k = choose|k: int| 0 <= k < r.len() && r[k] == w[i];
            assert(r[k].address == b);
        }
        if spec_is_whitelisted(r, b) {
            let k = choose|k: int| 0 <= k < r.len() && (#[trigger] r[k]).address == b && !r[k].is_blacklisted;
            assert(r.contains(r[k]));
            assert(w.contains(r[k]));
            let i = choose|i: int| 0 <= i < w.len() && w[i] == r[k];
            assert(w[i].address == b);
        }
    }
}

/// Law: right after `blacklist(a)`, `a` is not whitelisted; the standing of every other
/// address is unchanged.
pub proof fn law_blacklist_then_not_whitelisted(w: Seq<WhitelistEntryView>, a: Seq<char>, b: Seq<char>)
    ensures
        !spec_is_whitelisted(spec_with_flag(w, a, true), a),
        b != a ==> (spec_is_whitelisted(spec_with_flag(w, a, true), b) == spec_is_whitelisted(w, b)),
{
    let r = spec_with_flag(w, a, true);
    if b != a {
        if spec_is_whitelisted(w, b) {
            let i = choose|i: int| 0 <= i < w.len() && (#[trigger] w[i]).address == b && !w[i].is_blacklisted;
            assert(r[i] == w[i]);
        }
        if spec_is_whitelisted(r, b) {
            let i = choose|i: int| 0 <= i < r.len() && (#[trigger] r[i]).address == b && !r[i].is_blacklisted;
            assert(r[i] == w[i]);
        }
    }
}

/// Law: right after `unblacklist(a)`, `a` is whitelisted exactly when some entry holds it;
/// so `unblacklist` undoes `blacklist`.
pub proof fn law_unblacklist(w: Seq<WhitelistEntryView>, a: Seq<char>)
    ensures
        spec_is_whitelisted(spec_with_flag(w, a, false), a)
            == (exists|i: int| 0 <= i < w.len() && (#[trigger] w[i]).address == a),
        spec_is_whitelisted(spec_with_flag(spec_with_flag(w, a, true), a, false), a)
            == spec_is_whitelisted(spec_with_flag(w, a, false), a),
{
    let r = spec_with_flag(w, a, false);
    if exists|i: int| 0 <= i < w.len() && (#[trigger] w[i]).address == a {
        let i = choose|i: int| 0 <= i < w.len() && (#[trigger] w[i]).address == a;
        assert(r[i].address == a && !r[i].is_blacklisted);
    }
    if spec_is_whitelisted(r, a) {
        let i = choose|i: int| 0 <= i < r.len() && (#[trigger] r[i]).address == a && !r[i].is_blacklisted;
        assert(w[i].address == a);
    }
    let r2 = spec_with_flag(spec_with_flag(w, a, true), a, false);
    assert(r2 =~= r);
}

} // verus!
