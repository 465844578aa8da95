//! Paying out the queued withdrawal requests.
use vstd::prelude::*;

use crate::types::withdraw::WithdrawRequest;
use crate::utils::address::{spec_parse_h160, to_h160};
use crate::utils::multicall::Transfer;

verus! {

/// The most transfers that one multitransfer carries.
pub const MAX_TRANSFERS: usize = 100;

/// Every receiver of `reqs` denotes an address.
pub open spec fn receivers_parse(reqs: Seq<WithdrawRequest>) -> bool {
    forall|i: int| 0 <= i < reqs.len() ==> spec_parse_h160(#[trigger] reqs[i].receiver@) is Some
}

/// The transfer that pays request `r`.
pub open spec fn transfer_of(r: WithdrawRequest) -> (Seq<u8>, u128) {
    (spec_parse_h160(r.receiver@)->0, r.amount)
}

/// A transfer as plain values.
pub open spec fn transfer_view(t: Transfer) -> (Seq<u8>, u128) {
    (t.target@, t.value)
}

/// The transfers of a list, as plain values.
pub open spec fn transfers_view(ts: Seq<Transfer>) -> Seq<(Seq<u8>, u128)> {
    ts.map_values(|t: Transfer| transfer_view(t))
}

/// The transfers of all chunks, one chunk after the other.
pub open spec fn flat(chunks: Seq<Vec<Transfer>>) -> Seq<(Seq<u8>, u128)>
    decreases chunks.len(),
{
    if chunks.len() == 0 {
        seq![]
    } else {
        flat(chunks.drop_last()) + transfers_view(chunks.last()@)
    }
}

/// The transfers that pay `reqs`, one for each request in order, cut into
/// multitransfers of at most `MAX_TRANSFERS`, all full but the last; `None` when
/// a receiver denotes no address.
pub fn send_funds_plan(reqs: &Vec<WithdrawRequest>) -> (res: Option<Vec<Vec<Transfer>>>)
    ensures
        !receivers_parse(reqs@) ==> res is None,
        receivers_parse(reqs@) ==> (res matches Some(chunks) && {
            &&& flat(chunks@) == reqs@.map_values(|r: WithdrawRequest| transfer_of(r))
            &&& forall|c: int| 0 <= c < chunks@.len() ==> 1 <= (#[trigger] chunks@[c])@.len() <= MAX_TRANSFERS
            &&& forall|c: int| 0 <= c < chunks@.len() - 1 ==> (#[trigger] chunks@[c])@.len() == MAX_TRANSFERS
        }),
{
    let mut chunks: Vec<Vec<Transfer>> = Vec::new();
    let mut current: Vec<Transfer> = Vec::new();
    let mut i: usize = 0;
    while i < reqs.len()
        invariant
            i <= reqs@.len(),
            forall|k: int| 0 <= k < i ==> spec_parse_h160(#[trigger] reqs@[k].receiver@) is Some,
            current@.len() < MAX_TRANSFERS,
            flat(chunks@) + transfers_view(current@) == reqs@.subrange(0, i as int).map_values(|r: WithdrawRequest| transfer_of(r)),
            forall|c: int| 0 <= c < chunks@.len() ==> (#[trigger] chunks@[c])@.len() == MAX_TRANSFERS,
        decreases reqs@.len() - i,
    {
        let target = match to_h160(reqs[i].receiver.as_str()) {
            Ok(t) => t,
            Err(_) => {
                assert(!receivers_parse(reqs@)) by {
                    assert(spec_parse_h160(reqs@[i as int].receiver@) is None);
                }
                return None;
            },
        };
        let ghost before_cur = current@;
        current.push(Transfer { target, value: reqs[i].amount });
        proof {
            assert(transfers_view(current@) =~= transfers_view(before_cur).push(transfer_of(reqs@[i as int])));
            assert(reqs@.subrange(0, i + 1).map_values(|r: WithdrawRequest| transfer_of(r))
                =~= reqs@.subrange(0, i as int).map_values(|r: WithdrawRequest| transfer_of(r)).push(transfer_of(reqs@[i as int])));
        }
        if current.len() == MAX_TRANSFERS {
            let full = current;
            current = Vec::new();
            let ghost before_chunks = chunks@;
            chunks.push(full);
            proof {
                assert(chunks@.drop_last() =~= before_chunks);
                assert(transfers_view(current@) =~= Seq::<(Seq<u8>, u128)>::empty());
            }
        }
        i = i + 1;
    }
    if current.len() > 0 {
        let ghost before_chunks = chunks@;
        chunks.push(current);
        proof {
            assert(chunks@.drop_last() =~= before_chunks);
        }
    } else {
        assert(transfers_view(current@) =~= Seq::<(Seq<u8>, u128)>::empty());
    }
    assert(reqs@.subrange(0, reqs@.len() as int) =~= reqs@);
    Some(chunks)
}

} // verus!
