use vstd::prelude::*;

use crate::types::errors::PythiaError;
use crate::utils::keyed::{keys_unique, lemma_push, lemma_remove, lemma_to_map, lemma_update, to_map};
use crate::utils::text::str_to_string;

verus! {

/// A request to send `amount` to `receiver`.
#[derive(Debug)]
pub struct WithdrawRequest {
    pub amount: u128,
    pub receiver: String,
}

/// Chain id => withdraw requests, in the order they were made.
pub struct WithdrawRequests(pub Vec<(u64, Vec<WithdrawRequest>)>);

/// The table, pair by pair, each chain's requests as a sequence.
pub open spec fn request_pairs(s: Seq<(u64, Vec<WithdrawRequest>)>) -> Seq<(u64, Seq<WithdrawRequest>)> {
    s.map_values(|p: (u64, Vec<WithdrawRequest>)| (p.0, p.1@))
}

impl WithdrawRequests {
    /// Each chain id occurs once.
    pub open spec fn wf(&self) -> bool {
        keys_unique(request_pairs(self.0@))
    }

    pub open spec fn view(&self) -> Map<u64, Seq<WithdrawRequest>> {
        to_map(request_pairs(self.0@))
    }

    /// An empty table.
    pub fn new() -> (res: WithdrawRequests)
        ensures
            res.wf(),
            res.view() == Map::<u64, Seq<WithdrawRequest>>::empty(),
    {
        let res = WithdrawRequests(Vec::new());
        assert(request_pairs(res.0@) =~= Seq::<(u64, Seq<WithdrawRequest>)>::empty());
        res
    }

    /// The position of chain `id`.
    fn find_chain(&self, id: u64) -> (res: Option<usize>)
        requires
            self.wf(),
        ensures
            match res {
                Some(i) => i < self.0@.len() && self.0@[i as int].0 == id && self.view().contains_key(id)
                    && self.view()[id] == self.0@[i as int].1@,
                None => !self.view().contains_key(id),
            },
    {
        let mut i: usize = 0;
        while i < self.0.len()
            invariant
                self.wf(),
                i <= self.0@.len(),
                forall|j: int| 0 <= j < i ==> (#[trigger] self.0@[j]).0 != id,
            decreases self.0@.len() - i,
        {
            if self.0[i].0 == id {
                proof {
                    lemma_to_map(request_pairs(self.0@));
                    assert(request_pairs(self.0@)[i as int] == (id, self.0@[i as int].1@));
                    assert(to_map(request_pairs(self.0@)).contains_key(request_pairs(self.0@)[i as int].0));
                }
                return Some(i);
            }
            i = i + 1;
        }
        proof {
            lemma_to_map(request_pairs(self.0@));
            if self.view().contains_key(id) {
                let j = choose|j: int| 0 <= j < request_pairs(self.0@).len() && request_pairs(self.0@)[j].0 == id;
                assert(self.0@[j].0 == id);
            }
        }
        None
    }

    /// Queues a request to send `amount` to `receiver` on chain `chain_id`.
    pub fn add(&mut self, chain_id: u64, receiver: &str, amount: u128) -> (res: Result<(), PythiaError>)
        requires
            old(self).wf(),
        ensures
            final(self).wf(),
            !old(self).view().contains_key(chain_id) ==> res == Err::<(), PythiaError>(PythiaError::ChainDoesNotExist)
                && final(self).view() == old(self).view(),
            old(self).view().contains_key(chain_id) ==> res is Ok && final(self).view().contains_key(chain_id)
                && final(self).view() == old(self).view().insert(chain_id, old(self).view()[chain_id].push(final(self).view()[chain_id].last()))
                && final(self).view()[chain_id].last().amount == amount
                && final(self).view()[chain_id].last().receiver@ == receiver@,
    {
        let i = match self.find_chain(chain_id) {
            Some(i) => i,
            None => { return Err(PythiaError::ChainDoesNotExist); },
        };
        let req = WithdrawRequest { amount, receiver: str_to_string(receiver) };
        let ghost newreqs = self.0@[i as int].1@.push(req);
        proof { lemma_update(request_pairs(self.0@), i as int, newreqs); }
        self.0[i].1.push(req);
        assert(request_pairs(self.0@) =~= request_pairs(old(self).0@).update(i as int, (chain_id, newreqs)));
        Ok(())
    }

    /// Drops all requests of chain `chain_id`.
    pub fn erase(&mut self, chain_id: u64) -> (res: Result<(), PythiaError>)
        requires
            old(self).wf(),
        ensures
            final(self).wf(),
            !old(self).view().contains_key(chain_id) ==> res == Err::<(), PythiaError>(PythiaError::ChainDoesNotExist)
                && final(self).view() == old(self).view(),
            old(self).view().contains_key(chain_id) ==> res is Ok
                && final(self).view() == old(self).view().insert(chain_id, Seq::<WithdrawRequest>::empty()),
    {
        let i = match self.find_chain(chain_id) {
            Some(i) => i,
            None => { return Err(PythiaError::ChainDoesNotExist); },
        };
        proof { lemma_update(request_pairs(self.0@), i as int, Seq::<WithdrawRequest>::empty()); }
        self.0[i].1 = Vec::new();
        assert(request_pairs(self.0@) =~= request_pairs(old(self).0@).update(i as int, (chain_id, Seq::<WithdrawRequest>::empty())));
        Ok(())
    }

    /// Opens an empty queue for a new chain.
    pub fn init_new_chain(&mut self, chain_id: u64) -> (res: Result<(), PythiaError>)
        requires
            old(self).wf(),
        ensures
            final(self).wf(),
            old(self).view().contains_key(chain_id) ==> res == Err::<(), PythiaError>(PythiaError::ChainAlreadyExists)
                && final(self).view() == old(self).view(),
            !old(self).view().contains_key(chain_id) ==> res is Ok
                && final(self).view() == old(self).view().insert(chain_id, Seq::<WithdrawRequest>::empty()),
    {
        if self.find_chain(chain_id).is_some() {
            return Err(PythiaError::ChainAlreadyExists);
        }
        let v: Vec<WithdrawRequest> = Vec::new();
        proof { lemma_push(request_pairs(self.0@), chain_id, v@); }
        let ghost vv = v@;
        self.0.push((chain_id, v));
        assert(request_pairs(self.0@) =~= request_pairs(old(self).0@).push((chain_id, vv)));
        Ok(())
    }

    /// Drops the queue of chain `chain_id`.
    pub fn deinit_chain(&mut self, chain_id: u64) -> (res: Result<(), PythiaError>)
        requires
            old(self).wf(),
        ensures
            final(self).wf(),
            !old(self).view().contains_key(chain_id) ==> res == Err::<(), PythiaError>(PythiaError::ChainDoesNotExist)
                && final(self).view() == old(self).view(),
            old(self).view().contains_key(chain_id) ==> res is Ok && final(self).view() == old(self).view().remove(chain_id),
    {
        match self.find_chain(chain_id) {
            Some(i) => {
                proof { lemma_remove(request_pairs(self.0@), i as int); }
                self.0.remove(i);
                assert(request_pairs(self.0@) =~= request_pairs(old(self).0@).remove(i as int));
                Ok(())
            },
            None => Err(PythiaError::ChainDoesNotExist),
        }
    }
}

} // verus!
