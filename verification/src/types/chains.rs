use vstd::prelude::*;

use crate::types::errors::PythiaError;
use crate::utils::keyed::{keys_unique, lemma_push, lemma_remove, lemma_to_map, lemma_update, to_map};
use crate::utils::text::{clone_opt_string, opt_view, str_to_string};

verus! {

/// A supported chain.
pub struct Chain {
    pub chain_id: u64,
    pub rpc: String,
    pub min_balance: u128,
    pub block_gas_limit: u128,
    pub fee: Option<u128>,
    pub symbol: Option<String>,
    pub multicall_contract: Option<String>,
}

/// A chain as plain values.
pub struct ChainView {
    pub chain_id: u64,
    pub rpc: Seq<char>,
    pub min_balance: u128,
    pub block_gas_limit: u128,
    pub fee: Option<u128>,
    pub symbol: Option<Seq<char>>,
    pub multicall_contract: Option<Seq<char>>,
}

impl View for Chain {
    type V = ChainView;

    open spec fn view(&self) -> ChainView {
        ChainView {
            chain_id: self.chain_id,
            rpc: self.rpc@,
            min_balance: self.min_balance,
            block_gas_limit: self.block_gas_limit,
            fee: self.fee,
            symbol: opt_view(self.symbol),
            multicall_contract: opt_view(self.multicall_contract),
        }
    }
}

impl Clone for Chain {
    fn clone(&self) -> (res: Self)
        ensures
            res@ == self@,
    {
        Chain {
            chain_id: self.chain_id,
            rpc: self.rpc.clone(),
            min_balance: self.min_balance,
            block_gas_limit: self.block_gas_limit,
            fee: self.fee,
            symbol: clone_opt_string(&self.symbol),
            multicall_contract: clone_opt_string(&self.multicall_contract),
        }
    }
}

/// What a controller asks for to add a chain.
pub struct CreateChainRequest {
    pub chain_id: u64,
    pub rpc: String,
    pub min_balance: u128,
    pub block_gas_limit: u128,
    pub fee: u128,
    pub symbol: String,
    pub multicall_contract: String,
}

/// The fields of a chain to change; `None` leaves a field as it is.
pub struct ChainUpdator {
    pub rpc: Option<String>,
    pub min_balance: Option<u128>,
    pub block_gas_limit: Option<u128>,
    pub fee: Option<u128>,
    pub symbol: Option<String>,
    pub multicall_contract: Option<String>,
}

/// Chain id => chain.
pub struct Chains(pub Vec<(u64, Chain)>);

/// The text that `url::Url` gives back for `s`, when `s` parses as a URL.
pub uninterp spec fn parsed_url(s: Seq<char>) -> Option<Seq<char>>;

/// `s.parse::<url::Url>()` followed by `to_string()`: the serialization of the parsed
/// URL; what the parser accepts and how it normalizes is named, not stated.
#[verifier::external_body]
fn parse_url(s: &str) -> (res: Option<String>)
    ensures
        opt_view(res) == parsed_url(s@),
{
    match s.parse::<url::Url>() {
        Ok(u) => Some(u.to_string()),
        Err(_) => None,
    }
}

/// The table of chains, pair by pair, as plain values.
pub open spec fn chain_pairs(s: Seq<(u64, Chain)>) -> Seq<(u64, ChainView)> {
    s.map_values(|p: (u64, Chain)| (p.0, p.1@))
}

/// The chain that `updator` makes of `c`, its RPC already parsed into `rpc`.
pub open spec fn spec_updated_chain(c: ChainView, updator: ChainUpdatorView, rpc: Seq<char>) -> ChainView {
    ChainView {
        chain_id: c.chain_id,
        rpc: if updator.rpc is Some { rpc } else { c.rpc },
        min_balance: if let Some(m) = updator.min_balance { m } else { c.min_balance },
        block_gas_limit: if let Some(g) = updator.block_gas_limit { g } else { c.block_gas_limit },
        fee: if updator.fee is Some { updator.fee } else { c.fee },
        symbol: if updator.symbol is Some { updator.symbol } else { c.symbol },
        multicall_contract: if updator.multicall_contract is Some { updator.multicall_contract } else { c.multicall_contract },
    }
}

/// An updator as plain values.
pub struct ChainUpdatorView {
    pub rpc: Option<Seq<char>>,
    pub min_balance: Option<u128>,
    pub block_gas_limit: Option<u128>,
    pub fee: Option<u128>,
    pub symbol: Option<Seq<char>>,
    pub multicall_contract: Option<Seq<char>>,
}

impl View for ChainUpdator {
    type V = ChainUpdatorView;

    open spec fn view(&self) -> ChainUpdatorView {
        ChainUpdatorView {
            rpc: opt_view(self.rpc),
            min_balance: self.min_balance,
            block_gas_limit: self.block_gas_limit,
            fee: self.fee,
            symbol: opt_view(self.symbol),
            multicall_contract: opt_view(self.multicall_contract),
        }
    }
}

impl Chains {
    /// The table holds each chain id once.
    pub open spec fn wf(&self) -> bool {
        keys_unique(chain_pairs(self.0@))
    }

    pub open spec fn view(&self) -> Map<u64, ChainView> {
        to_map(chain_pairs(self.0@))
    }

    /// An empty table.
    pub fn new() -> (res: Chains)
        ensures
            res.wf(),
            res.view() == Map::<u64, ChainView>::empty(),
    {
        let res = Chains(Vec::new());
        assert(chain_pairs(res.0@) =~= Seq::<(u64, ChainView)>::empty());
        res
    }

    /// The position of chain `id` in the table.
    fn find(&self, id: u64) -> (res: Option<usize>)
        requires
            self.wf(),
        ensures
            match res {
                Some(i) => i < self.0@.len() && self.0@[i as int].0 == id && self.view().contains_key(id)
                    && self.view()[id] == self.0@[i as int].1@,
                None => !self.view().contains_key(id),
            },
    {
        proof { lemma_to_map(chain_pairs(self.0@)); }
        let mut i: usize = 0;
        while i < self.0.len()
            invariant
                self.wf(),
                i <= self.0@.len(),
                forall|j: int| 0 <= j < i ==> (#[trigger] self.0@[j]).0 != id,
            decreases self.0@.len() - i,
        {
            if self.0[i].0 == id {
                proof { lemma_to_map(chain_pairs(self.0@)); }
                assert(chain_pairs(self.0@)[i as int] == (id, self.0@[i as int].1@));
                assert(to_map(chain_pairs(self.0@)).contains_key(chain_pairs(self.0@)[i as int].0));
                return Some(i);
            }
            i = i + 1;
        }
        proof {
            if self.view().contains_key(id) {
                let j = choose|j: int| 0 <= j < chain_pairs(self.0@).len() && chain_pairs(self.0@)[j].0 == id;
                assert(self.0@[j].0 == id);
            }
        }
        None
    }

    /// Puts chain `c` under `id`, replacing any chain there.
    fn put(&mut self, id: u64, c: Chain)
        requires
            old(self).wf(),
        ensures
            final(self).wf(),
            final(self).view() == old(self).view().insert(id, c@),
    {
        match self.find(id) {
            Some(i) => {
                proof { lemma_update(chain_pairs(self.0@), i as int, c@); }
                let ghost cv = c@;
                self.0.set(i, (id, c));
                assert(chain_pairs(self.0@) =~= chain_pairs(old(self).0@).update(i as int, (id, cv)));
            },
            None => {
                proof { lemma_push(chain_pairs(self.0@), id, c@); }
                let ghost cv = c@;
                self.0.push((id, c));
                assert(chain_pairs(self.0@) =~= chain_pairs(old(self).0@).push((id, cv)));
            },
        }
    }

    /// Adds (or replaces) the chain that `req` describes; its RPC must parse as a URL,
    /// and the chain keeps the RPC as the URL parser serializes it.
    pub fn add(&mut self, req: &CreateChainRequest) -> (res: Result<(), PythiaError>)
        requires
            old(self).wf(),
        ensures
            final(self).wf(),
            match parsed_url(req.rpc@) {
                Some(rpc) => res is Ok && final(self).view() == old(self).view().insert(req.chain_id, ChainView {
                    chain_id: req.chain_id,
                    rpc: rpc,
                    min_balance: req.min_balance,
                    block_gas_limit: req.block_gas_limit,
                    fee: Some(req.fee),
                    symbol: Some(req.symbol@),
                    multicall_contract: Some(req.multicall_contract@),
                }),
                None => res == Err::<(), PythiaError>(PythiaError::InvalidChainRPC) && final(self).view() == old(self).view(),
            },
    {
        let rpc = match parse_url(req.rpc.as_str()) {
            Some(r) => r,
            None => { return Err(PythiaError::InvalidChainRPC); },
        };
        let chain = Chain {
            chain_id: req.chain_id,
            rpc: rpc,
            min_balance: req.min_balance,
            block_gas_limit: req.block_gas_limit,
            fee: Some(req.fee),
            symbol: Some(req.symbol.clone()),
            multicall_contract: Some(req.multicall_contract.clone()),
        };
        self.put(req.chain_id, chain);
        Ok(())
    }

    /// Removes chain `id`.
    pub fn remove(&mut self, id: u64) -> (res: Result<(), PythiaError>)
        requires
            old(self).wf(),
        ensures
            final(self).wf(),
            old(self).view().contains_key(id) ==> res is Ok && final(self).view() == old(self).view().remove(id),
            !old(self).view().contains_key(id) ==> res == Err::<(), PythiaError>(PythiaError::ChainDoesNotExist)
                && final(self).view() == old(self).view(),
    {
        match self.find(id) {
            Some(i) => {
                proof { lemma_remove(chain_pairs(self.0@), i as int); }
                self.0.remove(i);
                assert(chain_pairs(self.0@) =~= chain_pairs(old(self).0@).remove(i as int));
                Ok(())
            },
            None => Err(PythiaError::ChainDoesNotExist),
        }
    }

    /// Changes the fields of chain `id` that `updator` sets; a new RPC must parse as a
    /// URL, and on any error nothing changes.
    pub fn update(&mut self, id: u64, updator: ChainUpdator) -> (res: Result<(), PythiaError>)
        requires
            old(self).wf(),
        ensures
            final(self).wf(),
            !old(self).view().contains_key(id) ==> res == Err::<(), PythiaError>(PythiaError::ChainDoesNotExist)
                && final(self).view() == old(self).view(),
            old(self).view().contains_key(id) ==> match updator@.rpc {
                Some(r) => match parsed_url(r) {
                    Some(p) => res is Ok && final(self).view() == old(self).view().insert(id,
                        spec_updated_chain(old(self).view()[id], updator@, p)),
                    None => res == Err::<(), PythiaError>(PythiaError::InvalidChainRPC)
                        && final(self).view() == old(self).view(),
                },
                None => res is Ok && final(self).view() == old(self).view().insert(id,
                    spec_updated_chain(old(self).view()[id], updator@, seq![])),
            },
    {
        let i = match self.find(id) {
            Some(i) => i,
            None => { return Err(PythiaError::ChainDoesNotExist); },
        };
        let mut chain = self.0[i].1.clone();
        let ghost p: Seq<char> = seq![];
        if let Some(r) = &updator.rpc {
            match parse_url(r.as_str()) {
                Some(u) => {
                    proof { p = u@; }
                    chain.rpc = u;
                },
                None => { return Err(PythiaError::InvalidChainRPC); },
            }
        }
        if let Some(m) = updator.min_balance {
            chain.min_balance = m;
        }
        if let Some(g) = updator.block_gas_limit {
            chain.block_gas_limit = g;
        }
        if updator.fee.is_some() {
            chain.fee = updator.fee;
        }
        if updator.symbol.is_some() {
            chain.symbol = clone_opt_string(&updator.symbol);
        }
        if updator.multicall_contract.is_some() {
            chain.multicall_contract = clone_opt_string(&updator.multicall_contract);
        }
        assert(chain@ == spec_updated_chain(old(self).view()[id], updator@, p));
        self.put(id, chain);
        Ok(())
    }

    /// A copy of chain `id`.
    pub fn get(&self, id: u64) -> (res: Result<Chain, PythiaError>)
        requires
            self.wf(),
        ensures
            self.view().contains_key(id) ==> (res matches Ok(c) && c@ == self.view()[id]),
            !self.view().contains_key(id) ==> res == Err::<Chain, PythiaError>(PythiaError::ChainDoesNotExist),
    {
        match self.find(id) {
            Some(i) => Ok(self.0[i].1.clone()),
            None => Err(PythiaError::ChainDoesNotExist),
        }
    }

    /// The RPC of chain `id`.
    pub fn get_rpc(&self, id: u64) -> (res: Result<String, PythiaError>)
        requires
            self.wf(),
        ensures
            self.view().contains_key(id) ==> (res matches Ok(r) && r@ == self.view()[id].rpc),
            !self.view().contains_key(id) ==> res == Err::<String, PythiaError>(PythiaError::ChainDoesNotExist),
    {
        match self.find(id) {
            Some(i) => Ok(self.0[i].1.rpc.clone()),
            None => Err(PythiaError::ChainDoesNotExist),
        }
    }

    /// The minimum balance of chain `id`.
    pub fn get_min_balance(&self, id: u64) -> (res: Result<u128, PythiaError>)
        requires
            self.wf(),
        ensures
            self.view().contains_key(id) ==> res == Ok::<u128, PythiaError>(self.view()[id].min_balance),
            !self.view().contains_key(id) ==> res == Err::<u128, PythiaError>(PythiaError::ChainDoesNotExist),
    {
        match self.find(id) {
            Some(i) => Ok(self.0[i].1.min_balance),
            None => Err(PythiaError::ChainDoesNotExist),
        }
    }

    /// The block gas limit of chain `id`.
    pub fn get_block_gas_limit(&self, id: u64) -> (res: Result<u128, PythiaError>)
        requires
            self.wf(),
        ensures
            self.view().contains_key(id) ==> res == Ok::<u128, PythiaError>(self.view()[id].block_gas_limit),
            !self.view().contains_key(id) ==> res == Err::<u128, PythiaError>(PythiaError::ChainDoesNotExist),
    {
        match self.find(id) {
            Some(i) => Ok(self.0[i].1.block_gas_limit),
            None => Err(PythiaError::ChainDoesNotExist),
        }
    }

    /// The fee of chain `id`, which must be set when the chain exists.
    pub fn get_fee(&self, id: u64) -> (res: Result<u128, PythiaError>)
        requires
            self.wf(),
            self.view().contains_key(id) ==> self.view()[id].fee is Some,
        ensures
            self.view().contains_key(id) ==> res == Ok::<u128, PythiaError>(self.view()[id].fee->0),
            !self.view().contains_key(id) ==> res == Err::<u128, PythiaError>(PythiaError::ChainDoesNotExist),
    {
        match self.find(id) {
            Some(i) => match self.0[i].1.fee {
                Some(f) => Ok(f),
                None => Err(PythiaError::ChainDoesNotExist),
            },
            None => Err(PythiaError::ChainDoesNotExist),
        }
    }

    /// The symbol of chain `id`, which must be set when the chain exists.
    pub fn get_symbol(&self, id: u64) -> (res: Result<String, PythiaError>)
        requires
            self.wf(),
            self.view().contains_key(id) ==> self.view()[id].symbol is Some,
        ensures
            self.view().contains_key(id) ==> (res matches Ok(s) && s@ == self.view()[id].symbol->0),
            !self.view().contains_key(id) ==> res == Err::<String, PythiaError>(PythiaError::ChainDoesNotExist),
    {
        match self.find(id) {
            Some(i) => match &self.0[i].1.symbol {
                Some(s) => Ok(s.clone()),
                None => Err(PythiaError::ChainDoesNotExist),
            },
            None => Err(PythiaError::ChainDoesNotExist),
        }
    }

    /// Whether chain `id` exists.
    pub fn is_exists(&self, id: u64) -> (res: bool)
        requires
            self.wf(),
        ensures
            res == self.view().contains_key(id),
    {
        self.find(id).is_some()
    }

    /// Copies of all chains, in table order.
    pub fn get_all(&self) -> (res: Vec<Chain>)
        requires
            self.wf(),
        ensures
            res@.len() == self.0@.len(),
            forall|i: int| 0 <= i < res@.len() ==> (#[trigger] res@[i])@ == self.0@[i].1@,
    {
        proof { lemma_to_map(chain_pairs(self.0@)); }
        let mut res: Vec<Chain> = Vec::new();
        let mut i: usize = 0;
        while i < self.0.len()
            invariant
                i <= self.0@.len(),
                res@.len() == i,
                forall|j: int| 0 <= j < i ==> (#[trigger] res@[j])@ == self.0@[j].1@,
            decreases self.0@.len() - i,
        {
            res.push(self.0[i].1.clone());
            i = i + 1;
        }
        res
    }
}

} // verus!
